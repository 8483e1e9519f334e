use coffer::container::sql;
use coffer::fs::coffer::CofferFS;
use coffer::fs::make::{Make, NewEntry};
use coffer::fs::operation::Operation;
use coffer::fs::query::{open, Ask, Lookup, Question, Stat};
use coffer::fs::read::Read;
use coffer::fs::readdir::Readdir;
use coffer::fs::remove::Remove;
use coffer::fs::rename::{Rename, RenameFlags};
use coffer::fs::setattr::{Changes, Setattr};
use coffer::fs::types::{
    Action, Attr, Child, DbEvent, DbStmt, Errno, Event, FileType, FsAction, FsReply, HostSpace, Reply, Row, Stamp, Stmt,
    TimeChange, BLOCK_SIZE, KIND_DIR, MAX_FILE_SIZE, ROOT_INO,
};
use coffer::fs::write::Write;
use coffer::fs::xattr::{Getxattr, Listxattr, Removexattr, Setxattr};
use rusqlite::{Connection, OptionalExtension};
use std::cell::Cell;

/// A database in memory, a clock that is set by hand, and the number of the
/// action that is to go wrong.
struct Db {
    con: Connection,
    now: Cell<f64>,
    fault: Cell<Option<(usize, bool)>>,
    host: Option<HostSpace>,
}

fn fresh() -> Db {
    let con = Connection::open_in_memory().unwrap();
    con.execute_batch(sql::SCHEMA).unwrap();
    con.execute_batch(sql::XATTRS_SCHEMA).unwrap();
    con.execute(sql::INSERT_ROOT, (KIND_DIR, 0o40700i64, 1000u32, 1000u32, 1.0f64)).unwrap();
    let host = Some(HostSpace { blocks: 10, bfree: 8, bavail: 7 });
    Db { con, now: Cell::new(2.5), fault: Cell::new(None), host }
}

fn at(s: f64) -> Stamp {
    Stamp(s.to_bits())
}

impl Db {
    fn run(&self, stmt: &DbStmt) -> rusqlite::Result<usize> {
        let secs = |s: &Stamp| f64::from_bits(s.0);
        let n = |i: &u64| *i as i64;
        let con = &self.con;
        match stmt {
            Stmt::InsertInode { parent, name, kind, mode, uid, gid, size, now, symlink_target } => con.execute(
                sql::INSERT_INODE,
                (n(parent), name, kind, mode, uid, gid, n(size), secs(now), symlink_target),
            ),
            Stmt::MoveInode { ino, parent, name } => con.execute(sql::MOVE_INODE, (n(parent), name, n(ino))),
            Stmt::DeleteInode { ino } => con.execute(sql::DELETE_INODE, (n(ino),)),
            Stmt::SetMode { ino, mode, ctime } => con.execute(sql::SET_MODE, (mode, secs(ctime), n(ino))),
            Stmt::SetOwner { ino, uid, gid, ctime } => con.execute(sql::SET_OWNER, (uid, gid, secs(ctime), n(ino))),
            Stmt::SetSize { ino, size, now } => con.execute(sql::SET_SIZE, (n(size), secs(now), n(ino))),
            Stmt::SetTimes { ino, atime, mtime } => con.execute(sql::SET_TIMES, (secs(atime), secs(mtime), n(ino))),
            Stmt::Touch { ino, now } => con.execute(sql::TOUCH, (secs(now), n(ino))),
            Stmt::TouchBoth { first, second, now } => con.execute(sql::TOUCH_BOTH, (secs(now), n(first), n(second))),
            Stmt::SetCtime { ino, ctime } => con.execute(sql::SET_CTIME, (secs(ctime), n(ino))),
            Stmt::ClearSetuid { ino } => con.execute(sql::CLEAR_SETUID, (n(ino),)),
            Stmt::ClearSetgid { ino } => con.execute(sql::CLEAR_SETGID, (n(ino),)),
            Stmt::PutBlock { ino, block_no, content } => con.execute(sql::PUT_BLOCK, (n(ino), block_no, content)),
            Stmt::DeleteBlock { ino, block_no } => con.execute(sql::DELETE_BLOCK, (n(ino), block_no)),
            Stmt::DeleteBlocksAfter { ino, block_no } => con.execute(sql::DELETE_BLOCKS_AFTER, (n(ino), block_no)),
            Stmt::DeleteBlocks { ino } => con.execute(sql::DELETE_BLOCKS, (n(ino),)),
            Stmt::PutXattr { ino, name, value } => con.execute(sql::PUT_XATTR, (n(ino), name, value)),
            Stmt::DeleteXattr { ino, name } => con.execute(sql::DELETE_XATTR, (n(ino), name)),
            Stmt::DeleteXattrs { ino } => con.execute(sql::DELETE_XATTRS, (n(ino),)),
        }
    }

    fn perform(&self, action: &FsAction) -> rusqlite::Result<DbEvent> {
        let con = &self.con;
        let n = |i: &u64| *i as i64;
        Ok(match action {
            Action::Begin => {
                con.execute_batch("BEGIN")?;
                Event::Begun { now: at(self.now.get()) }
            }
            Action::Commit => {
                con.execute_batch("COMMIT")?;
                Event::Committed
            }
            Action::FindChild { parent, name } => Event::Ino(
                con.query_row(sql::SELECT_CHILD, (n(parent), name), |r| r.get::<_, i64>(0)).optional()?.map(|i| i as u64),
            ),
            Action::FetchRow { ino } => Event::Row(
                con.query_row(sql::SELECT_ROW_BY_INO, (n(ino),), |r| {
                    Ok(Row {
                        kind: r.get(1)?,
                        mode: r.get(2)?,
                        uid: r.get::<_, i64>(3)? as u32,
                        gid: r.get::<_, i64>(4)? as u32,
                        size: r.get::<_, i64>(5)? as u64,
                        atime: at(r.get(6)?),
                        mtime: at(r.get(7)?),
                        ctime: at(r.get(8)?),
                        symlink_target: r.get(9)?,
                    })
                })
                .optional()?,
            ),
            Action::FetchKind { ino } => Event::Kind(con.query_row(sql::SELECT_KIND, (n(ino),), |r| r.get(0))?),
            Action::FetchParent { ino } => {
                Event::Ino(Some(con.query_row(sql::SELECT_PARENT, (n(ino),), |r| r.get::<_, i64>(0))? as u64))
            }
            Action::HasChildren { ino } => {
                Event::Flag(con.query_row(sql::SELECT_ANY_CHILD, (n(ino),), |_| Ok(())).optional()?.is_some())
            }
            Action::ListChildren { ino } => {
                let mut s = con.prepare(sql::SELECT_CHILDREN)?;
                let rows = s.query_map((n(ino),), |r| {
                    Ok(Child { ino: r.get::<_, i64>(0)? as u64, name: r.get(1)?, kind: r.get(2)? })
                })?;
                Event::Children(rows.collect::<rusqlite::Result<Vec<Child<String>>>>()?)
            }
            Action::TotalSize => Event::Total(con.query_row(sql::SELECT_TOTAL, (), |r| r.get::<_, i64>(0))? as u64),
            Action::FetchBlock { ino, block_no } => Event::Block(
                con.query_row(sql::SELECT_BLOCK, (n(ino), block_no), |r| r.get(0)).optional()?.unwrap_or_default(),
            ),
            Action::HasXattr { ino, name } => {
                Event::Flag(con.prepare(sql::SELECT_XATTR_EXISTS)?.exists((n(ino), name))?)
            }
            Action::FetchXattr { ino, name } => {
                Event::Value(con.query_row(sql::SELECT_XATTR, (n(ino), name), |r| r.get(0)).optional()?)
            }
            Action::ListXattrs { ino } => {
                let mut s = con.prepare(sql::SELECT_XATTR_NAMES)?;
                let rows = s.query_map((n(ino),), |r| r.get::<_, String>(0))?;
                Event::Names(rows.collect::<rusqlite::Result<Vec<String>>>()?)
            }
            Action::HostSpace => Event::Space(self.host),
            Action::RemoveXattr { ino, name } => Event::Flag(con.execute(sql::DELETE_XATTR, (n(ino), name))? > 0),
            Action::Run(list) => {
                for stmt in list {
                    self.run(stmt)?;
                }
                Event::Ran
            }
            Action::Insert(list) => {
                let mut ino: i64 = 0;
                for stmt in list {
                    self.run(stmt)?;
                    if matches!(stmt, Stmt::InsertInode { .. }) {
                        ino = con.last_insert_rowid();
                    }
                }
                Event::Inserted(ino as u64)
            }
            Action::Reply(_) => unreachable!(),
        })
    }

    fn drive<'a, O: Operation<'a>>(&self, mut op: O) -> FsReply {
        let mut event: DbEvent = Event::Start;
        let mut count = 0;
        loop {
            let action = op.step(event);
            if let Action::Reply(reply) = action {
                if !self.con.is_autocommit() {
                    self.con.execute_batch("ROLLBACK").unwrap();
                }
                return reply;
            }
            event = match self.fault.get() {
                Some((place, full)) if place == count => {
                    if full {
                        Event::DiskFull
                    } else {
                        Event::Failed
                    }
                }
                _ => self.perform(&action).unwrap_or(Event::Failed),
            };
            count += 1;
        }
    }

    /// Everything that the tables hold.
    fn dump(&self) -> Vec<String> {
        let mut out = Vec::new();
        for text in [
            "SELECT ino||','||parent||','||name||','||kind||','||mode||','||uid||','||gid||','||size||','||atime||','||mtime||','||ctime||','||ifnull(symlink_target,'-') FROM inodes ORDER BY ino",
            "SELECT ino||','||block_no||','||hex(content) FROM data ORDER BY ino, block_no",
            "SELECT ino||','||name||','||hex(value) FROM xattrs ORDER BY ino, name",
        ] {
            let mut s = self.con.prepare(text).unwrap();
            let rows = s.query_map((), |r| r.get::<_, String>(0)).unwrap();
            for row in rows {
                out.push(row.unwrap());
            }
        }
        out
    }

    fn make<'a>(&self, fs: CofferFS, parent: u64, name: &'a str, what: NewEntry<'a>) -> Result<Attr, Errno> {
        match self.drive(Make::new(fs, parent, Some(name), what)) {
            Reply::Entry(attr) => Ok(attr),
            Reply::Created { attr, handle } => {
                assert_eq!(handle, attr.ino);
                Ok(attr)
            }
            Reply::Error(e) => Err(e),
            other => panic!("{other:?}"),
        }
    }

    fn file(&self, name: &str) -> u64 {
        self.make(plain(), ROOT_INO, name, NewEntry::File { mode: 0o644 }).unwrap().ino
    }

    fn dir(&self, name: &str) -> u64 {
        self.make(plain(), ROOT_INO, name, NewEntry::Dir { mode: 0o755 }).unwrap().ino
    }

    fn write(&self, ino: u64, offset: u64, data: &[u8]) -> Result<u32, Errno> {
        written(self.drive(Write::new(plain(), ino, offset, data, false)))
    }

    fn read(&self, ino: u64, offset: u64, size: u32) -> Result<Vec<u8>, Errno> {
        data(self.drive(Read::<Vec<u8>>::new(ino, offset, size)))
    }

    fn attr(&self, ino: u64) -> Result<Attr, Errno> {
        attr(self.drive(Ask::new(ino, Question::Attributes)))
    }

    fn lookup(&self, parent: u64, name: &str) -> Result<Attr, Errno> {
        attr(self.drive(Lookup::new(parent, Some(name))))
    }

    fn setattr(&self, fs: CofferFS, ino: u64, changes: Changes) -> Result<Attr, Errno> {
        attr(self.drive(Setattr::new(fs, ino, changes)))
    }

    fn remove(&self, parent: u64, name: &str, dir: bool) -> Result<(), Errno> {
        done(self.drive(Remove::new(plain(), parent, Some(name), dir)))
    }

    fn rename(&self, from: (u64, &str), to: (u64, &str), flags: RenameFlags) -> Result<(), Errno> {
        done(self.drive(Rename::new(plain(), from.0, Some(from.1), to.0, Some(to.1), flags)))
    }

    fn setxattr(&self, ino: u64, name: &str, value: &[u8], flags: i32) -> Result<(), Errno> {
        done(self.drive(Setxattr::new(plain(), ino, Some(name), value, flags)))
    }

    fn getxattr(&self, ino: u64, name: &str) -> Result<Vec<u8>, Errno> {
        data(self.drive(Getxattr::new(plain(), ino, Some(name), 65536)))
    }
}

fn attr(reply: FsReply) -> Result<Attr, Errno> {
    match reply {
        Reply::Attr(a) | Reply::Entry(a) => Ok(a),
        Reply::Error(e) => Err(e),
        other => panic!("{other:?}"),
    }
}

fn written(reply: FsReply) -> Result<u32, Errno> {
    match reply {
        Reply::Written(n) => Ok(n),
        Reply::Error(e) => Err(e),
        other => panic!("{other:?}"),
    }
}

fn data(reply: FsReply) -> Result<Vec<u8>, Errno> {
    match reply {
        Reply::Data(d) => Ok(d),
        Reply::Error(e) => Err(e),
        other => panic!("{other:?}"),
    }
}

fn done(reply: FsReply) -> Result<(), Errno> {
    match reply {
        Reply::Done => Ok(()),
        Reply::Error(e) => Err(e),
        other => panic!("{other:?}"),
    }
}

/// A writable filesystem without a ceiling.
fn plain() -> CofferFS {
    CofferFS::new(0, 1000, 100, false, true)
}

fn limited(max_size: u64) -> CofferFS {
    CofferFS::new(max_size, 1000, 100, false, true)
}

fn no_changes() -> Changes {
    Changes { mode: None, uid: None, gid: None, size: None, atime: None, mtime: None, caller_uid: 1000 }
}

fn no_flags() -> RenameFlags {
    RenameFlags { noreplace: false, exchange: false, whiteout: false }
}

#[test]
fn a_new_file_has_the_attributes_it_was_given() {
    let db = fresh();
    let a = db.make(plain(), ROOT_INO, "f", NewEntry::File { mode: 0o104755 }).unwrap();
    assert_eq!(
        a,
        Attr {
            ino: 2,
            size: 0,
            blocks: 0,
            atime: at(2.5),
            mtime: at(2.5),
            ctime: at(2.5),
            crtime: at(2.5),
            kind: FileType::RegularFile,
            perm: 0o4755,
            nlink: 1,
            uid: 1000,
            gid: 100,
            rdev: 0,
            blksize: 4096,
            flags: 0,
        }
    );
    assert_eq!(db.lookup(ROOT_INO, "f").unwrap(), a);
    assert_eq!(db.attr(2).unwrap(), a);
    // The directory changed, too.
    assert_eq!(db.attr(ROOT_INO).unwrap().mtime, at(2.5));
    assert_eq!(db.attr(ROOT_INO).unwrap().atime, at(1.0));
}

#[test]
fn directories_and_links_are_made() {
    let db = fresh();
    let d = db.make(plain(), ROOT_INO, "d", NewEntry::Dir { mode: 0o1777 }).unwrap();
    assert_eq!((d.kind, d.perm, d.nlink), (FileType::Directory, 0o1777, 2));
    let l = db.make(plain(), d.ino, "l", NewEntry::Link { target: Some("../ä") }).unwrap();
    assert_eq!((l.kind, l.perm, l.size, l.blocks), (FileType::Symlink, 0o777, 5, 1));
    assert_eq!(data(db.drive(Ask::new(l.ino, Question::Target))).unwrap(), "../ä".as_bytes());
    assert_eq!(data(db.drive(Ask::new(d.ino, Question::Target))).unwrap(), b"");
    assert_eq!(data(db.drive(Ask::new(99, Question::Target))), Err(Errno::ENOENT));
}

#[test]
fn names_are_used_once_and_are_text() {
    let db = fresh();
    db.file("f");
    let before = db.dump();
    for what in [NewEntry::File { mode: 0 }, NewEntry::Dir { mode: 0 }, NewEntry::Link { target: Some("x") }] {
        assert_eq!(db.make(plain(), ROOT_INO, "f", what), Err(Errno::EEXIST));
    }
    let bad = db.drive(Make::new(plain(), ROOT_INO, None, NewEntry::Dir { mode: 0 }));
    assert!(matches!(bad, Reply::Error(Errno::EINVAL)));
    assert_eq!(db.make(plain(), ROOT_INO, "l", NewEntry::Link { target: None }), Err(Errno::EINVAL));
    assert!(matches!(db.drive(Lookup::new(ROOT_INO, None)), Reply::Error(Errno::EINVAL)));
    assert_eq!(db.dump(), before);
    assert_eq!(db.lookup(ROOT_INO, "g"), Err(Errno::ENOENT));
    assert_eq!(db.attr(77), Err(Errno::ENOENT));
}

#[test]
fn numbers_are_not_used_again() {
    let db = fresh();
    assert_eq!(db.file("a"), 2);
    db.remove(ROOT_INO, "a", false).unwrap();
    assert_eq!(db.file("a"), 3);
}

#[test]
fn what_is_written_is_read_back() {
    let db = fresh();
    let ino = db.file("f");
    let block = BLOCK_SIZE as usize;
    let text: Vec<u8> = (0..3 * block + 17).map(|i| (i % 251) as u8).collect();
    assert_eq!(db.write(ino, 100, &text), Ok(text.len() as u32));
    let size = 100 + text.len() as u64;
    assert_eq!(db.attr(ino).unwrap().size, size);
    assert_eq!(db.read(ino, 100, text.len() as u32).unwrap(), text);
    // The hole in front reads as zeros.
    assert_eq!(db.read(ino, 0, 100).unwrap(), vec![0u8; 100]);
    // Over a border between blocks, and over the end.
    let from = block as u64 - 3;
    assert_eq!(db.read(ino, from, 6).unwrap(), text[block - 103..block - 97].to_vec());
    assert_eq!(db.read(ino, size - 2, 10).unwrap(), text[text.len() - 2..].to_vec());
    assert_eq!(db.read(ino, size, 10).unwrap(), b"");
    assert_eq!(db.read(ino, u64::MAX, 10).unwrap(), b"");
    assert_eq!(db.read(99, 0, 10), Err(Errno::ENOENT));
}

#[test]
fn overwriting_keeps_the_rest() {
    let db = fresh();
    let ino = db.file("f");
    db.write(ino, 0, b"hello world").unwrap();
    db.now.set(9.0);
    assert_eq!(db.write(ino, 6, b"W"), Ok(1));
    assert_eq!(db.read(ino, 0, 100).unwrap(), b"hello World");
    assert_eq!(db.attr(ino).unwrap().mtime, at(9.0));
    assert_eq!(db.attr(ino).unwrap().size, 11);
    assert_eq!(db.write(ino, 2, b""), Ok(0));
    assert_eq!(db.read(ino, 0, 100).unwrap(), b"hello World");
}

#[test]
fn sparse_files_take_no_room() {
    let db = fresh();
    let ino = db.file("f");
    let far = 1 << 40;
    db.write(ino, far, b"x").unwrap();
    assert_eq!(db.attr(ino).unwrap().size, far + 1);
    assert_eq!(db.attr(ino).unwrap().blocks, (far + 1).div_ceil(512));
    let n: i64 = db.con.query_row("SELECT count(*) FROM data", (), |r| r.get(0)).unwrap();
    assert_eq!(n, 1);
    assert_eq!(db.read(ino, far - 2, 3).unwrap(), b"\0\0x");
}

#[test]
fn a_length_that_cannot_be_stored_is_refused() {
    let db = fresh();
    let ino = db.file("f");
    let before = db.dump();
    assert_eq!(db.write(ino, MAX_FILE_SIZE, b"x"), Err(Errno::EFBIG));
    assert_eq!(db.write(ino, u64::MAX, b"x"), Err(Errno::EFBIG));
    let grow = Changes { size: Some(MAX_FILE_SIZE + 1), ..no_changes() };
    assert_eq!(db.setattr(plain(), ino, grow), Err(Errno::EFBIG));
    assert_eq!(db.dump(), before);
    assert_eq!(db.write(ino, MAX_FILE_SIZE - 1, b"x"), Ok(1));
    assert_eq!(db.attr(ino).unwrap().size, MAX_FILE_SIZE);
    assert_eq!(db.write(99, 0, b"x"), Err(Errno::ENOENT));
}

#[test]
fn the_ceiling_holds() {
    let db = fresh();
    let fs = limited(10);
    let ino = db.make(fs, ROOT_INO, "f", NewEntry::File { mode: 0o600 }).unwrap().ino;
    let eleven = db.drive(Write::new(fs, ino, 0, b"0123456789X", false));
    assert!(matches!(eleven, Reply::Error(Errno::ENOSPC)));
    assert_eq!(written(db.drive(Write::new(fs, ino, 0, b"01234567", false))), Ok(8));
    assert_eq!(db.make(fs, ROOT_INO, "l", NewEntry::Link { target: Some("abc") }), Err(Errno::ENOSPC));
    assert!(db.make(fs, ROOT_INO, "l", NewEntry::Link { target: Some("ab") }).is_ok());
    // Full: no more files, but directories, and writing over what is there.
    assert_eq!(db.make(fs, ROOT_INO, "g", NewEntry::File { mode: 0 }), Err(Errno::ENOSPC));
    assert!(db.make(fs, ROOT_INO, "d", NewEntry::Dir { mode: 0 }).is_ok());
    assert_eq!(written(db.drive(Write::new(fs, ino, 4, b"abcd", false))), Ok(4));
    let grow = Changes { size: Some(9), ..no_changes() };
    assert_eq!(db.setattr(fs, ino, grow), Err(Errno::ENOSPC));
    let shrink = Changes { size: Some(2), ..no_changes() };
    assert_eq!(db.setattr(fs, ino, shrink).unwrap().size, 2);
    assert_eq!(db.read(ino, 0, 100).unwrap(), b"01");
}

#[test]
fn truncating_cuts_and_fills() {
    let db = fresh();
    let ino = db.file("f");
    let block = BLOCK_SIZE as usize;
    db.write(ino, 0, &vec![7u8; 2 * block + 5]).unwrap();
    let size = |n: u64| Changes { size: Some(n), ..no_changes() };
    assert_eq!(db.setattr(plain(), ino, size(block as u64 + 3)).unwrap().size, block as u64 + 3);
    assert_eq!(db.setattr(plain(), ino, size(block as u64 + 6)).unwrap().size, block as u64 + 6);
    assert_eq!(db.read(ino, block as u64, 100).unwrap(), b"\x07\x07\x07\0\0\0");
    db.setattr(plain(), ino, size(block as u64)).unwrap();
    let n: i64 = db.con.query_row("SELECT count(*) FROM data", (), |r| r.get(0)).unwrap();
    assert_eq!(n, 1);
    db.setattr(plain(), ino, size(0)).unwrap();
    assert_eq!(db.read(ino, 0, 100).unwrap(), b"");
    assert_eq!(db.setattr(plain(), 99, size(0)), Err(Errno::ENOENT));
}

#[test]
fn attributes_are_set() {
    let db = fresh();
    let ino = db.file("f");
    db.now.set(5.0);
    let c = Changes { mode: Some(0o100600), uid: Some(7), ..no_changes() };
    let a = db.setattr(plain(), ino, c).unwrap();
    assert_eq!((a.perm, a.uid, a.gid, a.kind), (0o600, 7, 100, FileType::RegularFile));
    assert_eq!((a.ctime, a.mtime), (at(5.0), at(2.5)));
    let c = Changes { atime: Some(TimeChange::At(at(1.25))), mtime: Some(TimeChange::Now), ..no_changes() };
    let a = db.setattr(plain(), ino, c).unwrap();
    assert_eq!((a.atime, a.mtime), (at(1.25), at(5.0)));
    let c = Changes { gid: Some(8), ..no_changes() };
    let a = db.setattr(plain(), ino, c).unwrap();
    assert_eq!((a.uid, a.gid), (7, 8));
}

#[test]
fn privileges_are_dropped() {
    let db = fresh();
    let ino = db.file("f");
    let arm = |mode: u32| {
        db.setattr(plain(), ino, Changes { mode: Some(mode), ..no_changes() }).unwrap();
        db.setxattr(ino, "security.capability", b"c", 0).unwrap();
    };
    let perm = || db.attr(ino).unwrap().perm;
    let armed = || db.getxattr(ino, "security.capability").is_ok();
    arm(0o6755);
    assert_eq!(perm(), 0o6755, "a mode that is set is kept");
    db.drive(Write::new(plain(), ino, 0, b"x", false));
    assert!(perm() == 0o6755 && armed());
    db.drive(Write::new(plain(), ino, 0, b"x", true));
    assert!(perm() == 0o755 && !armed());
    // Without the group's execute bit, setgid is no privilege.
    arm(0o6644);
    db.drive(Write::new(plain(), ino, 0, b"x", true));
    assert_eq!(perm(), 0o2644);
    arm(0o6755);
    let root = Changes { size: Some(0), caller_uid: 0, ..no_changes() };
    db.setattr(plain(), ino, root).unwrap();
    assert_eq!(perm(), 0o6755);
    let user = Changes { size: Some(0), ..no_changes() };
    db.setattr(plain(), ino, user).unwrap();
    assert_eq!(perm(), 0o755);
    arm(0o6755);
    let owner = Changes { uid: Some(1), caller_uid: 0, ..no_changes() };
    db.setattr(plain(), ino, owner).unwrap();
    assert!(perm() == 0o755 && !armed());
    // A mode in the same request stands, and a directory is left alone.
    let both = Changes { uid: Some(1), mode: Some(0o4711), ..no_changes() };
    assert_eq!(db.setattr(plain(), ino, both).unwrap().perm, 0o4711);
    let d = db.dir("d");
    db.setattr(plain(), d, Changes { mode: Some(0o2775), ..no_changes() }).unwrap();
    assert_eq!(db.setattr(plain(), d, Changes { uid: Some(1), ..no_changes() }).unwrap().perm, 0o2775);
}

#[test]
fn removing_takes_everything_along() {
    let db = fresh();
    let ino = db.file("f");
    db.write(ino, 0, b"x").unwrap();
    db.setxattr(ino, "user.a", b"1", 0).unwrap();
    db.now.set(4.0);
    assert_eq!(db.remove(ROOT_INO, "f", false), Ok(()));
    assert_eq!(db.lookup(ROOT_INO, "f"), Err(Errno::ENOENT));
    assert_eq!(db.attr(ino), Err(Errno::ENOENT));
    assert_eq!(db.dump().len(), 1);
    assert_eq!(db.attr(ROOT_INO).unwrap().mtime, at(4.0));
    assert_eq!(db.remove(ROOT_INO, "f", false), Err(Errno::ENOENT));
    let bad = db.drive(Remove::new(plain(), ROOT_INO, None, false));
    assert!(matches!(bad, Reply::Error(Errno::EINVAL)));
}

#[test]
fn a_directory_goes_only_when_empty() {
    let db = fresh();
    let d = db.dir("d");
    db.make(plain(), d, "f", NewEntry::File { mode: 0 }).unwrap();
    let before = db.dump();
    assert_eq!(db.remove(ROOT_INO, "d", true), Err(Errno::ENOTEMPTY));
    assert_eq!(db.dump(), before);
    db.remove(d, "f", false).unwrap();
    assert_eq!(db.remove(ROOT_INO, "d", true), Ok(()));
    assert_eq!(db.attr(d), Err(Errno::ENOENT));
    // The root has an entry of its own: it is nobody's child but number 0's.
    assert_eq!(db.remove(0, "", true), Err(Errno::EBUSY));
}

#[test]
fn renaming_moves_and_replaces() {
    let db = fresh();
    let d = db.dir("d");
    let f = db.file("f");
    db.write(f, 0, b"content").unwrap();
    db.now.set(6.0);
    assert_eq!(db.rename((ROOT_INO, "f"), (d, "g"), no_flags()), Ok(()));
    assert_eq!(db.lookup(d, "g").unwrap().ino, f);
    assert_eq!(db.lookup(ROOT_INO, "f"), Err(Errno::ENOENT));
    assert_eq!((db.attr(d).unwrap().mtime, db.attr(ROOT_INO).unwrap().mtime), (at(6.0), at(6.0)));
    // Over another file, which is gone then.
    let old = db.file("f");
    assert_eq!(db.rename((d, "g"), (ROOT_INO, "f"), no_flags()), Ok(()));
    assert_eq!(db.attr(old), Err(Errno::ENOENT));
    assert_eq!(db.read(db.lookup(ROOT_INO, "f").unwrap().ino, 0, 100).unwrap(), b"content");
    // Onto itself.
    assert_eq!(db.rename((ROOT_INO, "f"), (ROOT_INO, "f"), no_flags()), Ok(()));
    assert_eq!(db.lookup(ROOT_INO, "f").unwrap().ino, f);
}

#[test]
fn renaming_refuses() {
    let db = fresh();
    let d = db.dir("d");
    db.dir("e");
    db.file("f");
    db.file("g");
    db.make(plain(), d, "x", NewEntry::File { mode: 0 }).unwrap();
    let before = db.dump();
    assert_eq!(db.rename((ROOT_INO, "nope"), (d, "y"), no_flags()), Err(Errno::ENOENT));
    assert_eq!(db.rename((ROOT_INO, "e"), (ROOT_INO, "d"), no_flags()), Err(Errno::ENOTEMPTY));
    let keep = RenameFlags { noreplace: true, ..no_flags() };
    assert_eq!(db.rename((ROOT_INO, "f"), (ROOT_INO, "g"), keep), Err(Errno::EEXIST));
    let swap = RenameFlags { exchange: true, ..no_flags() };
    assert_eq!(db.rename((ROOT_INO, "f"), (ROOT_INO, "g"), swap), Err(Errno::EINVAL));
    let white = RenameFlags { whiteout: true, ..no_flags() };
    assert_eq!(db.rename((ROOT_INO, "f"), (ROOT_INO, "new"), white), Err(Errno::EINVAL));
    let bad = db.drive(Rename::new(plain(), ROOT_INO, Some("f"), ROOT_INO, None, no_flags()));
    assert!(matches!(bad, Reply::Error(Errno::EINVAL)));
    let bad = db.drive(Rename::new(plain(), ROOT_INO, None, ROOT_INO, Some("f"), no_flags()));
    assert!(matches!(bad, Reply::Error(Errno::EINVAL)));
    assert_eq!(db.dump(), before);
    assert_eq!(db.rename((ROOT_INO, "f"), (ROOT_INO, "new"), keep), Ok(()));
}

#[test]
fn attributes_with_names() {
    let db = fresh();
    let f = db.file("f");
    assert_eq!(db.getxattr(f, "user.a"), Err(Errno::ENODATA));
    db.now.set(3.0);
    assert_eq!(db.setxattr(f, "user.b", b"two", 0), Ok(()));
    assert_eq!(db.setxattr(f, "user.a", b"", 0), Ok(()));
    assert_eq!(db.attr(f).unwrap().ctime, at(3.0));
    assert_eq!(db.getxattr(f, "user.b").unwrap(), b"two");
    assert_eq!(db.getxattr(f, "user.a").unwrap(), b"");
    assert_eq!(data(db.drive(Listxattr::new(plain(), f, 100))).unwrap(), b"user.a\0user.b\0");
    assert!(matches!(db.drive(Listxattr::new(plain(), f, 0)), Reply::XattrSize(14)));
    assert!(matches!(db.drive(Listxattr::new(plain(), f, 13)), Reply::Error(Errno::ERANGE)));
    assert!(matches!(db.drive(Getxattr::new(plain(), f, Some("user.b"), 0)), Reply::XattrSize(3)));
    assert!(matches!(db.drive(Getxattr::new(plain(), f, Some("user.b"), 2)), Reply::Error(Errno::ERANGE)));
    assert_eq!(data(db.drive(Getxattr::new(plain(), f, Some("user.b"), 3))).unwrap(), b"two");
    // XATTR_CREATE is 1, XATTR_REPLACE is 2.
    assert_eq!(db.setxattr(f, "user.b", b"x", 1), Err(Errno::EEXIST));
    assert_eq!(db.setxattr(f, "user.c", b"x", 2), Err(Errno::ENODATA));
    assert_eq!(db.setxattr(f, "user.b", b"x", 2), Ok(()));
    assert_eq!(db.getxattr(f, "user.b").unwrap(), b"x");
    assert_eq!(done(db.drive(Removexattr::new(plain(), f, Some("user.b")))), Ok(()));
    assert_eq!(done(db.drive(Removexattr::new(plain(), f, Some("user.b")))), Err(Errno::ENODATA));
    assert_eq!(db.getxattr(f, "user.b"), Err(Errno::ENODATA));
    assert_eq!(db.setxattr(99, "user.a", b"", 0), Err(Errno::ENOENT));
}

#[test]
fn attributes_have_limits() {
    let db = fresh();
    let f = db.file("f");
    let long = "ä".repeat(128);
    assert_eq!(db.setxattr(f, &long, b"", 0), Err(Errno::ERANGE));
    assert_eq!(db.setxattr(f, "", b"", 0), Err(Errno::ERANGE));
    assert_eq!(db.setxattr(f, &long[2..], b"", 0), Ok(()));
    assert_eq!(db.setxattr(f, "user.a", &vec![0u8; 65537], 0), Err(Errno::E2BIG));
    assert_eq!(db.setxattr(f, "user.a", &vec![0u8; 65536], 0), Ok(()));
    assert!(matches!(db.drive(Setxattr::new(plain(), f, None, b"", 0)), Reply::Error(Errno::EINVAL)));
    assert!(matches!(db.drive(Getxattr::new(plain(), f, None, 0)), Reply::Error(Errno::EINVAL)));
    assert!(matches!(db.drive(Removexattr::new(plain(), f, None)), Reply::Error(Errno::EINVAL)));
}

#[test]
fn a_container_without_attributes_has_none() {
    let db = fresh();
    let f = db.file("f");
    let old = CofferFS::new(0, 1000, 100, false, false);
    assert!(matches!(db.drive(Setxattr::new(old, f, Some("user.a"), b"", 0)), Reply::Error(Errno::ENOTSUP)));
    assert!(matches!(db.drive(Getxattr::new(old, f, Some("user.a"), 0)), Reply::Error(Errno::ENODATA)));
    assert!(matches!(db.drive(Removexattr::new(old, f, Some("user.a"))), Reply::Error(Errno::ENODATA)));
    assert!(matches!(db.drive(Listxattr::new(old, f, 0)), Reply::XattrSize(0)));
    assert_eq!(data(db.drive(Listxattr::new(old, f, 10))).unwrap(), b"");
}

#[test]
fn directories_are_listed_from_anywhere() {
    let db = fresh();
    let d = db.dir("d");
    for name in ["z", "a", "m"] {
        db.make(plain(), d, name, NewEntry::File { mode: 0 }).unwrap();
    }
    db.make(plain(), d, "l", NewEntry::Link { target: Some("t") }).unwrap();
    let list = |ino: u64, offset: u64| match db.drive(Readdir::new(ino, offset)) {
        Reply::Dir(entries) => entries,
        other => panic!("{other:?}"),
    };
    let all = list(d, 0);
    let names: Vec<&str> = all.iter().map(|e| e.name.as_str()).collect();
    assert_eq!(names, vec![".", "..", "z", "a", "m", "l"]);
    assert_eq!((all[0].ino, all[1].ino, all[2].ino), (d, ROOT_INO, d + 1));
    assert_eq!((all[0].kind, all[2].kind, all[5].kind), (FileType::Directory, FileType::RegularFile, FileType::Symlink));
    assert_eq!(all[5].next_offset, 6);
    // Going on where the first part ended misses nothing.
    for cut in 0..7u64 {
        let rest = list(d, cut);
        let names: Vec<&str> = rest.iter().map(|e| e.name.as_str()).collect();
        assert_eq!(names, [".", "..", "z", "a", "m", "l"][cut as usize..].to_vec());
    }
    assert!(list(d, u64::MAX).is_empty());
    assert_eq!(list(ROOT_INO, 0)[1].ino, ROOT_INO);
    assert!(matches!(db.drive(Readdir::new(99, 0)), Reply::Error(Errno::ENOENT)));
}

#[test]
fn space_is_reported() {
    let db = fresh();
    let stat = |fs: CofferFS| match db.drive(Stat::new(fs)) {
        Reply::Statfs(s) => (s.blocks, s.bfree, s.bavail, s.files, s.ffree, s.bsize, s.namelen, s.frsize),
        other => panic!("{other:?}"),
    };
    assert_eq!(stat(plain()), (10, 8, 7, 0, 1_000_000, 4096, 255, 4096));
    let ino = db.file("f");
    db.write(ino, 4999, b"x").unwrap();
    assert_eq!(stat(limited(16384)), (4, 2, 2, 0, 1_000_000, 4096, 255, 4096));
    assert_eq!(stat(limited(4096)), (1, 0, 0, 0, 1_000_000, 4096, 255, 4096));
}

#[test]
fn a_read_only_mount_refuses_every_change() {
    let db = fresh();
    let f = db.file("f");
    let before = db.dump();
    let ro = CofferFS::new(0, 1000, 100, true, true);
    let refused = |r: FsReply| assert!(matches!(r, Reply::Error(Errno::EROFS)), "{r:?}");
    refused(db.drive(Make::new(ro, ROOT_INO, Some("g"), NewEntry::File { mode: 0 })));
    refused(db.drive(Make::new(ro, ROOT_INO, Some("g"), NewEntry::Dir { mode: 0 })));
    refused(db.drive(Make::new(ro, ROOT_INO, Some("g"), NewEntry::Link { target: Some("x") })));
    refused(db.drive(Remove::new(ro, ROOT_INO, Some("f"), false)));
    refused(db.drive(Remove::new(ro, ROOT_INO, Some("f"), true)));
    refused(db.drive(Rename::new(ro, ROOT_INO, Some("f"), ROOT_INO, Some("g"), no_flags())));
    refused(db.drive(Setattr::new(ro, f, no_changes())));
    refused(db.drive(Write::new(ro, f, 0, b"x", false)));
    refused(db.drive(Setxattr::new(ro, f, Some("user.a"), b"", 0)));
    refused(db.drive(Removexattr::new(ro, f, Some("user.a"))));
    assert_eq!(db.dump(), before);
    // O_RDONLY is 0, O_WRONLY 1, O_RDWR 2.
    assert!(matches!(open(&ro, f, 0), Reply::Opened { handle } if handle == f));
    assert!(matches!(open(&ro, f, 1), Reply::Error(Errno::EROFS)));
    assert!(matches!(open(&ro, f, 0o100002), Reply::Error(Errno::EROFS)));
    assert!(matches!(open(&plain(), f, 2), Reply::Opened { .. }));
}

/// A file over two blocks with an attribute, another file and a directory.
fn furnished() -> Db {
    let db = fresh();
    db.dir("d");
    let f = db.file("f");
    db.file("g");
    db.write(f, 0, &vec![1u8; 200000]).unwrap();
    db.setxattr(f, "user.a", b"1", 0).unwrap();
    db
}

/// Lets each action of a call go wrong in turn: either the whole call has
/// happened then, or nothing has.
fn check_atomic<'a, O: Operation<'a>>(name: &str, call: impl Fn() -> O) {
    let db = furnished();
    let before = db.dump();
    let reply = db.drive(call());
    assert!(!matches!(reply, Reply::Error(_)), "{name}: {reply:?}");
    let after = db.dump();
    assert!(before != after, "{name}");
    let mut refused = 0;
    for place in 0..20 {
        for full in [false, true] {
            let db = furnished();
            db.fault.set(Some((place, full)));
            let reply = db.drive(call());
            let left = db.dump();
            if matches!(reply, Reply::Error(_)) {
                refused += 1;
                assert!(left == before || left == after, "{name}, action {place}");
            } else {
                assert!(left == after, "{name}, action {place}");
            }
        }
    }
    assert!(refused >= 6, "{name}: {refused}");
}

#[test]
fn a_call_that_fails_leaves_nothing_behind() {
    let long = vec![2u8; 300000];
    check_atomic("write", || Write::new(plain(), 3, 70000, &long, true));
    check_atomic("rename", || Rename::new(plain(), ROOT_INO, Some("f"), ROOT_INO, Some("g"), no_flags()));
    let c = Changes { mode: Some(0), uid: Some(1), size: Some(3), mtime: Some(TimeChange::Now), ..no_changes() };
    check_atomic("setattr", || Setattr::new(plain(), 3, c));
    check_atomic("setxattr", || Setxattr::new(plain(), 3, Some("user.a"), b"2", 0));
    check_atomic("removexattr", || Removexattr::new(plain(), 3, Some("user.a")));
    check_atomic("rmdir", || Remove::new(plain(), ROOT_INO, Some("d"), true));
    check_atomic("unlink", || Remove::new(plain(), ROOT_INO, Some("f"), false));
    check_atomic("mkdir", || Make::new(plain(), 2, Some("n"), NewEntry::Dir { mode: 0o755 }));
    check_atomic("create", || Make::new(plain(), 2, Some("n"), NewEntry::File { mode: 0o644 }));
    check_atomic("symlink", || Make::new(plain(), 2, Some("n"), NewEntry::Link { target: Some("t") }));
}

#[test]
fn a_full_disk_has_its_own_error() {
    let db = fresh();
    let f = db.file("f");
    // Begin, row, block, block written, row written, commit.
    db.fault.set(Some((3, true)));
    assert_eq!(db.write(f, 0, b"x"), Err(Errno::ENOSPC));
    db.fault.set(Some((3, false)));
    assert_eq!(db.write(f, 0, b"x"), Err(Errno::EIO));
    // Begin, name, insert, commit, row.
    db.fault.set(Some((2, true)));
    assert_eq!(db.make(plain(), ROOT_INO, "g", NewEntry::File { mode: 0 }), Err(Errno::ENOSPC));
    assert_eq!(db.make(plain(), ROOT_INO, "g", NewEntry::Dir { mode: 0 }), Err(Errno::EIO));
    db.fault.set(None);
    assert_eq!(db.lookup(ROOT_INO, "g"), Err(Errno::ENOENT));
}

#[test]
fn attributes_are_listed_by_the_bytes_of_their_names() {
    let db = fresh();
    let f = db.file("f");
    let mut names = ["user.b", "user.\u{1f511}", "user.a", "user.\u{e4}", "user", "user.B", "user.\u{ffee}", "user.aa"];
    for name in names {
        assert_eq!(db.setxattr(f, name, b"", 0), Ok(()));
    }
    names.sort_by(|a, b| a.as_bytes().cmp(b.as_bytes()));
    let mut wanted = Vec::new();
    for name in names {
        wanted.extend_from_slice(name.as_bytes());
        wanted.push(0);
    }
    assert_eq!(data(db.drive(Listxattr::new(plain(), f, 1000))).unwrap(), wanted);
}
