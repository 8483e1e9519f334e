//! `setattr`: `chmod`, `chown`, `truncate` and `utimensat` in one call.
use vstd::prelude::*;

use crate::fs::blocks::{put_block, split_pos};
use crate::fs::blocks;
use crate::fs::coffer::{fail, kill_priv, to_attr, CofferFS};
use crate::fs::coffer;
use crate::fs::operation::Operation;
use crate::fs::types::{
    Action, ActionView, DbEvent, DbStmt, Errno, Event, EventView, FsAction, InodeRow, Reply,
    RowView, Stamp, Stmt, StmtView, TimeChange, KIND_DIR, MAX_FILE_SIZE, PERM_MASK,
};

verus! {

/// What is to change, and who asks.
#[derive(Clone, Copy, Debug, PartialEq, Eq, Structural)]
pub struct Changes {
    pub mode: Option<u32>,
    pub uid: Option<u32>,
    pub gid: Option<u32>,
    pub size: Option<u64>,
    pub atime: Option<TimeChange>,
    pub mtime: Option<TimeChange>,
    pub caller_uid: u32,
}

/// What the call reads of the row that it changes.
#[derive(Clone, Copy, Debug, PartialEq, Eq, Structural)]
pub struct Known {
    pub kind: i64,
    pub mode: i64,
    pub uid: u32,
    pub gid: u32,
    pub size: u64,
    pub atime: Stamp,
    pub mtime: Stamp,
}

pub open spec fn known_of(row: RowView) -> Known {
    Known {
        kind: row.kind,
        mode: row.mode,
        uid: row.uid,
        gid: row.gid,
        size: row.size,
        atime: row.atime,
        mtime: row.mtime,
    }
}

fn known(row: &InodeRow) -> (k: Known)
    ensures
        k == known_of(row@),
{
    Known {
        kind: row.kind,
        mode: row.mode,
        uid: row.uid,
        gid: row.gid,
        size: row.size,
        atime: row.atime,
        mtime: row.mtime,
    }
}

/// A file time after the change.
pub open spec fn changed_time(change: Option<TimeChange>, before: Stamp, now: Stamp) -> Stamp {
    match change {
        Some(TimeChange::Now) => now,
        Some(TimeChange::At(stamp)) => stamp,
        None => before,
    }
}

pub fn time_or_now(change: Option<TimeChange>, before: Stamp, now: Stamp) -> (stamp: Stamp)
    ensures
        stamp == changed_time(change, before, now),
{
    match change {
        Some(TimeChange::Now) => now,
        Some(TimeChange::At(stamp)) => stamp,
        None => before,
    }
}

/// The mode after `chmod`: the type of the file stays, the rest is replaced.
pub open spec fn changed_mode(before: i64, mode: u32) -> i64 {
    (before & !PERM_MASK) | (mode as i64 & PERM_MASK)
}

/// The statements that give the file `ino` the length `size`. `block` is what
/// the block that the new end falls into holds.
pub open spec fn truncation(ino: u64, size: u64, block: Seq<u8>, now: Stamp) -> Seq<StmtView> {
    let last = blocks::block_no(size as int);
    let off = blocks::block_off(size as int);
    seq![
        Stmt::DeleteBlocksAfter { ino, block_no: last },
        if off > 0 {
            blocks::storing(ino, last, blocks::cut(block, off))
        } else {
            Stmt::DeleteBlock { ino, block_no: last }
        },
        Stmt::SetSize { ino, size, now },
    ]
}

pub fn truncate_inode<'a>(ino: u64, size: u64, block: Vec<u8>, now: Stamp) -> (list: Vec<
    DbStmt<'a>,
>)
    ensures
        crate::fs::types::stmts_view(list@) == truncation(ino, size, block@, now),
{
    let (last, off) = split_pos(size);
    let mut list: Vec<DbStmt<'a>> = Vec::new();
    list.push(Stmt::DeleteBlocksAfter { ino, block_no: last });
    if off > 0 {
        let mut kept = block;
        kept.truncate(off);
        assert(kept@ =~= blocks::cut(block@, off as int));
        list.push(put_block(ino, last, kept));
    } else {
        list.push(Stmt::DeleteBlock { ino, block_no: last });
    }
    list.push(Stmt::SetSize { ino, size, now });
    assert(crate::fs::types::stmts_view(list@) =~= truncation(ino, size, block@, now));
    list
}

impl Changes {
    /// The statements for the mode and the owner.
    pub open spec fn owner_statements(self, ino: u64, k: Known, now: Stamp) -> Seq<StmtView> {
        (match self.mode {
            Some(m) => seq![Stmt::SetMode { ino, mode: changed_mode(k.mode, m), ctime: now }],
            None => Seq::<StmtView>::empty(),
        }) + (if self.uid is Some || self.gid is Some {
            seq![
                Stmt::SetOwner {
                    ino,
                    uid: self.uid.unwrap_or(k.uid),
                    gid: self.gid.unwrap_or(k.gid),
                    ctime: now,
                },
            ]
        } else {
            Seq::<StmtView>::empty()
        })
    }

    /// Whether the change takes the file's privileges from it: a truncation by
    /// anyone but root does, and so does any change of a file's owner; but not
    /// where the same call sets the mode.
    pub open spec fn drops_privileges(self, kind: i64) -> bool {
        let truncating = self.size is Some && self.caller_uid != 0;
        let chowning = (self.uid is Some || self.gid is Some) && kind != KIND_DIR;
        self.mode is None && (truncating || chowning)
    }

    /// The statements for the rest.
    pub open spec fn other_statements(self, ino: u64, k: Known, now: Stamp, block: Seq<u8>) -> Seq<
        StmtView,
    > {
        (match self.size {
            Some(size) => truncation(ino, size, block, now),
            None => Seq::<StmtView>::empty(),
        }) + (if self.atime is Some || self.mtime is Some {
            seq![
                Stmt::SetTimes {
                    ino,
                    atime: changed_time(self.atime, k.atime, now),
                    mtime: changed_time(self.mtime, k.mtime, now),
                },
            ]
        } else {
            Seq::<StmtView>::empty()
        }) + (if self.drops_privileges(k.kind) {
            coffer::privilege_drop(ino)
        } else {
            Seq::<StmtView>::empty()
        })
    }

    fn owner_list<'a>(&self, ino: u64, k: &Known, now: Stamp) -> (list: Vec<DbStmt<'a>>)
        ensures
            crate::fs::types::stmts_view(list@) == self.owner_statements(ino, *k, now),
    {
        let mut list: Vec<DbStmt<'a>> = Vec::new();
        if let Some(m) = self.mode {
            let mode: i64 = (k.mode & !PERM_MASK) | (m as i64 & PERM_MASK);
            list.push(Stmt::SetMode { ino, mode, ctime: now });
        }
        if self.uid.is_some() || self.gid.is_some() {
            let uid: u32 = match self.uid {
                Some(uid) => uid,
                None => k.uid,
            };
            let gid: u32 = match self.gid {
                Some(gid) => gid,
                None => k.gid,
            };
            list.push(Stmt::SetOwner { ino, uid, gid, ctime: now });
        }
        assert(crate::fs::types::stmts_view(list@) =~= self.owner_statements(ino, *k, now));
        list
    }

    fn other_list<'a>(&self, ino: u64, k: &Known, now: Stamp, block: Vec<u8>) -> (list: Vec<
        DbStmt<'a>,
    >)
        ensures
            crate::fs::types::stmts_view(list@) == self.other_statements(ino, *k, now, block@),
    {
        let ghost held = block@;
        let mut list: Vec<DbStmt<'a>> = match self.size {
            Some(size) => truncate_inode(ino, size, block, now),
            None => Vec::new(),
        };
        let ghost first = crate::fs::types::stmts_view(list@);
        if self.atime.is_some() || self.mtime.is_some() {
            let atime = time_or_now(self.atime, k.atime, now);
            let mtime = time_or_now(self.mtime, k.mtime, now);
            list.push(Stmt::SetTimes { ino, atime, mtime });
        }
        let ghost second = crate::fs::types::stmts_view(list@);
        let truncating = self.size.is_some() && self.caller_uid != 0;
        let chowning = (self.uid.is_some() || self.gid.is_some()) && k.kind != KIND_DIR;
        if self.mode.is_none() && (truncating || chowning) {
            let mut drops = kill_priv(ino);
            list.append(&mut drops);
        }
        proof {
            assert(first =~= match self.size {
                Some(size) => truncation(ino, size, held, now),
                None => Seq::<StmtView>::empty(),
            });
            assert(second =~= first + (if self.atime is Some || self.mtime is Some {
                seq![
                    Stmt::SetTimes {
                        ino,
                        atime: changed_time(self.atime, k.atime, now),
                        mtime: changed_time(self.mtime, k.mtime, now),
                    },
                ]
            } else {
                Seq::<StmtView>::empty()
            }));
            assert(crate::fs::types::stmts_view(list@) =~= second + (if self.drops_privileges(
                k.kind,
            ) {
                coffer::privilege_drop(ino)
            } else {
                Seq::<StmtView>::empty()
            }));
        }
        list
    }
}

#[derive(Clone, Copy, Debug, PartialEq, Eq, Structural)]
pub enum SetattrStage {
    Start,
    Begin,
    Row { now: Stamp },
    Owner { now: Stamp, known: Known },
    /// `ok` tells whether everything so far went well.
    Ceiling { now: Stamp, known: Known, size: u64, grow: u64, ok: bool },
    Block { now: Stamp, known: Known },
    Change,
    Commit,
    Fetch,
    Over,
}

/// Makes `changes` to the inode `ino`.
#[derive(Clone, Copy, Debug)]
pub struct Setattr {
    pub fs: CofferFS,
    pub ino: u64,
    pub changes: Changes,
    pub stage: SetattrStage,
}

impl View for Setattr {
    type V = Setattr;

    open spec fn view(&self) -> Setattr {
        *self
    }
}

impl Setattr {
    pub fn new(fs: CofferFS, ino: u64, changes: Changes) -> (op: Self)
        ensures
            op == Setattr::start(fs, ino, changes),
    {
        Setattr { fs, ino, changes, stage: SetattrStage::Start }
    }

    pub open spec fn start(fs: CofferFS, ino: u64, changes: Changes) -> Setattr {
        Setattr { fs, ino, changes, stage: SetattrStage::Start }
    }

    pub open spec fn at(self, stage: SetattrStage) -> Setattr {
        Setattr { stage, ..self }
    }

    pub open spec fn over(self, errno: Errno) -> (Setattr, ActionView) {
        (self.at(SetattrStage::Over), coffer::failure(errno))
    }

    pub open spec fn changing(self, now: Stamp, known: Known, block: Seq<u8>) -> (
        Setattr,
        ActionView,
    ) {
        (
            self.at(SetattrStage::Change),
            Action::Run(self.changes.other_statements(self.ino, known, now, block)),
        )
    }

    /// Once the new length is known to be allowed.
    pub open spec fn after_ceiling(self, now: Stamp, known: Known, size: u64, ok: bool) -> (
        Setattr,
        ActionView,
    ) {
        if !ok {
            self.over(Errno::EIO)
        } else if blocks::block_off(size as int) > 0 {
            (
                self.at(SetattrStage::Block { now, known }),
                Action::FetchBlock { ino: self.ino, block_no: blocks::block_no(size as int) },
            )
        } else {
            self.changing(now, known, Seq::empty())
        }
    }

    /// Once the mode and the owner are set.
    pub open spec fn after_owner(self, now: Stamp, known: Known, ok: bool) -> (
        Setattr,
        ActionView,
    ) {
        match self.changes.size {
            Some(size) => if size > MAX_FILE_SIZE {
                self.over(Errno::EFBIG)
            } else if self.fs.max_size != 0 && size > known.size {
                (
                    self.at(
                        SetattrStage::Ceiling {
                            now,
                            known,
                            size,
                            grow: (size - known.size) as u64,
                            ok,
                        },
                    ),
                    Action::TotalSize,
                )
            } else {
                self.after_ceiling(now, known, size, ok)
            },
            None => if ok {
                self.changing(now, known, Seq::empty())
            } else {
                self.over(Errno::EIO)
            },
        }
    }

    fn change<'a>(&mut self, now: Stamp, known: Known, block: Vec<u8>) -> (action: FsAction<'a>)
        ensures
            (*final(self), action@) == old(self).changing(now, known, block@),
    {
        self.stage = SetattrStage::Change;
        Action::Run(self.changes.other_list(self.ino, &known, now, block))
    }

    fn allowed<'a>(&mut self, now: Stamp, known: Known, size: u64, ok: bool) -> (action: FsAction<'a>)
        requires
            old(self).stage is Over,
        ensures
            (*final(self), action@) == old(self).after_ceiling(now, known, size, ok),
    {
        if !ok {
            return fail(Errno::EIO);
        }
        let (block_no, off) = split_pos(size);
        if off > 0 {
            self.stage = SetattrStage::Block { now, known };
            Action::FetchBlock { ino: self.ino, block_no }
        } else {
            let none: Vec<u8> = Vec::new();
            assert(none@ =~= Seq::empty());
            self.change(now, known, none)
        }
    }

    fn owner_set<'a>(&mut self, now: Stamp, known: Known, ok: bool) -> (action: FsAction<'a>)
        requires
            old(self).stage is Over,
        ensures
            (*final(self), action@) == old(self).after_owner(now, known, ok),
    {
        match self.changes.size {
            Some(size) => {
                if size > MAX_FILE_SIZE {
                    fail(Errno::EFBIG)
                } else if self.fs.max_size != 0 && size > known.size {
                    self.stage = SetattrStage::Ceiling {
                        now,
                        known,
                        size,
                        grow: size - known.size,
                        ok,
                    };
                    Action::TotalSize
                } else {
                    self.allowed(now, known, size, ok)
                }
            },
            None => {
                if ok {
                    let none: Vec<u8> = Vec::new();
                    assert(none@ =~= Seq::empty());
                    self.change(now, known, none)
                } else {
                    fail(Errno::EIO)
                }
            },
        }
    }
}

impl<'a> Operation<'a> for Setattr {
    open spec fn next(state: Setattr, event: EventView) -> (Setattr, ActionView) {
        match (state.stage, event) {
            (SetattrStage::Start, _) => if state.fs.read_only {
                state.over(Errno::EROFS)
            } else {
                (state.at(SetattrStage::Begin), Action::Begin)
            },
            (SetattrStage::Begin, Event::Begun { now }) => (
                state.at(SetattrStage::Row { now }),
                Action::FetchRow { ino: state.ino },
            ),
            (SetattrStage::Row { .. }, Event::Row(None)) => state.over(Errno::ENOENT),
            (SetattrStage::Row { now }, Event::Row(Some(row))) => {
                let known = known_of(row);
                let list = state.changes.owner_statements(state.ino, known, now);
                if list.len() == 0 {
                    state.after_owner(now, known, true)
                } else {
                    (state.at(SetattrStage::Owner { now, known }), Action::Run(list))
                }
            },
            (SetattrStage::Owner { now, known }, event) => state.after_owner(
                now,
                known,
                event is Ran,
            ),
            (SetattrStage::Ceiling { now, known, size, grow, ok }, Event::Total(used)) =>
                if state.fs.over_ceiling(used, grow as int) {
                    state.over(Errno::ENOSPC)
                } else {
                    state.after_ceiling(now, known, size, ok)
                },
            (SetattrStage::Ceiling { now, known, size, ok, .. }, _) => state.after_ceiling(
                now,
                known,
                size,
                ok,
            ),
            (SetattrStage::Block { now, known }, Event::Block(block)) => state.changing(
                now,
                known,
                block,
            ),
            (SetattrStage::Change, Event::Ran) => (state.at(SetattrStage::Commit), Action::Commit),
            (SetattrStage::Commit, Event::Committed) => (
                state.at(SetattrStage::Fetch),
                Action::FetchRow { ino: state.ino },
            ),
            (SetattrStage::Fetch, Event::Row(Some(row))) => (
                state.at(SetattrStage::Over),
                Action::Reply(Reply::Attr(coffer::attr_of(state.ino, row))),
            ),
            _ => state.over(Errno::EIO),
        }
    }

    fn step(&mut self, event: DbEvent) -> (action: FsAction<'a>) {
        let stage = self.stage;
        self.stage = SetattrStage::Over;
        match (stage, event) {
            (SetattrStage::Start, _) => {
                if self.fs.read_only {
                    fail(Errno::EROFS)
                } else {
                    self.stage = SetattrStage::Begin;
                    Action::Begin
                }
            },
            (SetattrStage::Begin, Event::Begun { now }) => {
                self.stage = SetattrStage::Row { now };
                Action::FetchRow { ino: self.ino }
            },
            (SetattrStage::Row { .. }, Event::Row(None)) => fail(Errno::ENOENT),
            (SetattrStage::Row { now }, Event::Row(Some(row))) => {
                let known = known(&row);
                let list = self.changes.owner_list(self.ino, &known, now);
                if list.len() == 0 {
                    self.owner_set(now, known, true)
                } else {
                    self.stage = SetattrStage::Owner { now, known };
                    Action::Run(list)
                }
            },
            (SetattrStage::Owner { now, known }, Event::Ran) => self.owner_set(now, known, true),
            (SetattrStage::Owner { now, known }, _) => self.owner_set(now, known, false),
            (SetattrStage::Ceiling { now, known, size, grow, ok }, Event::Total(used)) => {
                // Growing by truncation falls under the ceiling as writing does.
                if self.fs.exceeds(used, grow) {
                    fail(Errno::ENOSPC)
                } else {
                    self.allowed(now, known, size, ok)
                }
            },
            (SetattrStage::Ceiling { now, known, size, ok, .. }, _) => self.allowed(
                now,
                known,
                size,
                ok,
            ),
            (SetattrStage::Block { now, known }, Event::Block(block)) => self.change(
                now,
                known,
                block,
            ),
            (SetattrStage::Change, Event::Ran) => {
                self.stage = SetattrStage::Commit;
                Action::Commit
            },
            (SetattrStage::Commit, Event::Committed) => {
                self.stage = SetattrStage::Fetch;
                Action::FetchRow { ino: self.ino }
            },
            (SetattrStage::Fetch, Event::Row(Some(row))) => Action::Reply(
                Reply::Attr(to_attr(self.ino, &row)),
            ),
            _ => fail(Errno::EIO),
        }
    }
}

} // verus!
