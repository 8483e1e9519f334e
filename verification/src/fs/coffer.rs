//! A mounted container, and what several calls have in common.
use vstd::prelude::*;

use crate::fs::types::{
    Action, ActionView, Attr, DbEvent, DbStmt, Errno, Event, EventView, FileType, FsAction,
    InodeRow, Reply, RowView, Stamp, Stmt, StmtView, CAPABILITY_XATTR, KIND_DIR, KIND_SYMLINK,
    PERM_MASK,
};

verus! {

/// How a container is mounted.
#[derive(Clone, Copy, Debug, PartialEq, Eq, Structural)]
pub struct CofferFS {
    /// The most bytes that the files may add up to; 0 means no ceiling.
    pub max_size: u64,
    pub uid: u32,
    pub gid: u32,
    pub read_only: bool,
    /// False only for a read-only mount of a container that predates extended
    /// attributes; every call then answers as if the file had none.
    pub has_xattrs: bool,
}

impl CofferFS {
    pub open spec fn mounted(
        max_size: u64,
        uid: u32,
        gid: u32,
        read_only: bool,
        has_xattrs: bool,
    ) -> CofferFS {
        CofferFS { max_size, uid, gid, read_only, has_xattrs }
    }

    pub fn new(max_size: u64, uid: u32, gid: u32, read_only: bool, has_xattrs: bool) -> (fs: Self)
        ensures
            fs.max_size == max_size,
            fs.uid == uid,
            fs.gid == gid,
            fs.read_only == read_only,
            fs.has_xattrs == has_xattrs,
            fs == CofferFS::mounted(max_size, uid, gid, read_only, has_xattrs),
    {
        CofferFS { max_size, uid, gid, read_only, has_xattrs }
    }

    /// Whether `grow` more bytes beside `used` would pass the ceiling.
    pub open spec fn over_ceiling(self, used: u64, grow: int) -> bool {
        self.max_size != 0 && used + grow > self.max_size
    }

    pub fn exceeds(&self, used: u64, grow: u64) -> (r: bool)
        ensures
            r == self.over_ceiling(used, grow as int),
    {
        self.max_size != 0 && (used > self.max_size || grow > self.max_size - used)
    }
}

/// The length of a text in bytes.
pub open spec fn byte_len(text: Seq<char>) -> usize {
    vstd::utf8::encode_utf8(text).len() as usize
}

/// A reply that names an error.
pub open spec fn failure(errno: Errno) -> ActionView {
    Action::Reply(Reply::Error(errno))
}

pub(crate) fn fail<'a>(errno: Errno) -> (action: FsAction<'a>)
    ensures
        action@ == failure(errno),
{
    Action::Reply(Reply::Error(errno))
}

/// The error for a failed write: a full disk is told apart, since tools look
/// for it.
pub open spec fn errno_for_event(event: EventView) -> Errno {
    if event is DiskFull {
        Errno::ENOSPC
    } else {
        Errno::EIO
    }
}

pub fn errno_for(event: &DbEvent) -> (errno: Errno)
    ensures
        errno == errno_for_event(event@),
{
    match event {
        Event::DiskFull => Errno::ENOSPC,
        _ => Errno::EIO,
    }
}

pub open spec fn type_of_kind(kind: i64) -> FileType {
    if kind == KIND_DIR {
        FileType::Directory
    } else if kind == KIND_SYMLINK {
        FileType::Symlink
    } else {
        FileType::RegularFile
    }
}

pub fn file_type_of(kind: i64) -> (t: FileType)
    ensures
        t == type_of_kind(kind),
{
    if kind == KIND_DIR {
        FileType::Directory
    } else if kind == KIND_SYMLINK {
        FileType::Symlink
    } else {
        FileType::RegularFile
    }
}

/// The attributes of the inode `ino` with the row `row`. A file takes up its
/// size in units of 512 bytes, rounded up.
pub open spec fn attr_of(ino: u64, row: RowView) -> Attr {
    Attr {
        ino,
        size: row.size,
        blocks: ((row.size + 511) / 512) as u64,
        atime: row.atime,
        mtime: row.mtime,
        ctime: row.ctime,
        crtime: row.ctime,
        kind: type_of_kind(row.kind),
        perm: (row.mode & PERM_MASK) as u16,
        nlink: if row.kind == KIND_DIR { 2 } else { 1 },
        uid: row.uid,
        gid: row.gid,
        rdev: 0,
        blksize: 4096,
        flags: 0,
    }
}

pub fn to_attr(ino: u64, row: &InodeRow) -> (attr: Attr)
    ensures
        attr == attr_of(ino, row@),
{
    let whole: u64 = row.size / 512;
    let blocks: u64 = if row.size % 512 == 0 { whole } else { whole + 1 };
    Attr {
        ino,
        size: row.size,
        blocks,
        atime: row.atime,
        mtime: row.mtime,
        ctime: row.ctime,
        crtime: row.ctime,
        kind: file_type_of(row.kind),
        perm: (row.mode & PERM_MASK) as u16,
        nlink: if row.kind == KIND_DIR { 2 } else { 1 },
        uid: row.uid,
        gid: row.gid,
        rdev: 0,
        blksize: 4096,
        flags: 0,
    }
}

/// The statements that add an entry to a directory.
pub open spec fn child_insertion(
    parent: u64,
    name: Seq<char>,
    kind: i64,
    mode: i64,
    fs: CofferFS,
    symlink_target: Option<Seq<char>>,
    now: Stamp,
) -> Seq<StmtView> {
    seq![
        Stmt::InsertInode {
            parent,
            name,
            kind,
            mode,
            uid: fs.uid,
            gid: fs.gid,
            size: match symlink_target {
                Some(t) => byte_len(t) as u64,
                None => 0,
            },
            now,
            symlink_target,
        },
        Stmt::Touch { ino: parent, now },
    ]
}

pub fn insert_child<'a>(
    parent: u64,
    name: &'a str,
    kind: i64,
    mode: i64,
    fs: &CofferFS,
    symlink_target: Option<&'a str>,
    now: Stamp,
) -> (list: Vec<DbStmt<'a>>)
    ensures
        crate::fs::types::stmts_view(list@) == child_insertion(
            parent,
            name@,
            kind,
            mode,
            *fs,
            match symlink_target {
                Some(t) => Some(t@),
                None => None,
            },
            now,
        ),
{
    let size: u64 = match symlink_target {
        Some(t) => t.len() as u64,
        None => 0,
    };
    let mut list: Vec<DbStmt<'a>> = Vec::new();
    list.push(
        Stmt::InsertInode {
            parent,
            name,
            kind,
            mode,
            uid: fs.uid,
            gid: fs.gid,
            size,
            now,
            symlink_target,
        },
    );
    list.push(Stmt::Touch { ino: parent, now });
    list
}

/// Everything an inode owns, gone: its blocks, its extended attributes and
/// the inode itself.
pub open spec fn inode_deletion(ino: u64) -> Seq<StmtView> {
    seq![Stmt::DeleteBlocks { ino }, Stmt::DeleteXattrs { ino }, Stmt::DeleteInode { ino }]
}

pub fn delete_inode<'a>(ino: u64) -> (list: Vec<DbStmt<'a>>)
    ensures
        crate::fs::types::stmts_view(list@) == inode_deletion(ino),
{
    let mut list: Vec<DbStmt<'a>> = Vec::new();
    list.push(Stmt::DeleteBlocks { ino });
    list.push(Stmt::DeleteXattrs { ino });
    list.push(Stmt::DeleteInode { ino });
    list
}

/// What a change of its content or owner takes from a file: the setuid bit,
/// the setgid bit where the group may execute the file (without that it marks
/// mandatory locking, no privilege) and the file capabilities.
pub open spec fn privilege_drop(ino: u64) -> Seq<StmtView> {
    seq![
        Stmt::ClearSetuid { ino },
        Stmt::ClearSetgid { ino },
        Stmt::DeleteXattr { ino, name: CAPABILITY_XATTR@ },
    ]
}

pub fn kill_priv<'a>(ino: u64) -> (list: Vec<DbStmt<'a>>)
    ensures
        crate::fs::types::stmts_view(list@) == privilege_drop(ino),
{
    let mut list: Vec<DbStmt<'a>> = Vec::new();
    list.push(Stmt::ClearSetuid { ino });
    list.push(Stmt::ClearSetgid { ino });
    list.push(Stmt::DeleteXattr { ino, name: CAPABILITY_XATTR });
    list
}

/// A container is mounted as it was asked for.
pub proof fn mounted_as_asked(
    max_size: u64,
    uid: u32,
    gid: u32,
    read_only: bool,
    has_xattrs: bool,
)
    ensures
        ({
            let fs = CofferFS::mounted(max_size, uid, gid, read_only, has_xattrs);
            &&& fs.max_size == max_size
            &&& fs.uid == uid
            &&& fs.gid == gid
            &&& fs.read_only <==> read_only
            &&& fs.has_xattrs <==> has_xattrs
        }),
{
}

} // verus!
