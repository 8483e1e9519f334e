//! What the filesystem, the database and the kernel say to one another.
//!
//! The requests to the database ([`Action`], [`Stmt`]), its answers
//! ([`Event`]) and the answers to the kernel ([`Reply`]) are generic over the
//! way they hold names, bytes and lists, so that one definition serves the
//! running program (`&str`, `Vec`) and its model (`Seq`).
use vstd::prelude::*;

verus! {

/// File content is stored in blocks of this many bytes.
pub const BLOCK_SIZE: u64 = 131072;

/// The inode of the root directory.
pub const ROOT_INO: u64 = 1;

pub const KIND_DIR: i64 = 0;

pub const KIND_FILE: i64 = 1;

pub const KIND_SYMLINK: i64 = 2;

/// The largest length a file may have: the size column is a signed 64-bit
/// integer.
pub const MAX_FILE_SIZE: u64 = 0x7fff_ffff_ffff_ffff;

/// Linux's own limit for the length of an extended attribute's name, in bytes.
pub const XATTR_NAME_MAX: usize = 255;

/// Linux's own limit for the length of an extended attribute's value.
pub const XATTR_SIZE_MAX: usize = 65536;

/// File type bits of a mode.
pub const S_IFDIR: i64 = 0o040000;

pub const S_IFREG: i64 = 0o100000;

pub const S_IFLNK: i64 = 0o120000;

/// The permission bits of a mode, setuid, setgid and sticky among them.
pub const PERM_MASK: i64 = 0o7777;

pub const S_ISUID: i64 = 0o4000;

pub const S_ISGID: i64 = 0o2000;

pub const S_IXGRP: i64 = 0o010;

/// `setxattr(2)`: fail if the attribute exists.
pub const XATTR_CREATE: i32 = 1;

/// `setxattr(2)`: fail if the attribute does not exist.
pub const XATTR_REPLACE: i32 = 2;

/// `open(2)`: the bits that hold the access mode.
pub const O_ACCMODE: i32 = 3;

/// `open(2)`: the access mode of a reader.
pub const O_RDONLY: i32 = 0;

/// The attribute that holds a file's capabilities.
pub const CAPABILITY_XATTR: &'static str = "security.capability";

/// The error numbers that a call can be answered with.
#[derive(Clone, Copy, Debug, PartialEq, Eq, Structural)]
pub enum Errno {
    E2BIG,
    EBUSY,
    EEXIST,
    EFBIG,
    EINVAL,
    EIO,
    ENODATA,
    ENOENT,
    ENOSPC,
    ENOTEMPTY,
    ENOTSUP,
    ERANGE,
    EROFS,
}

/// A point in time, held as the bit pattern of the floating-point number of
/// seconds that the database stores.
#[derive(Clone, Copy, Debug, PartialEq, Eq, Structural)]
pub struct Stamp(pub u64);

/// A file time as `utimensat(2)` sets it.
#[derive(Clone, Copy, Debug, PartialEq, Eq, Structural)]
pub enum TimeChange {
    /// The time of the call.
    Now,
    /// The time given.
    At(Stamp),
}

#[derive(Clone, Copy, Debug, PartialEq, Eq, Structural)]
pub enum FileType {
    Directory,
    RegularFile,
    Symlink,
}

/// One row of the inode table, without its place in the tree.
#[derive(Debug)]
pub struct Row<S> {
    pub kind: i64,
    pub mode: i64,
    pub uid: u32,
    pub gid: u32,
    pub size: u64,
    pub atime: Stamp,
    pub mtime: Stamp,
    pub ctime: Stamp,
    pub symlink_target: Option<S>,
}

pub type InodeRow = Row<String>;

/// The attributes of a file as the kernel sees them.
#[derive(Clone, Copy, Debug, PartialEq, Eq, Structural)]
pub struct Attr {
    pub ino: u64,
    pub size: u64,
    pub blocks: u64,
    pub atime: Stamp,
    pub mtime: Stamp,
    pub ctime: Stamp,
    pub crtime: Stamp,
    pub kind: FileType,
    pub perm: u16,
    pub nlink: u32,
    pub uid: u32,
    pub gid: u32,
    pub rdev: u32,
    pub blksize: u32,
    pub flags: u32,
}

/// The numbers that `statfs(2)` reports.
#[derive(Clone, Copy, Debug, PartialEq, Eq, Structural)]
pub struct Statfs {
    pub blocks: u64,
    pub bfree: u64,
    pub bavail: u64,
    pub files: u64,
    pub ffree: u64,
    pub bsize: u32,
    pub namelen: u32,
    pub frsize: u32,
}

/// The block counts of the filesystem that holds the container file.
#[derive(Clone, Copy, Debug, PartialEq, Eq, Structural)]
pub struct HostSpace {
    pub blocks: u64,
    pub bfree: u64,
    pub bavail: u64,
}

/// One entry of a directory listing; reading goes on at `next_offset`.
#[derive(Debug)]
pub struct DirEntry<S> {
    pub ino: u64,
    pub next_offset: u64,
    pub kind: FileType,
    pub name: S,
}

/// A child of a directory as the inode table holds it.
#[derive(Debug)]
pub struct Child<S> {
    pub ino: u64,
    pub name: S,
    pub kind: i64,
}

/// A change to the tables.
#[derive(Debug)]
pub enum Stmt<N, B> {
    /// A new inode under the next free number, all its times at `now`.
    InsertInode {
        parent: u64,
        name: N,
        kind: i64,
        mode: i64,
        uid: u32,
        gid: u32,
        size: u64,
        now: Stamp,
        symlink_target: Option<N>,
    },
    /// Gives an inode another place in the tree.
    MoveInode { ino: u64, parent: u64, name: N },
    /// Removes the row of an inode and, by the table's trigger, its attributes.
    DeleteInode { ino: u64 },
    SetMode { ino: u64, mode: i64, ctime: Stamp },
    SetOwner { ino: u64, uid: u32, gid: u32, ctime: Stamp },
    /// A new length; the content changed at `now`.
    SetSize { ino: u64, size: u64, now: Stamp },
    SetTimes { ino: u64, atime: Stamp, mtime: Stamp },
    /// What is in the inode changed at `now`.
    Touch { ino: u64, now: Stamp },
    /// The same for two inodes at once.
    TouchBoth { first: u64, second: u64, now: Stamp },
    SetCtime { ino: u64, ctime: Stamp },
    /// Clears the setuid bit.
    ClearSetuid { ino: u64 },
    /// Clears the setgid bit where the group may execute the file.
    ClearSetgid { ino: u64 },
    PutBlock { ino: u64, block_no: i64, content: B },
    DeleteBlock { ino: u64, block_no: i64 },
    DeleteBlocksAfter { ino: u64, block_no: i64 },
    DeleteBlocks { ino: u64 },
    PutXattr { ino: u64, name: N, value: B },
    DeleteXattr { ino: u64, name: N },
    DeleteXattrs { ino: u64 },
}

/// The end of a call.
#[derive(Debug)]
pub enum Reply<B, D> {
    Error(Errno),
    Done,
    Attr(Attr),
    Entry(Attr),
    Created { attr: Attr, handle: u64 },
    Opened { handle: u64 },
    Data(B),
    Written(u32),
    Dir(D),
    Statfs(Statfs),
    /// How long the answer would be, for a caller that passed no buffer.
    XattrSize(u32),
}

/// What a call wants next.
#[derive(Debug)]
pub enum Action<N, L, R> {
    /// Opens a transaction, and reads the clock.
    Begin,
    Commit,
    FindChild { parent: u64, name: N },
    FetchRow { ino: u64 },
    FetchKind { ino: u64 },
    FetchParent { ino: u64 },
    HasChildren { ino: u64 },
    ListChildren { ino: u64 },
    /// The lengths of all inodes, added up.
    TotalSize,
    FetchBlock { ino: u64, block_no: i64 },
    HasXattr { ino: u64, name: N },
    FetchXattr { ino: u64, name: N },
    ListXattrs { ino: u64 },
    /// The space on the filesystem that holds the container file.
    HostSpace,
    /// Takes an extended attribute away, and tells whether it was there.
    RemoveXattr { ino: u64, name: N },
    /// Runs the statements in order, up to the first that fails.
    Run(L),
    /// The same, and tells the number of the inode that was inserted.
    Insert(L),
    /// Ends the call; what was not committed is rolled back.
    Reply(R),
}

/// What came back.
#[derive(Debug)]
pub enum Event<S, B, C, X> {
    /// Nothing yet: the call has just arrived.
    Start,
    Failed,
    /// Failed because the disk that holds the container file is full.
    DiskFull,
    Begun { now: Stamp },
    Committed,
    Ino(Option<u64>),
    Row(Option<Row<S>>),
    Kind(i64),
    Flag(bool),
    Children(C),
    Total(u64),
    /// The content of a block; nothing where there is no such block.
    Block(B),
    Value(Option<B>),
    Names(X),
    Space(Option<HostSpace>),
    /// All statements ran.
    Ran,
    /// All statements ran, and this is the new inode.
    Inserted(u64),
}

pub type DbStmt<'a> = Stmt<&'a str, Vec<u8>>;

pub type FsReply = Reply<Vec<u8>, Vec<DirEntry<String>>>;

pub type FsAction<'a> = Action<&'a str, Vec<DbStmt<'a>>, FsReply>;

pub type DbEvent = Event<String, Vec<u8>, Vec<Child<String>>, Vec<String>>;

/// The models of the above.
pub type RowView = Row<Seq<char>>;

pub type StmtView = Stmt<Seq<char>, Seq<u8>>;

pub type ReplyView = Reply<Seq<u8>, Seq<DirEntry<Seq<char>>>>;

pub type ActionView = Action<Seq<char>, Seq<StmtView>, ReplyView>;

pub type EventView = Event<Seq<char>, Seq<u8>, Seq<Child<Seq<char>>>, Seq<Seq<char>>>;

impl View for Row<String> {
    type V = RowView;

    open spec fn view(&self) -> RowView {
        Row {
            kind: self.kind,
            mode: self.mode,
            uid: self.uid,
            gid: self.gid,
            size: self.size,
            atime: self.atime,
            mtime: self.mtime,
            ctime: self.ctime,
            symlink_target: match self.symlink_target {
                Some(t) => Some(t@),
                None => None,
            },
        }
    }
}

impl View for DirEntry<String> {
    type V = DirEntry<Seq<char>>;

    open spec fn view(&self) -> DirEntry<Seq<char>> {
        DirEntry {
            ino: self.ino,
            next_offset: self.next_offset,
            kind: self.kind,
            name: self.name@,
        }
    }
}

impl View for Child<String> {
    type V = Child<Seq<char>>;

    open spec fn view(&self) -> Child<Seq<char>> {
        Child { ino: self.ino, name: self.name@, kind: self.kind }
    }
}

impl<'a> View for Stmt<&'a str, Vec<u8>> {
    type V = StmtView;

    open spec fn view(&self) -> StmtView {
        match *self {
            Stmt::InsertInode { parent, name, kind, mode, uid, gid, size, now, symlink_target } =>
                Stmt::InsertInode {
                    parent,
                    name: name@,
                    kind,
                    mode,
                    uid,
                    gid,
                    size,
                    now,
                    symlink_target: match symlink_target {
                        Some(t) => Some(t@),
                        None => None,
                    },
                },
            Stmt::MoveInode { ino, parent, name } => Stmt::MoveInode { ino, parent, name: name@ },
            Stmt::DeleteInode { ino } => Stmt::DeleteInode { ino },
            Stmt::SetMode { ino, mode, ctime } => Stmt::SetMode { ino, mode, ctime },
            Stmt::SetOwner { ino, uid, gid, ctime } => Stmt::SetOwner { ino, uid, gid, ctime },
            Stmt::SetSize { ino, size, now } => Stmt::SetSize { ino, size, now },
            Stmt::SetTimes { ino, atime, mtime } => Stmt::SetTimes { ino, atime, mtime },
            Stmt::Touch { ino, now } => Stmt::Touch { ino, now },
            Stmt::TouchBoth { first, second, now } => Stmt::TouchBoth { first, second, now },
            Stmt::SetCtime { ino, ctime } => Stmt::SetCtime { ino, ctime },
            Stmt::ClearSetuid { ino } => Stmt::ClearSetuid { ino },
            Stmt::ClearSetgid { ino } => Stmt::ClearSetgid { ino },
            Stmt::PutBlock { ino, block_no, content } =>
                Stmt::PutBlock { ino, block_no, content: content@ },
            Stmt::DeleteBlock { ino, block_no } => Stmt::DeleteBlock { ino, block_no },
            Stmt::DeleteBlocksAfter { ino, block_no } => Stmt::DeleteBlocksAfter { ino, block_no },
            Stmt::DeleteBlocks { ino } => Stmt::DeleteBlocks { ino },
            Stmt::PutXattr { ino, name, value } =>
                Stmt::PutXattr { ino, name: name@, value: value@ },
            Stmt::DeleteXattr { ino, name } => Stmt::DeleteXattr { ino, name: name@ },
            Stmt::DeleteXattrs { ino } => Stmt::DeleteXattrs { ino },
        }
    }
}

/// The model of a list of statements.
pub open spec fn stmts_view<'a>(list: Seq<DbStmt<'a>>) -> Seq<StmtView> {
    Seq::new(list.len(), |i: int| list[i]@)
}

/// The model of a list of directory entries.
pub open spec fn entries_view(list: Seq<DirEntry<String>>) -> Seq<DirEntry<Seq<char>>> {
    Seq::new(list.len(), |i: int| list[i]@)
}

impl View for Reply<Vec<u8>, Vec<DirEntry<String>>> {
    type V = ReplyView;

    open spec fn view(&self) -> ReplyView {
        match *self {
            Reply::Error(e) => Reply::Error(e),
            Reply::Done => Reply::Done,
            Reply::Attr(a) => Reply::Attr(a),
            Reply::Entry(a) => Reply::Entry(a),
            Reply::Created { attr, handle } => Reply::Created { attr, handle },
            Reply::Opened { handle } => Reply::Opened { handle },
            Reply::Data(d) => Reply::Data(d@),
            Reply::Written(n) => Reply::Written(n),
            Reply::Dir(d) => Reply::Dir(entries_view(d@)),
            Reply::Statfs(s) => Reply::Statfs(s),
            Reply::XattrSize(n) => Reply::XattrSize(n),
        }
    }
}

impl<'a> View for Action<&'a str, Vec<Stmt<&'a str, Vec<u8>>>, Reply<Vec<u8>, Vec<DirEntry<String>>>> {
    type V = ActionView;

    open spec fn view(&self) -> ActionView {
        match *self {
            Action::Begin => Action::Begin,
            Action::Commit => Action::Commit,
            Action::FindChild { parent, name } => Action::FindChild { parent, name: name@ },
            Action::FetchRow { ino } => Action::FetchRow { ino },
            Action::FetchKind { ino } => Action::FetchKind { ino },
            Action::FetchParent { ino } => Action::FetchParent { ino },
            Action::HasChildren { ino } => Action::HasChildren { ino },
            Action::ListChildren { ino } => Action::ListChildren { ino },
            Action::TotalSize => Action::TotalSize,
            Action::FetchBlock { ino, block_no } => Action::FetchBlock { ino, block_no },
            Action::HasXattr { ino, name } => Action::HasXattr { ino, name: name@ },
            Action::FetchXattr { ino, name } => Action::FetchXattr { ino, name: name@ },
            Action::ListXattrs { ino } => Action::ListXattrs { ino },
            Action::HostSpace => Action::HostSpace,
            Action::RemoveXattr { ino, name } => Action::RemoveXattr { ino, name: name@ },
            Action::Run(l) => Action::Run(stmts_view(l@)),
            Action::Insert(l) => Action::Insert(stmts_view(l@)),
            Action::Reply(r) => Action::Reply(r@),
        }
    }
}

impl View for Event<String, Vec<u8>, Vec<Child<String>>, Vec<String>> {
    type V = EventView;

    open spec fn view(&self) -> EventView {
        match *self {
            Event::Start => Event::Start,
            Event::Failed => Event::Failed,
            Event::DiskFull => Event::DiskFull,
            Event::Begun { now } => Event::Begun { now },
            Event::Committed => Event::Committed,
            Event::Ino(i) => Event::Ino(i),
            Event::Row(Some(r)) => Event::Row(Some(r@)),
            Event::Row(None) => Event::Row(None),
            Event::Kind(k) => Event::Kind(k),
            Event::Flag(b) => Event::Flag(b),
            Event::Children(c) => Event::Children(Seq::new(c@.len(), |i: int| c@[i]@)),
            Event::Total(n) => Event::Total(n),
            Event::Block(b) => Event::Block(b@),
            Event::Value(Some(v)) => Event::Value(Some(v@)),
            Event::Value(None) => Event::Value(None),
            Event::Names(x) => Event::Names(Seq::new(x@.len(), |i: int| x@[i]@)),
            Event::Space(s) => Event::Space(s),
            Event::Ran => Event::Ran,
            Event::Inserted(i) => Event::Inserted(i),
        }
    }
}

} // verus!
