//! The model of a container's database: what the tables hold, what a
//! statement does to them and what a query answers.
use vstd::prelude::*;

use crate::fs::types::{
    Action, ActionView, Child, Event, EventView, HostSpace, Row, RowView, Stamp, Stmt, StmtView,
    MAX_FILE_SIZE, S_ISGID, S_ISUID, S_IXGRP,
};

verus! {

/// An inode with its place in the tree.
#[verifier::ext_equal]
pub struct Inode {
    pub parent: u64,
    pub name: Seq<char>,
    pub row: RowView,
}

/// The tables of a container. `last_ino` is the largest inode number that was
/// ever given out; numbers are not used again.
#[verifier::ext_equal]
pub struct Tables {
    pub inodes: Map<u64, Inode>,
    pub data: Map<(u64, i64), Seq<u8>>,
    pub xattrs: Map<(u64, Seq<char>), Seq<u8>>,
    pub last_ino: u64,
}

/// A database in the middle of a call: what is committed, what the open
/// transaction has made of it, and what the world around it says.
pub struct World {
    pub committed: Tables,
    pub working: Tables,
    pub clock: Stamp,
    pub host: Option<HostSpace>,
}

impl Tables {
    /// Whether `ino` is the entry `name` of the directory `parent`.
    pub open spec fn at(self, ino: u64, parent: u64, name: Seq<char>) -> bool {
        &&& self.inodes.contains_key(ino)
        &&& self.inodes[ino].parent == parent
        &&& self.inodes[ino].name == name
    }

    /// The entry `name` of the directory `parent`.
    pub open spec fn child(self, parent: u64, name: Seq<char>) -> Option<u64> {
        if exists|ino: u64| self.at(ino, parent, name) {
            Some(choose|ino: u64| self.at(ino, parent, name))
        } else {
            None
        }
    }

    pub open spec fn is_child(self, ino: u64, parent: u64) -> bool {
        self.inodes.contains_key(ino) && self.inodes[ino].parent == parent
    }

    pub open spec fn has_children(self, parent: u64) -> bool {
        exists|ino: u64| self.is_child(ino, parent)
    }

    pub open spec fn row(self, ino: u64) -> Option<RowView> {
        if self.inodes.contains_key(ino) {
            Some(self.inodes[ino].row)
        } else {
            None
        }
    }

    /// The tables with another row for `ino`, where there is one.
    pub open spec fn with_row(self, ino: u64, row: RowView) -> Tables {
        if self.inodes.contains_key(ino) {
            Tables {
                inodes: self.inodes.insert(ino, Inode { row, ..self.inodes[ino] }),
                ..self
            }
        } else {
            self
        }
    }

    pub open spec fn touched(self, ino: u64, now: Stamp) -> Tables {
        self.with_row(ino, Row { mtime: now, ctime: now, ..self.inodes[ino].row })
    }

    pub open spec fn block(self, ino: u64, block_no: i64) -> Seq<u8> {
        if self.data.contains_key((ino, block_no)) {
            self.data[(ino, block_no)]
        } else {
            Seq::empty()
        }
    }

    pub open spec fn xattr(self, ino: u64, name: Seq<char>) -> Option<Seq<u8>> {
        if self.xattrs.contains_key((ino, name)) {
            Some(self.xattrs[(ino, name)])
        } else {
            None
        }
    }

    /// The lengths of all inodes, added up.
    pub open spec fn total(self) -> int {
        sum_sizes(self.inodes)
    }

    /// What a statement makes of the tables; `None` where a constraint of the
    /// schema refuses it.
    pub open spec fn apply(self, stmt: StmtView) -> Option<Tables> {
        match stmt {
            Stmt::InsertInode { parent, name, kind, mode, uid, gid, size, now, symlink_target } =>
                if self.child(parent, name) is Some || self.last_ino >= MAX_FILE_SIZE {
                    None
                } else {
                    let ino = (self.last_ino + 1) as u64;
                    let row = Row {
                        kind,
                        mode,
                        uid,
                        gid,
                        size,
                        atime: now,
                        mtime: now,
                        ctime: now,
                        symlink_target,
                    };
                    Some(
                        Tables {
                            inodes: self.inodes.insert(ino, Inode { parent, name, row }),
                            last_ino: ino,
                            ..self
                        },
                    )
                },
            Stmt::MoveInode { ino, parent, name } => if exists|other: u64|
                other != ino && self.at(other, parent, name) {
                None
            } else if self.inodes.contains_key(ino) {
                Some(
                    Tables {
                        inodes: self.inodes.insert(
                            ino,
                            Inode { parent, name, row: self.inodes[ino].row },
                        ),
                        ..self
                    },
                )
            } else {
                Some(self)
            },
            Stmt::DeleteInode { ino } => Some(
                Tables {
                    inodes: self.inodes.remove(ino),
                    xattrs: without_xattrs(self.xattrs, ino),
                    ..self
                },
            ),
            Stmt::SetMode { ino, mode, ctime } => Some(
                self.with_row(ino, Row { mode, ctime, ..self.inodes[ino].row }),
            ),
            Stmt::SetOwner { ino, uid, gid, ctime } => Some(
                self.with_row(ino, Row { uid, gid, ctime, ..self.inodes[ino].row }),
            ),
            Stmt::SetSize { ino, size, now } => Some(
                self.with_row(ino, Row { size, mtime: now, ctime: now, ..self.inodes[ino].row }),
            ),
            Stmt::SetTimes { ino, atime, mtime } => Some(
                self.with_row(ino, Row { atime, mtime, ..self.inodes[ino].row }),
            ),
            Stmt::Touch { ino, now } => Some(self.touched(ino, now)),
            Stmt::TouchBoth { first, second, now } => Some(
                self.touched(first, now).touched(second, now),
            ),
            Stmt::SetCtime { ino, ctime } => Some(
                self.with_row(ino, Row { ctime, ..self.inodes[ino].row }),
            ),
            Stmt::ClearSetuid { ino } => Some(
                self.with_row(
                    ino,
                    Row {
                        mode: without_setuid(self.inodes[ino].row.mode),
                        ..self.inodes[ino].row
                    },
                ),
            ),
            Stmt::ClearSetgid { ino } => Some(
                self.with_row(
                    ino,
                    Row {
                        mode: without_setgid(self.inodes[ino].row.mode),
                        ..self.inodes[ino].row
                    },
                ),
            ),
            Stmt::PutBlock { ino, block_no, content } => Some(
                Tables { data: self.data.insert((ino, block_no), content), ..self },
            ),
            Stmt::DeleteBlock { ino, block_no } => Some(
                Tables { data: self.data.remove((ino, block_no)), ..self },
            ),
            Stmt::DeleteBlocksAfter { ino, block_no } => Some(
                Tables { data: without_blocks_after(self.data, ino, block_no as int), ..self },
            ),
            Stmt::DeleteBlocks { ino } => Some(
                Tables { data: without_blocks(self.data, ino), ..self },
            ),
            Stmt::PutXattr { ino, name, value } => Some(
                Tables { xattrs: self.xattrs.insert((ino, name), value), ..self },
            ),
            Stmt::DeleteXattr { ino, name } => Some(
                Tables { xattrs: self.xattrs.remove((ino, name)), ..self },
            ),
            Stmt::DeleteXattrs { ino } => Some(
                Tables { xattrs: without_xattrs(self.xattrs, ino), ..self },
            ),
        }
    }

    /// What a list of statements makes of the tables.
    pub open spec fn apply_all(self, list: Seq<StmtView>) -> Option<Tables>
        decreases list.len(),
    {
        if list.len() == 0 {
            Some(self)
        } else {
            match self.apply_all(list.drop_last()) {
                Some(t) => t.apply(list.last()),
                None => None,
            }
        }
    }
}

/// The mode without the setuid bit.
pub open spec fn without_setuid(mode: i64) -> i64 {
    mode & !S_ISUID
}

/// The mode without the setgid bit, where the group may execute the file.
pub open spec fn without_setgid(mode: i64) -> i64 {
    if mode & S_IXGRP != 0 {
        mode & !S_ISGID
    } else {
        mode
    }
}

pub open spec fn without_xattrs(
    xattrs: Map<(u64, Seq<char>), Seq<u8>>,
    ino: u64,
) -> Map<(u64, Seq<char>), Seq<u8>> {
    Map::new(
        |k: (u64, Seq<char>)| xattrs.contains_key(k) && k.0 != ino,
        |k: (u64, Seq<char>)| xattrs[k],
    )
}

pub open spec fn without_blocks(
    data: Map<(u64, i64), Seq<u8>>,
    ino: u64,
) -> Map<(u64, i64), Seq<u8>> {
    Map::new(|k: (u64, i64)| data.contains_key(k) && k.0 != ino, |k: (u64, i64)| data[k])
}

pub open spec fn without_blocks_after(
    data: Map<(u64, i64), Seq<u8>>,
    ino: u64,
    last: int,
) -> Map<(u64, i64), Seq<u8>> {
    Map::new(
        |k: (u64, i64)| data.contains_key(k) && !(k.0 == ino && k.1 > last),
        |k: (u64, i64)| data[k],
    )
}

/// The sizes in a table of inodes, added up.
pub open spec fn sum_sizes(inodes: Map<u64, Inode>) -> int
    decreases inodes.dom().len(),
    when inodes.dom().finite()
{
    if inodes.dom().len() == 0 {
        0
    } else {
        let ino = inodes.dom().choose();
        inodes[ino].row.size + sum_sizes(inodes.remove(ino))
    }
}

/// Whether a list holds the children of a directory, in the order of their
/// inode numbers.
pub open spec fn lists_children(t: Tables, parent: u64, list: Seq<Child<Seq<char>>>) -> bool {
    &&& forall|i: int, j: int| 0 <= i < j < list.len() ==> list[i].ino < list[j].ino
    &&& forall|i: int|
        0 <= i < list.len() ==> {
            &&& #[trigger] t.is_child(list[i].ino, parent)
            &&& list[i].name == t.inodes[list[i].ino].name
            &&& list[i].kind == t.inodes[list[i].ino].row.kind
        }
    &&& forall|ino: u64|
        t.is_child(ino, parent) ==> exists|i: int| 0 <= i < list.len() && #[trigger] list[i].ino == ino
}

/// The children of a directory, in the order of their inode numbers.
pub open spec fn children_of(t: Tables, parent: u64) -> Seq<Child<Seq<char>>> {
    choose|list: Seq<Child<Seq<char>>>| lists_children(t, parent, list)
}

/// Whether some bytes stand before others: by the first byte in which they
/// differ, or as a shorter beginning of them.
pub open spec fn bytes_before(a: Seq<u8>, b: Seq<u8>) -> bool
    decreases a.len(),
{
    if b.len() == 0 {
        false
    } else if a.len() == 0 {
        true
    } else if a[0] != b[0] {
        a[0] < b[0]
    } else {
        bytes_before(a.skip(1), b.skip(1))
    }
}

/// The order of names: that of the bytes that encode them.
pub open spec fn name_before(a: Seq<char>, b: Seq<char>) -> bool {
    bytes_before(vstd::utf8::encode_utf8(a), vstd::utf8::encode_utf8(b))
}

/// Whether a list holds the names of the attributes of an inode, each once and
/// in order.
pub open spec fn lists_xattrs(t: Tables, ino: u64, list: Seq<Seq<char>>) -> bool {
    &&& forall|i: int, j: int|
        0 <= i < j < list.len() ==> name_before(#[trigger] list[i], #[trigger] list[j])
    &&& forall|name: Seq<char>| #[trigger] t.xattrs.contains_key((ino, name)) <==> list.contains(name)
}

/// The names of the attributes of an inode, in order.
pub open spec fn xattr_names(t: Tables, ino: u64) -> Seq<Seq<char>> {
    choose|list: Seq<Seq<char>>| lists_xattrs(t, ino, list)
}

impl World {
    /// A database between two calls.
    pub open spec fn at_rest(t: Tables, clock: Stamp, host: Option<HostSpace>) -> World {
        World { committed: t, working: t, clock, host }
    }

    /// What the database does when it is asked for `action`, and what it
    /// answers, as long as nothing goes wrong.
    pub open spec fn perform(self, action: ActionView) -> (World, EventView) {
        let t = self.working;
        match action {
            Action::Begin => (
                World { working: self.committed, ..self },
                Event::Begun { now: self.clock },
            ),
            Action::Commit => (World { committed: t, ..self }, Event::Committed),
            Action::FindChild { parent, name } => (self, Event::Ino(t.child(parent, name))),
            Action::FetchRow { ino } => (self, Event::Row(t.row(ino))),
            Action::FetchKind { ino } => (
                self,
                if t.inodes.contains_key(ino) {
                    Event::Kind(t.inodes[ino].row.kind)
                } else {
                    Event::Failed
                },
            ),
            Action::FetchParent { ino } => (
                self,
                if t.inodes.contains_key(ino) {
                    Event::Ino(Some(t.inodes[ino].parent))
                } else {
                    Event::Failed
                },
            ),
            Action::HasChildren { ino } => (self, Event::Flag(t.has_children(ino))),
            Action::ListChildren { ino } => (self, Event::Children(children_of(t, ino))),
            Action::TotalSize => (
                self,
                if 0 <= t.total() <= MAX_FILE_SIZE {
                    Event::Total(t.total() as u64)
                } else {
                    Event::Failed
                },
            ),
            Action::FetchBlock { ino, block_no } => (self, Event::Block(t.block(ino, block_no))),
            Action::HasXattr { ino, name } => (
                self,
                Event::Flag(t.xattrs.contains_key((ino, name))),
            ),
            Action::FetchXattr { ino, name } => (self, Event::Value(t.xattr(ino, name))),
            Action::ListXattrs { ino } => (self, Event::Names(xattr_names(t, ino))),
            Action::HostSpace => (self, Event::Space(self.host)),
            Action::RemoveXattr { ino, name } => (
                World {
                    working: Tables { xattrs: t.xattrs.remove((ino, name)), ..t },
                    ..self
                },
                Event::Flag(t.xattrs.contains_key((ino, name))),
            ),
            Action::Run(list) => match t.apply_all(list) {
                Some(t2) => (World { working: t2, ..self }, Event::Ran),
                None => (self, Event::Failed),
            },
            Action::Insert(list) => match t.apply_all(list) {
                Some(t2) => (World { working: t2, ..self }, Event::Inserted(t2.last_ino)),
                None => (self, Event::Failed),
            },
            Action::Reply(_) => (self, Event::Failed),
        }
    }
}

} // verus!
