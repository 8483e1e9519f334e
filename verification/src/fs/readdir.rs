//! `readdir`.
use vstd::prelude::*;

use crate::fs::coffer::{fail, file_type_of};
use crate::fs::coffer;
use crate::fs::operation::Operation;
use crate::fs::types::{
    Action, ActionView, Child, DbEvent, DirEntry, Errno, Event, EventView, FileType, FsAction,
    Reply, MAX_FILE_SIZE, ROOT_INO,
};

verus! {

/// The entry at place `i` of a listing: the directory itself, its parent,
/// then the children. Reading goes on behind it.
pub open spec fn entry_at(ino: u64, parent: u64, children: Seq<Child<Seq<char>>>, i: int) -> DirEntry<
    Seq<char>,
> {
    if i == 0 {
        DirEntry { ino, next_offset: 1, kind: FileType::Directory, name: "."@ }
    } else if i == 1 {
        DirEntry { ino: parent, next_offset: 2, kind: FileType::Directory, name: ".."@ }
    } else {
        DirEntry {
            ino: children[i - 2].ino,
            next_offset: (i + 1) as u64,
            kind: coffer::type_of_kind(children[i - 2].kind),
            name: children[i - 2].name,
        }
    }
}

/// A listing from the place `offset` on.
pub open spec fn listing(ino: u64, parent: u64, children: Seq<Child<Seq<char>>>, offset: u64) -> Seq<
    DirEntry<Seq<char>>,
> {
    let all = children.len() + 2;
    Seq::new(
        if offset < all {
            (all - offset) as nat
        } else {
            0
        },
        |i: int| entry_at(ino, parent, children, offset + i),
    )
}

pub fn list_entries(ino: u64, parent: u64, children: &Vec<Child<String>>, offset: u64) -> (list: Vec<
    DirEntry<String>,
>)
    requires
        children@.len() <= MAX_FILE_SIZE,
    ensures
        crate::fs::types::entries_view(list@) == listing(
            ino,
            parent,
            Seq::new(children@.len(), |i: int| children@[i]@),
            offset,
        ),
{
    let ghost kids = Seq::new(children@.len(), |i: int| children@[i]@);
    let count: usize = children.len();
    let all: u64 = count as u64 + 2;
    let mut list: Vec<DirEntry<String>> = Vec::new();
    let mut i: u64 = offset;
    while i < all
        invariant
            count == children@.len(),
            all == count + 2,
            all <= MAX_FILE_SIZE + 2,
            kids == Seq::new(children@.len(), |k: int| children@[k]@),
            offset <= i,
            offset < all ==> i <= all,
            offset >= all ==> i == offset,
            list@.len() == i - offset,
            forall|k: int|
                0 <= k < list@.len() ==> #[trigger] list@[k]@ == entry_at(
                    ino,
                    parent,
                    kids,
                    offset + k,
                ),
        decreases all - i,
    {
        if i == 0 {
            list.push(
                DirEntry {
                    ino,
                    next_offset: 1,
                    kind: FileType::Directory,
                    name: ".".to_owned(),
                },
            );
        } else if i == 1 {
            list.push(
                DirEntry {
                    ino: parent,
                    next_offset: 2,
                    kind: FileType::Directory,
                    name: "..".to_owned(),
                },
            );
        } else {
            let child = &children[(i - 2) as usize];
            assert(kids[i - 2] == child@);
            list.push(
                DirEntry {
                    ino: child.ino,
                    next_offset: i + 1,
                    kind: file_type_of(child.kind),
                    name: child.name.clone(),
                },
            );
        }
        i += 1;
    }
    assert(crate::fs::types::entries_view(list@) =~= listing(ino, parent, kids, offset));
    list
}

#[derive(Clone, Copy, Debug, PartialEq, Eq, Structural)]
pub enum ReaddirStage {
    Start,
    Parent,
    Children { parent: u64 },
    Over,
}

/// Lists the directory `ino` from the place `offset` on.
#[derive(Clone, Copy, Debug, PartialEq, Eq, Structural)]
pub struct Readdir {
    pub ino: u64,
    pub offset: u64,
    pub stage: ReaddirStage,
}

impl View for Readdir {
    type V = Readdir;

    open spec fn view(&self) -> Readdir {
        *self
    }
}

impl Readdir {
    pub fn new(ino: u64, offset: u64) -> (op: Self)
        ensures
            op == Readdir::start(ino, offset),
    {
        Readdir { ino, offset, stage: ReaddirStage::Start }
    }

    pub open spec fn start(ino: u64, offset: u64) -> Readdir {
        Readdir { ino, offset, stage: ReaddirStage::Start }
    }

    pub open spec fn at(self, stage: ReaddirStage) -> Readdir {
        Readdir { stage, ..self }
    }

    pub open spec fn over(self, errno: Errno) -> (Readdir, ActionView) {
        (self.at(ReaddirStage::Over), coffer::failure(errno))
    }

    pub open spec fn with_parent(self, parent: u64) -> (Readdir, ActionView) {
        (self.at(ReaddirStage::Children { parent }), Action::ListChildren { ino: self.ino })
    }
}

impl<'a> Operation<'a> for Readdir {
    open spec fn next(state: Readdir, event: EventView) -> (Readdir, ActionView) {
        match (state.stage, event) {
            // The root is its own parent.
            (ReaddirStage::Start, _) => if state.ino == ROOT_INO {
                state.with_parent(ROOT_INO)
            } else {
                (state.at(ReaddirStage::Parent), Action::FetchParent { ino: state.ino })
            },
            (ReaddirStage::Parent, Event::Ino(Some(parent))) => state.with_parent(parent),
            (ReaddirStage::Parent, _) => state.over(Errno::ENOENT),
            // There are no more children than inode numbers.
            (ReaddirStage::Children { parent }, Event::Children(children)) => if children.len()
                <= MAX_FILE_SIZE {
                (
                    state.at(ReaddirStage::Over),
                    Action::Reply(
                        Reply::Dir(listing(state.ino, parent, children, state.offset)),
                    ),
                )
            } else {
                state.over(Errno::EIO)
            },
            _ => state.over(Errno::EIO),
        }
    }

    fn step(&mut self, event: DbEvent) -> (action: FsAction<'a>) {
        let stage = self.stage;
        self.stage = ReaddirStage::Over;
        match (stage, event) {
            (ReaddirStage::Start, _) => {
                if self.ino == ROOT_INO {
                    self.stage = ReaddirStage::Children { parent: ROOT_INO };
                    Action::ListChildren { ino: self.ino }
                } else {
                    self.stage = ReaddirStage::Parent;
                    Action::FetchParent { ino: self.ino }
                }
            },
            (ReaddirStage::Parent, Event::Ino(Some(parent))) => {
                self.stage = ReaddirStage::Children { parent };
                Action::ListChildren { ino: self.ino }
            },
            (ReaddirStage::Parent, _) => fail(Errno::ENOENT),
            (ReaddirStage::Children { parent }, Event::Children(children)) => {
                if children.len() as u64 <= MAX_FILE_SIZE {
                    Action::Reply(
                        Reply::Dir(list_entries(self.ino, parent, &children, self.offset)),
                    )
                } else {
                    fail(Errno::EIO)
                }
            },
            _ => fail(Errno::EIO),
        }
    }
}

} // verus!
