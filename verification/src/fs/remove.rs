//! `unlink` and `rmdir`.
use vstd::prelude::*;

use crate::fs::coffer::{delete_inode, fail, CofferFS};
use crate::fs::coffer;
use crate::fs::operation::Operation;
use crate::fs::types::{
    Action, ActionView, DbEvent, Errno, Event, EventView, FsAction, Reply, Stamp, Stmt, StmtView,
    KIND_DIR, ROOT_INO,
};

verus! {

/// Whether an inode may go away.
#[derive(Clone, Copy, Debug, PartialEq, Eq, Structural)]
pub enum Verdict {
    Removable,
    /// It is a directory: only if it has no children.
    IfEmpty,
    Refused(Errno),
}

/// A directory may only be removed, or replaced by a rename, while it is
/// empty: anything else would leave its subtree in the tables, reachable by
/// nothing.
pub open spec fn verdict_on_kind(kind: EventView) -> Verdict {
    match kind {
        Event::Kind(k) => if k == KIND_DIR {
            Verdict::IfEmpty
        } else {
            Verdict::Removable
        },
        _ => Verdict::Refused(Errno::EIO),
    }
}

pub open spec fn verdict_on_children(children: EventView) -> Verdict {
    match children {
        Event::Flag(true) => Verdict::Refused(Errno::ENOTEMPTY),
        Event::Flag(false) => Verdict::Removable,
        _ => Verdict::Refused(Errno::EIO),
    }
}

pub fn ensure_removable(kind: &DbEvent) -> (verdict: Verdict)
    ensures
        verdict == verdict_on_kind(kind@),
{
    match kind {
        Event::Kind(k) => if *k == KIND_DIR {
            Verdict::IfEmpty
        } else {
            Verdict::Removable
        },
        _ => Verdict::Refused(Errno::EIO),
    }
}

pub fn ensure_empty(children: &DbEvent) -> (verdict: Verdict)
    ensures
        verdict == verdict_on_children(children@),
{
    match children {
        Event::Flag(has) => if *has {
            Verdict::Refused(Errno::ENOTEMPTY)
        } else {
            Verdict::Removable
        },
        _ => Verdict::Refused(Errno::EIO),
    }
}

#[derive(Clone, Copy, Debug, PartialEq, Eq, Structural)]
pub enum RemoveStage {
    Start,
    Begin,
    Lookup { now: Stamp },
    Kind { now: Stamp, ino: u64 },
    Children { now: Stamp, ino: u64 },
    Delete,
    Commit,
    Over,
}

/// Takes the entry `name` out of the directory `parent`: `rmdir` where `dir`
/// holds, else `unlink`. The name is `None` where it is not valid UTF-8.
#[derive(Clone, Copy, Debug)]
pub struct Remove<'a> {
    pub fs: CofferFS,
    pub parent: u64,
    pub name: Option<&'a str>,
    pub dir: bool,
    pub stage: RemoveStage,
}

impl<'a> View for Remove<'a> {
    type V = Remove<'a>;

    open spec fn view(&self) -> Remove<'a> {
        *self
    }
}

impl<'a> Remove<'a> {
    pub fn new(fs: CofferFS, parent: u64, name: Option<&'a str>, dir: bool) -> (op: Self)
        ensures
            op == Remove::start(fs, parent, name, dir),
    {
        Remove { fs, parent, name, dir, stage: RemoveStage::Start }
    }

    pub open spec fn start(fs: CofferFS, parent: u64, name: Option<&'a str>, dir: bool) -> Remove<
        'a,
    > {
        Remove { fs, parent, name, dir, stage: RemoveStage::Start }
    }

    pub open spec fn at(self, stage: RemoveStage) -> Remove<'a> {
        Remove { stage, ..self }
    }

    pub open spec fn over(self, errno: Errno) -> (Remove<'a>, ActionView) {
        (self.at(RemoveStage::Over), coffer::failure(errno))
    }

    /// The statements that remove the inode `ino` from the directory.
    pub open spec fn statements(self, now: Stamp, ino: u64) -> Seq<StmtView> {
        coffer::inode_deletion(ino).push(Stmt::Touch { ino: self.parent, now })
    }

    pub open spec fn deletion(self, now: Stamp, ino: u64) -> (Remove<'a>, ActionView) {
        (self.at(RemoveStage::Delete), Action::Run(self.statements(now, ino)))
    }

    fn delete(&mut self, now: Stamp, ino: u64) -> (action: FsAction<'a>)
        ensures
            (*final(self), action@) == old(self).deletion(now, ino),
    {
        let mut list = delete_inode(ino);
        list.push(Stmt::Touch { ino: self.parent, now });
        self.stage = RemoveStage::Delete;
        assert(crate::fs::types::stmts_view(list@) =~= self.statements(now, ino));
        Action::Run(list)
    }
}

impl<'a> Operation<'a> for Remove<'a> {
    open spec fn next(state: Remove<'a>, event: EventView) -> (Remove<'a>, ActionView) {
        match (state.stage, event) {
            (RemoveStage::Start, _) => if state.fs.read_only {
                state.over(Errno::EROFS)
            } else if state.name is None {
                state.over(Errno::EINVAL)
            } else {
                (state.at(RemoveStage::Begin), Action::Begin)
            },
            (RemoveStage::Begin, Event::Begun { now }) => (
                state.at(RemoveStage::Lookup { now }),
                match state.name {
                    Some(name) => Action::FindChild { parent: state.parent, name: name@ },
                    None => coffer::failure(Errno::EINVAL),
                },
            ),
            (RemoveStage::Lookup { .. }, Event::Ino(None)) => state.over(Errno::ENOENT),
            (RemoveStage::Lookup { now }, Event::Ino(Some(ino))) => if !state.dir {
                state.deletion(now, ino)
            } else if ino == ROOT_INO {
                state.over(Errno::EBUSY)
            } else {
                (state.at(RemoveStage::Kind { now, ino }), Action::FetchKind { ino })
            },
            (RemoveStage::Kind { now, ino }, kind) => match verdict_on_kind(kind) {
                Verdict::Removable => state.deletion(now, ino),
                Verdict::IfEmpty => (
                    state.at(RemoveStage::Children { now, ino }),
                    Action::HasChildren { ino },
                ),
                Verdict::Refused(errno) => state.over(errno),
            },
            (RemoveStage::Children { now, ino }, children) => match verdict_on_children(children) {
                Verdict::Removable => state.deletion(now, ino),
                Verdict::IfEmpty => state.over(Errno::EIO),
                Verdict::Refused(errno) => state.over(errno),
            },
            (RemoveStage::Delete, Event::Ran) => (state.at(RemoveStage::Commit), Action::Commit),
            (RemoveStage::Commit, Event::Committed) => (
                state.at(RemoveStage::Over),
                Action::Reply(Reply::Done),
            ),
            _ => state.over(Errno::EIO),
        }
    }

    fn step(&mut self, event: DbEvent) -> (action: FsAction<'a>) {
        let stage = self.stage;
        self.stage = RemoveStage::Over;
        match (stage, event) {
            (RemoveStage::Start, _) => {
                if self.fs.read_only {
                    fail(Errno::EROFS)
                } else if self.name.is_none() {
                    fail(Errno::EINVAL)
                } else {
                    self.stage = RemoveStage::Begin;
                    Action::Begin
                }
            },
            (RemoveStage::Begin, Event::Begun { now }) => {
                self.stage = RemoveStage::Lookup { now };
                match self.name {
                    Some(name) => Action::FindChild { parent: self.parent, name },
                    None => fail(Errno::EINVAL),
                }
            },
            (RemoveStage::Lookup { .. }, Event::Ino(None)) => fail(Errno::ENOENT),
            (RemoveStage::Lookup { now }, Event::Ino(Some(ino))) => {
                if !self.dir {
                    self.delete(now, ino)
                } else if ino == ROOT_INO {
                    fail(Errno::EBUSY)
                } else {
                    self.stage = RemoveStage::Kind { now, ino };
                    Action::FetchKind { ino }
                }
            },
            (RemoveStage::Kind { now, ino }, kind) => match ensure_removable(&kind) {
                Verdict::Removable => self.delete(now, ino),
                Verdict::IfEmpty => {
                    self.stage = RemoveStage::Children { now, ino };
                    Action::HasChildren { ino }
                },
                Verdict::Refused(errno) => fail(errno),
            },
            (RemoveStage::Children { now, ino }, children) => match ensure_empty(&children) {
                Verdict::Removable => self.delete(now, ino),
                Verdict::IfEmpty => fail(Errno::EIO),
                Verdict::Refused(errno) => fail(errno),
            },
            (RemoveStage::Delete, Event::Ran) => {
                self.stage = RemoveStage::Commit;
                Action::Commit
            },
            (RemoveStage::Commit, Event::Committed) => Action::Reply(Reply::Done),
            _ => fail(Errno::EIO),
        }
    }
}

} // verus!
