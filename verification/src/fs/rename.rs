//! `rename`.
use vstd::prelude::*;

use crate::fs::coffer::{delete_inode, fail, CofferFS};
use crate::fs::coffer;
use crate::fs::operation::Operation;
use crate::fs::remove::{ensure_empty, ensure_removable, Verdict};
use crate::fs::remove;
use crate::fs::types::{
    Action, ActionView, DbEvent, DbStmt, Errno, Event, EventView, FsAction, Reply, Stamp, Stmt,
    StmtView,
};

verus! {

/// The flags of `renameat2(2)`.
#[derive(Clone, Copy, Debug, PartialEq, Eq, Structural)]
pub struct RenameFlags {
    pub noreplace: bool,
    pub exchange: bool,
    pub whiteout: bool,
}

#[derive(Clone, Copy, Debug, PartialEq, Eq, Structural)]
pub enum RenameStage {
    Start,
    Begin,
    Source { now: Stamp },
    Target { now: Stamp, ino: u64 },
    Kind { now: Stamp, ino: u64, existing: u64 },
    Children { now: Stamp, ino: u64, existing: u64 },
    Move,
    Commit,
    Over,
}

/// Makes the entry `name` of `parent` the entry `newname` of `newparent`. A
/// name is `None` where it is not valid UTF-8.
#[derive(Clone, Copy, Debug)]
pub struct Rename<'a> {
    pub fs: CofferFS,
    pub parent: u64,
    pub name: Option<&'a str>,
    pub newparent: u64,
    pub newname: Option<&'a str>,
    pub flags: RenameFlags,
    pub stage: RenameStage,
}

impl<'a> View for Rename<'a> {
    type V = Rename<'a>;

    open spec fn view(&self) -> Rename<'a> {
        *self
    }
}

impl<'a> Rename<'a> {
    pub fn new(
        fs: CofferFS,
        parent: u64,
        name: Option<&'a str>,
        newparent: u64,
        newname: Option<&'a str>,
        flags: RenameFlags,
    ) -> (op: Self)
        ensures
            op == Rename::start(fs, parent, name, newparent, newname, flags),
    {
        Rename { fs, parent, name, newparent, newname, flags, stage: RenameStage::Start }
    }

    pub open spec fn start(
        fs: CofferFS,
        parent: u64,
        name: Option<&'a str>,
        newparent: u64,
        newname: Option<&'a str>,
        flags: RenameFlags,
    ) -> Rename<'a> {
        Rename { fs, parent, name, newparent, newname, flags, stage: RenameStage::Start }
    }

    pub open spec fn at(self, stage: RenameStage) -> Rename<'a> {
        Rename { stage, ..self }
    }

    pub open spec fn over(self, errno: Errno) -> (Rename<'a>, ActionView) {
        (self.at(RenameStage::Over), coffer::failure(errno))
    }

    /// The statements that move `ino` to its new place, after `replaced` has
    /// made room for it.
    pub open spec fn statements(self, now: Stamp, ino: u64, replaced: Option<u64>) -> Seq<
        StmtView,
    > {
        let room = match replaced {
            Some(existing) => coffer::inode_deletion(existing),
            None => Seq::empty(),
        };
        room.push(
            Stmt::MoveInode { ino, parent: self.newparent, name: self.newname->Some_0@ },
        ).push(Stmt::TouchBoth { first: self.parent, second: self.newparent, now })
    }

    pub open spec fn moving(self, now: Stamp, ino: u64, replaced: Option<u64>) -> (
        Rename<'a>,
        ActionView,
    ) {
        (self.at(RenameStage::Move), Action::Run(self.statements(now, ino, replaced)))
    }

    /// Once it is known what stands at the new place.
    pub open spec fn after_target(self, now: Stamp, ino: u64, target: Option<u64>) -> (
        Rename<'a>,
        ActionView,
    ) {
        if self.flags.exchange || self.flags.whiteout {
            self.over(Errno::EINVAL)
        } else if self.flags.noreplace && target is Some {
            self.over(Errno::EEXIST)
        } else {
            match target {
                Some(existing) => if existing == ino {
                    self.moving(now, ino, None)
                } else {
                    (
                        self.at(RenameStage::Kind { now, ino, existing }),
                        Action::FetchKind { ino: existing },
                    )
                },
                None => self.moving(now, ino, None),
            }
        }
    }

    fn move_to(&mut self, newname: &'a str, now: Stamp, ino: u64, replaced: Option<u64>) -> (action:
        FsAction<'a>)
        requires
            old(self).newname == Some(newname),
        ensures
            (*final(self), action@) == old(self).moving(now, ino, replaced),
    {
        let mut list: Vec<DbStmt<'a>> = match replaced {
            Some(existing) => delete_inode(existing),
            None => Vec::new(),
        };
        list.push(Stmt::MoveInode { ino, parent: self.newparent, name: newname });
        list.push(Stmt::TouchBoth { first: self.parent, second: self.newparent, now });
        self.stage = RenameStage::Move;
        assert(crate::fs::types::stmts_view(list@) =~= self.statements(now, ino, replaced));
        Action::Run(list)
    }

    fn found_target(&mut self, newname: &'a str, now: Stamp, ino: u64, target: Option<u64>) -> (action:
        FsAction<'a>)
        requires
            old(self).newname == Some(newname),
            old(self).stage is Over,
        ensures
            (*final(self), action@) == old(self).after_target(now, ino, target),
    {
        // What is not supported is refused rather than ignored: a plain rename
        // would destroy the target.
        if self.flags.exchange || self.flags.whiteout {
            return fail(Errno::EINVAL);
        }
        if self.flags.noreplace && target.is_some() {
            return fail(Errno::EEXIST);
        }
        match target {
            Some(existing) => {
                if existing == ino {
                    self.move_to(newname, now, ino, None)
                } else {
                    self.stage = RenameStage::Kind { now, ino, existing };
                    Action::FetchKind { ino: existing }
                }
            },
            None => self.move_to(newname, now, ino, None),
        }
    }
}

impl<'a> Operation<'a> for Rename<'a> {
    open spec fn next(state: Rename<'a>, event: EventView) -> (Rename<'a>, ActionView) {
        if state.fs.read_only {
            state.over(Errno::EROFS)
        } else if state.name is None || state.newname is None {
            state.over(Errno::EINVAL)
        } else {
            match (state.stage, event) {
                (RenameStage::Start, _) => (state.at(RenameStage::Begin), Action::Begin),
                (RenameStage::Begin, Event::Begun { now }) => (
                    state.at(RenameStage::Source { now }),
                    Action::FindChild { parent: state.parent, name: state.name->Some_0@ },
                ),
                (RenameStage::Source { .. }, Event::Ino(None)) => state.over(Errno::ENOENT),
                (RenameStage::Source { now }, Event::Ino(Some(ino))) => (
                    state.at(RenameStage::Target { now, ino }),
                    Action::FindChild { parent: state.newparent, name: state.newname->Some_0@ },
                ),
                (RenameStage::Target { now, ino }, Event::Ino(target)) => state.after_target(
                    now,
                    ino,
                    target,
                ),
                (RenameStage::Kind { now, ino, existing }, kind) => match remove::verdict_on_kind(
                    kind,
                ) {
                    Verdict::Removable => state.moving(now, ino, Some(existing)),
                    Verdict::IfEmpty => (
                        state.at(RenameStage::Children { now, ino, existing }),
                        Action::HasChildren { ino: existing },
                    ),
                    Verdict::Refused(errno) => state.over(errno),
                },
                (RenameStage::Children { now, ino, existing }, children) =>
                    match remove::verdict_on_children(children) {
                    Verdict::Removable => state.moving(now, ino, Some(existing)),
                    Verdict::IfEmpty => state.over(Errno::EIO),
                    Verdict::Refused(errno) => state.over(errno),
                },
                (RenameStage::Move, Event::Ran) => (state.at(RenameStage::Commit), Action::Commit),
                (RenameStage::Commit, Event::Committed) => (
                    state.at(RenameStage::Over),
                    Action::Reply(Reply::Done),
                ),
                _ => state.over(Errno::EIO),
            }
        }
    }

    fn step(&mut self, event: DbEvent) -> (action: FsAction<'a>) {
        let stage = self.stage;
        self.stage = RenameStage::Over;
        if self.fs.read_only {
            return fail(Errno::EROFS);
        }
        let (name, newname) = match (self.name, self.newname) {
            (Some(name), Some(newname)) => (name, newname),
            _ => {
                return fail(Errno::EINVAL);
            },
        };
        match (stage, event) {
            (RenameStage::Start, _) => {
                self.stage = RenameStage::Begin;
                Action::Begin
            },
            (RenameStage::Begin, Event::Begun { now }) => {
                self.stage = RenameStage::Source { now };
                Action::FindChild { parent: self.parent, name }
            },
            (RenameStage::Source { .. }, Event::Ino(None)) => fail(Errno::ENOENT),
            (RenameStage::Source { now }, Event::Ino(Some(ino))) => {
                self.stage = RenameStage::Target { now, ino };
                Action::FindChild { parent: self.newparent, name: newname }
            },
            (RenameStage::Target { now, ino }, Event::Ino(target)) => self.found_target(
                newname,
                now,
                ino,
                target,
            ),
            (RenameStage::Kind { now, ino, existing }, kind) => match ensure_removable(&kind) {
                Verdict::Removable => self.move_to(newname, now, ino, Some(existing)),
                Verdict::IfEmpty => {
                    self.stage = RenameStage::Children { now, ino, existing };
                    Action::HasChildren { ino: existing }
                },
                Verdict::Refused(errno) => fail(errno),
            },
            (RenameStage::Children { now, ino, existing }, children) => match ensure_empty(
                &children,
            ) {
                Verdict::Removable => self.move_to(newname, now, ino, Some(existing)),
                Verdict::IfEmpty => fail(Errno::EIO),
                Verdict::Refused(errno) => fail(errno),
            },
            (RenameStage::Move, Event::Ran) => {
                self.stage = RenameStage::Commit;
                Action::Commit
            },
            (RenameStage::Commit, Event::Committed) => Action::Reply(Reply::Done),
            _ => fail(Errno::EIO),
        }
    }
}

} // verus!
