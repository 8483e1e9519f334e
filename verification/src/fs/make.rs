//! `mkdir`, `create` and `symlink`: the calls that add an entry to a
//! directory.
use vstd::prelude::*;

use crate::fs::coffer::{errno_for, fail, insert_child, to_attr, CofferFS};
use crate::fs::coffer;
use crate::fs::operation::Operation;
use crate::fs::types::{
    Action, ActionView, DbEvent, Errno, Event, EventView, FsAction, Reply, Row, Stamp, KIND_DIR,
    KIND_FILE, KIND_SYMLINK, MAX_FILE_SIZE, S_IFDIR, S_IFLNK, S_IFREG,
};

verus! {

/// What is added. The target of a link is `None` where it is not valid UTF-8.
#[derive(Clone, Copy, Debug)]
pub enum NewEntry<'a> {
    Dir { mode: u32 },
    File { mode: u32 },
    Link { target: Option<&'a str> },
}

#[derive(Clone, Copy, Debug, PartialEq, Eq, Structural)]
pub enum MakeStage {
    Start,
    Begin,
    Lookup { now: Stamp },
    Ceiling { now: Stamp },
    Insert,
    Commit { ino: u64 },
    Fetch { ino: u64 },
    Over,
}

/// Adds the entry `name` to the directory `parent`. The name is `None` where
/// it is not valid UTF-8.
#[derive(Clone, Copy, Debug)]
pub struct Make<'a> {
    pub fs: CofferFS,
    pub parent: u64,
    pub name: Option<&'a str>,
    pub what: NewEntry<'a>,
    pub stage: MakeStage,
}

impl<'a> View for Make<'a> {
    type V = Make<'a>;

    open spec fn view(&self) -> Make<'a> {
        *self
    }
}

impl<'a> NewEntry<'a> {
    pub open spec fn kind(self) -> i64 {
        match self {
            NewEntry::Dir { .. } => KIND_DIR,
            NewEntry::File { .. } => KIND_FILE,
            NewEntry::Link { .. } => KIND_SYMLINK,
        }
    }

    /// The mode: what was asked for, or everything for a link.
    pub open spec fn mode(self) -> i64 {
        match self {
            NewEntry::Dir { mode } => S_IFDIR | ((mode & 0o7777) as i64),
            NewEntry::File { mode } => S_IFREG | ((mode & 0o7777) as i64),
            NewEntry::Link { .. } => S_IFLNK | 0o777,
        }
    }

    pub open spec fn target(self) -> Option<Seq<char>> {
        match self {
            NewEntry::Link { target: Some(t) } => Some(t@),
            _ => None,
        }
    }

    /// Whether the call is well formed, as far as the entry itself goes.
    pub open spec fn valid(self) -> bool {
        !(self matches NewEntry::Link { target: None })
    }

    /// Whether the length of the target fits the size column, as that of any
    /// text in memory does.
    pub open spec fn fits(self) -> bool {
        self.target() matches Some(t) ==> coffer::byte_len(t) <= MAX_FILE_SIZE
    }

    /// Whether there is no room for the entry in a container with a ceiling: a
    /// file needs any room at all, a link the length of its target.
    pub open spec fn no_room(self, fs: CofferFS, used: u64) -> bool {
        match self {
            NewEntry::Dir { .. } => false,
            NewEntry::File { .. } => fs.max_size != 0 && used >= fs.max_size,
            NewEntry::Link { target: Some(t) } => fs.over_ceiling(
                used,
                coffer::byte_len(t@) as int,
            ),
            NewEntry::Link { target: None } => false,
        }
    }
}

impl<'a> Make<'a> {
    pub fn new(fs: CofferFS, parent: u64, name: Option<&'a str>, what: NewEntry<'a>) -> (op: Self)
        ensures
            op == Make::start(fs, parent, name, what),
    {
        Make { fs, parent, name, what, stage: MakeStage::Start }
    }

    pub open spec fn start(
        fs: CofferFS,
        parent: u64,
        name: Option<&'a str>,
        what: NewEntry<'a>,
    ) -> Make<'a> {
        Make { fs, parent, name, what, stage: MakeStage::Start }
    }

    pub open spec fn at(self, stage: MakeStage) -> Make<'a> {
        Make { stage, ..self }
    }

    pub open spec fn over(self, errno: Errno) -> (Make<'a>, ActionView) {
        (self.at(MakeStage::Over), coffer::failure(errno))
    }

    pub open spec fn insertion(self, now: Stamp) -> (Make<'a>, ActionView) {
        (
            self.at(MakeStage::Insert),
            Action::Insert(
                coffer::child_insertion(
                    self.parent,
                    self.name->Some_0@,
                    self.what.kind(),
                    self.what.mode(),
                    self.fs,
                    self.what.target(),
                    now,
                ),
            ),
        )
    }

    pub open spec fn after_lookup(self, now: Stamp) -> (Make<'a>, ActionView) {
        if self.fs.max_size != 0 && !(self.what is Dir) {
            (self.at(MakeStage::Ceiling { now }), Action::TotalSize)
        } else {
            self.insertion(now)
        }
    }

    fn insert(&mut self, name: &'a str, now: Stamp) -> (action: FsAction<'a>)
        requires
            old(self).name == Some(name),
            old(self).what.valid(),
        ensures
            (*final(self), action@) == old(self).insertion(now),
    {
        let (kind, mode, target) = match self.what {
            NewEntry::Dir { mode } => (KIND_DIR, S_IFDIR | ((mode & 0o7777) as i64), None),
            NewEntry::File { mode } => (KIND_FILE, S_IFREG | ((mode & 0o7777) as i64), None),
            NewEntry::Link { target } => (KIND_SYMLINK, S_IFLNK | 0o777, target),
        };
        self.stage = MakeStage::Insert;
        Action::Insert(insert_child(self.parent, name, kind, mode, &self.fs, target, now))
    }

    fn looked_up(&mut self, name: &'a str, now: Stamp) -> (action: FsAction<'a>)
        requires
            old(self).name == Some(name),
            old(self).what.valid(),
        ensures
            (*final(self), action@) == old(self).after_lookup(now),
    {
        let counts = match self.what {
            NewEntry::Dir { .. } => false,
            _ => true,
        };
        if self.fs.max_size != 0 && counts {
            self.stage = MakeStage::Ceiling { now };
            Action::TotalSize
        } else {
            self.insert(name, now)
        }
    }
}

impl<'a> Operation<'a> for Make<'a> {
    open spec fn next(state: Make<'a>, event: EventView) -> (Make<'a>, ActionView) {
        if !(state.name is Some && state.what.valid()) {
            state.over(if state.fs.read_only { Errno::EROFS } else { Errno::EINVAL })
        } else {
            match (state.stage, event) {
                (MakeStage::Start, _) => if state.fs.read_only {
                    state.over(Errno::EROFS)
                } else {
                    (state.at(MakeStage::Begin), Action::Begin)
                },
                (MakeStage::Begin, Event::Begun { now }) => (
                    state.at(MakeStage::Lookup { now }),
                    Action::FindChild { parent: state.parent, name: state.name->Some_0@ },
                ),
                (MakeStage::Lookup { now }, Event::Ino(Some(_))) => state.over(Errno::EEXIST),
                (MakeStage::Lookup { now }, Event::Ino(None)) => state.after_lookup(now),
                // A failed lookup does not stop a link: the table refuses a
                // second entry of the name by itself.
                (MakeStage::Lookup { now }, _) => if state.what is Link {
                    state.after_lookup(now)
                } else {
                    state.over(Errno::EIO)
                },
                (MakeStage::Ceiling { now }, Event::Total(used)) => if state.what.no_room(
                    state.fs,
                    used,
                ) {
                    state.over(Errno::ENOSPC)
                } else {
                    state.insertion(now)
                },
                (MakeStage::Ceiling { now }, _) => state.insertion(now),
                (MakeStage::Insert, Event::Inserted(ino)) => (
                    state.at(MakeStage::Commit { ino }),
                    Action::Commit,
                ),
                (MakeStage::Commit { ino }, Event::Committed) => (
                    state.at(MakeStage::Fetch { ino }),
                    Action::FetchRow { ino },
                ),
                (MakeStage::Insert, _) | (MakeStage::Commit { .. }, _) => if state.what is File {
                    state.over(coffer::errno_for_event(event))
                } else {
                    state.over(Errno::EIO)
                },
                (MakeStage::Fetch { ino }, Event::Row(Some(row))) => (
                    state.at(MakeStage::Over),
                    if state.what is File {
                        Action::Reply(
                            Reply::Created { attr: coffer::attr_of(ino, row), handle: ino },
                        )
                    } else {
                        Action::Reply(Reply::Entry(coffer::attr_of(ino, row)))
                    },
                ),
                _ => state.over(Errno::EIO),
            }
        }
    }

    fn step(&mut self, event: DbEvent) -> (action: FsAction<'a>) {
        let stage = self.stage;
        self.stage = MakeStage::Over;
        let (is_file, is_link, complete) = match self.what {
            NewEntry::Dir { .. } => (false, false, true),
            NewEntry::File { .. } => (true, false, true),
            NewEntry::Link { target } => (false, true, target.is_some()),
        };
        let name = match self.name {
            Some(name) => name,
            None => {
                return fail(if self.fs.read_only { Errno::EROFS } else { Errno::EINVAL });
            },
        };
        if !complete {
            return fail(if self.fs.read_only { Errno::EROFS } else { Errno::EINVAL });
        }
        match (stage, event) {
            (MakeStage::Start, _) => {
                if self.fs.read_only {
                    fail(Errno::EROFS)
                } else {
                    self.stage = MakeStage::Begin;
                    Action::Begin
                }
            },
            (MakeStage::Begin, Event::Begun { now }) => {
                self.stage = MakeStage::Lookup { now };
                Action::FindChild { parent: self.parent, name }
            },
            (MakeStage::Lookup { now }, Event::Ino(Some(_))) => fail(Errno::EEXIST),
            (MakeStage::Lookup { now }, Event::Ino(None)) => self.looked_up(name, now),
            (MakeStage::Lookup { now }, _) => {
                if is_link {
                    self.looked_up(name, now)
                } else {
                    fail(Errno::EIO)
                }
            },
            (MakeStage::Ceiling { now }, Event::Total(used)) => {
                let no_room = match self.what {
                    NewEntry::Dir { .. } => false,
                    NewEntry::File { .. } => self.fs.max_size != 0 && used >= self.fs.max_size,
                    NewEntry::Link { target: Some(t) } => self.fs.exceeds(used, t.len() as u64),
                    NewEntry::Link { target: None } => false,
                };
                if no_room {
                    fail(Errno::ENOSPC)
                } else {
                    self.insert(name, now)
                }
            },
            (MakeStage::Ceiling { now }, _) => self.insert(name, now),
            (MakeStage::Insert, Event::Inserted(ino)) => {
                self.stage = MakeStage::Commit { ino };
                Action::Commit
            },
            (MakeStage::Commit { ino }, Event::Committed) => {
                self.stage = MakeStage::Fetch { ino };
                Action::FetchRow { ino }
            },
            (MakeStage::Insert, event) | (MakeStage::Commit { .. }, event) => {
                if is_file {
                    fail(errno_for(&event))
                } else {
                    fail(Errno::EIO)
                }
            },
            (MakeStage::Fetch { ino }, Event::Row(Some(row))) => {
                let attr = to_attr(ino, &row);
                if is_file {
                    Action::Reply(Reply::Created { attr, handle: ino })
                } else {
                    Action::Reply(Reply::Entry(attr))
                }
            },
            _ => fail(Errno::EIO),
        }
    }
}

} // verus!
