//! The calls that ask about one inode, and `open` and `statfs`.
use vstd::prelude::*;
use vstd::slice::slice_to_vec;

use crate::fs::coffer::{fail, to_attr, CofferFS};
use crate::fs::coffer;
use crate::fs::operation::Operation;
use crate::fs::types::{
    Action, ActionView, DbEvent, Errno, Event, EventView, FsAction, FsReply, HostSpace, Reply,
    ReplyView, Row, RowView, Statfs, O_ACCMODE, O_RDONLY,
};

verus! {

#[derive(Clone, Copy, Debug, PartialEq, Eq, Structural)]
pub enum LookupStage {
    Start,
    Child,
    Row { ino: u64 },
    Over,
}

/// Looks up the entry `name` of the directory `parent`. The name is `None`
/// where it is not valid UTF-8.
#[derive(Clone, Copy, Debug)]
pub struct Lookup<'a> {
    pub parent: u64,
    pub name: Option<&'a str>,
    pub stage: LookupStage,
}

impl<'a> View for Lookup<'a> {
    type V = Lookup<'a>;

    open spec fn view(&self) -> Lookup<'a> {
        *self
    }
}

impl<'a> Lookup<'a> {
    pub fn new(parent: u64, name: Option<&'a str>) -> (op: Self)
        ensures
            op == Lookup::start(parent, name),
    {
        Lookup { parent, name, stage: LookupStage::Start }
    }

    pub open spec fn start(parent: u64, name: Option<&'a str>) -> Lookup<'a> {
        Lookup { parent, name, stage: LookupStage::Start }
    }

    pub open spec fn at(self, stage: LookupStage) -> Lookup<'a> {
        Lookup { stage, ..self }
    }

    pub open spec fn over(self, errno: Errno) -> (Lookup<'a>, ActionView) {
        (self.at(LookupStage::Over), coffer::failure(errno))
    }
}

impl<'a> Operation<'a> for Lookup<'a> {
    open spec fn next(state: Lookup<'a>, event: EventView) -> (Lookup<'a>, ActionView) {
        match (state.stage, event) {
            (LookupStage::Start, _) => match state.name {
                Some(name) => (
                    state.at(LookupStage::Child),
                    Action::FindChild { parent: state.parent, name: name@ },
                ),
                None => state.over(Errno::EINVAL),
            },
            (LookupStage::Child, Event::Ino(Some(ino))) => (
                state.at(LookupStage::Row { ino }),
                Action::FetchRow { ino },
            ),
            (LookupStage::Child, Event::Ino(None)) => state.over(Errno::ENOENT),
            (LookupStage::Row { ino }, Event::Row(Some(row))) => (
                state.at(LookupStage::Over),
                Action::Reply(Reply::Entry(coffer::attr_of(ino, row))),
            ),
            _ => state.over(Errno::EIO),
        }
    }

    fn step(&mut self, event: DbEvent) -> (action: FsAction<'a>) {
        let stage = self.stage;
        self.stage = LookupStage::Over;
        match (stage, event) {
            (LookupStage::Start, _) => match self.name {
                Some(name) => {
                    self.stage = LookupStage::Child;
                    Action::FindChild { parent: self.parent, name }
                },
                None => fail(Errno::EINVAL),
            },
            (LookupStage::Child, Event::Ino(Some(ino))) => {
                self.stage = LookupStage::Row { ino };
                Action::FetchRow { ino }
            },
            (LookupStage::Child, Event::Ino(None)) => fail(Errno::ENOENT),
            (LookupStage::Row { ino }, Event::Row(Some(row))) => Action::Reply(
                Reply::Entry(to_attr(ino, &row)),
            ),
            _ => fail(Errno::EIO),
        }
    }
}

/// What is asked about an inode.
#[derive(Clone, Copy, Debug, PartialEq, Eq, Structural)]
pub enum Question {
    /// `getattr`.
    Attributes,
    /// `readlink`.
    Target,
}

#[derive(Clone, Copy, Debug, PartialEq, Eq, Structural)]
pub enum AskStage {
    Start,
    Row,
    Over,
}

/// `getattr` and `readlink`.
#[derive(Clone, Copy, Debug, PartialEq, Eq, Structural)]
pub struct Ask {
    pub ino: u64,
    pub question: Question,
    pub stage: AskStage,
}

impl View for Ask {
    type V = Ask;

    open spec fn view(&self) -> Ask {
        *self
    }
}

impl Ask {
    pub fn new(ino: u64, question: Question) -> (op: Self)
        ensures
            op == Ask::start(ino, question),
    {
        Ask { ino, question, stage: AskStage::Start }
    }

    pub open spec fn start(ino: u64, question: Question) -> Ask {
        Ask { ino, question, stage: AskStage::Start }
    }

    pub open spec fn at(self, stage: AskStage) -> Ask {
        Ask { stage, ..self }
    }

    pub open spec fn over(self, errno: Errno) -> (Ask, ActionView) {
        (self.at(AskStage::Over), coffer::failure(errno))
    }

    /// What is not a link has an empty target.
    pub open spec fn answer(self, row: RowView) -> ReplyView {
        match self.question {
            Question::Attributes => Reply::Attr(coffer::attr_of(self.ino, row)),
            Question::Target => Reply::Data(
                match row.symlink_target {
                    Some(target) => vstd::utf8::encode_utf8(target),
                    None => Seq::empty(),
                },
            ),
        }
    }
}

impl<'a> Operation<'a> for Ask {
    open spec fn next(state: Ask, event: EventView) -> (Ask, ActionView) {
        match (state.stage, event) {
            (AskStage::Start, _) => (
                state.at(AskStage::Row),
                Action::FetchRow { ino: state.ino },
            ),
            (AskStage::Row, Event::Row(Some(row))) => (
                state.at(AskStage::Over),
                Action::Reply(state.answer(row)),
            ),
            (AskStage::Row, Event::Row(None)) => state.over(Errno::ENOENT),
            _ => state.over(Errno::EIO),
        }
    }

    fn step(&mut self, event: DbEvent) -> (action: FsAction<'a>) {
        let stage = self.stage;
        self.stage = AskStage::Over;
        match (stage, event) {
            (AskStage::Start, _) => {
                self.stage = AskStage::Row;
                Action::FetchRow { ino: self.ino }
            },
            (AskStage::Row, Event::Row(Some(row))) => match self.question {
                Question::Attributes => Action::Reply(Reply::Attr(to_attr(self.ino, &row))),
                Question::Target => {
                    let target: Vec<u8> = match &row.symlink_target {
                        Some(target) => slice_to_vec(target.as_str().as_bytes()),
                        None => Vec::new(),
                    };
                    assert(row@.symlink_target is None ==> target@ =~= Seq::empty());
                    Action::Reply(Reply::Data(target))
                },
            },
            (AskStage::Row, Event::Row(None)) => fail(Errno::ENOENT),
            _ => fail(Errno::EIO),
        }
    }
}

/// What `open` answers.
pub open spec fn open_reply(fs: CofferFS, ino: u64, flags: i32) -> ReplyView {
    if fs.read_only && flags & O_ACCMODE != O_RDONLY {
        ReplyView::Error(Errno::EROFS)
    } else {
        ReplyView::Opened { handle: ino }
    }
}

/// `open`: anything but reading is refused on a read-only mount. The handle
/// is the inode.
pub fn open(fs: &CofferFS, ino: u64, flags: i32) -> (reply: FsReply)
    ensures
        reply@ == (if fs.read_only && flags & O_ACCMODE != O_RDONLY {
            ReplyView::Error(Errno::EROFS)
        } else {
            ReplyView::Opened { handle: ino }
        }),
        reply@ == open_reply(*fs, ino, flags),
{
    if fs.read_only && (flags & O_ACCMODE) != O_RDONLY {
        Reply::Error(Errno::EROFS)
    } else {
        Reply::Opened { handle: ino }
    }
}

#[derive(Clone, Copy, Debug, PartialEq, Eq, Structural)]
pub enum StatStage {
    Start,
    Used,
    Space,
    Over,
}

/// `statfs`.
#[derive(Clone, Copy, Debug, PartialEq, Eq, Structural)]
pub struct Stat {
    pub fs: CofferFS,
    pub stage: StatStage,
}

impl View for Stat {
    type V = Stat;

    open spec fn view(&self) -> Stat {
        *self
    }
}

/// The numbers for a filesystem with these block counts.
pub open spec fn statfs_of(space: HostSpace) -> Statfs {
    Statfs {
        blocks: space.blocks,
        bfree: space.bfree,
        bavail: space.bavail,
        files: 0,
        ffree: 1_000_000,
        bsize: 4096,
        namelen: 255,
        frsize: 4096,
    }
}

/// The space under a ceiling, in blocks of 4096 bytes.
pub open spec fn space_under(max_size: u64, used: u64) -> HostSpace {
    let free = if used < max_size {
        max_size - used
    } else {
        0
    };
    HostSpace {
        blocks: max_size / 4096,
        bfree: (free / 4096) as u64,
        bavail: (free / 4096) as u64,
    }
}

impl Stat {
    pub fn new(fs: CofferFS) -> (op: Self)
        ensures
            op == Stat::start(fs),
    {
        Stat { fs, stage: StatStage::Start }
    }

    pub open spec fn start(fs: CofferFS) -> Stat {
        Stat { fs, stage: StatStage::Start }
    }

    pub open spec fn at(self, stage: StatStage) -> Stat {
        Stat { stage, ..self }
    }

    fn report<'a>(space: HostSpace) -> (action: FsAction<'a>)
        ensures
            action@ == ActionView::Reply(Reply::Statfs(statfs_of(space))),
    {
        Action::Reply(
            Reply::Statfs(
                Statfs {
                    blocks: space.blocks,
                    bfree: space.bfree,
                    bavail: space.bavail,
                    files: 0,
                    ffree: 1_000_000,
                    bsize: 4096,
                    namelen: 255,
                    frsize: 4096,
                },
            ),
        )
    }
}

impl<'a> Operation<'a> for Stat {
    open spec fn next(state: Stat, event: EventView) -> (Stat, ActionView) {
        match state.stage {
            StatStage::Start => (state.at(StatStage::Used), Action::TotalSize),
            StatStage::Used => if state.fs.max_size > 0 {
                let used = match event {
                    Event::Total(used) => used,
                    _ => 0,
                };
                (
                    state.at(StatStage::Over),
                    Action::Reply(Reply::Statfs(statfs_of(space_under(state.fs.max_size, used)))),
                )
            } else {
                (state.at(StatStage::Space), Action::HostSpace)
            },
            StatStage::Space => (
                state.at(StatStage::Over),
                Action::Reply(
                    Reply::Statfs(
                        statfs_of(
                            match event {
                                Event::Space(Some(space)) => space,
                                _ => HostSpace { blocks: 0, bfree: 0, bavail: 0 },
                            },
                        ),
                    ),
                ),
            ),
            StatStage::Over => (state, coffer::failure(Errno::EIO)),
        }
    }

    fn step(&mut self, event: DbEvent) -> (action: FsAction<'a>) {
        match self.stage {
            StatStage::Start => {
                self.stage = StatStage::Used;
                Action::TotalSize
            },
            StatStage::Used => {
                if self.fs.max_size > 0 {
                    let used: u64 = match event {
                        Event::Total(used) => used,
                        _ => 0,
                    };
                    let free: u64 = self.fs.max_size.saturating_sub(used) / 4096;
                    self.stage = StatStage::Over;
                    Self::report(
                        HostSpace { blocks: self.fs.max_size / 4096, bfree: free, bavail: free },
                    )
                } else {
                    self.stage = StatStage::Space;
                    Action::HostSpace
                }
            },
            StatStage::Space => {
                self.stage = StatStage::Over;
                Self::report(
                    match event {
                        Event::Space(Some(space)) => space,
                        _ => HostSpace { blocks: 0, bfree: 0, bavail: 0 },
                    },
                )
            },
            StatStage::Over => fail(Errno::EIO),
        }
    }
}

} // verus!
