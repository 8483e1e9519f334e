//! Extended attributes.
use vstd::prelude::*;
use vstd::slice::slice_to_vec;

use crate::fs::coffer::{fail, CofferFS};
use crate::fs::coffer;
use crate::fs::operation::Operation;
use crate::fs::types::{
    Action, ActionView, DbEvent, DbStmt, Errno, Event, EventView, FsAction, FsReply, Reply,
    ReplyView, Stamp, Stmt, StmtView, XATTR_CREATE, XATTR_NAME_MAX, XATTR_REPLACE, XATTR_SIZE_MAX,
};

verus! {

/// How `getxattr` and `listxattr` hand out their answer: a caller without a
/// buffer asks how long it is; else it must fit.
pub open spec fn sized_reply(size: u32, data: Seq<u8>) -> ReplyView {
    if size == 0 {
        Reply::XattrSize(data.len() as u32)
    } else if data.len() > size {
        Reply::Error(Errno::ERANGE)
    } else {
        Reply::Data(data)
    }
}

pub fn reply_xattr(size: u32, data: Vec<u8>) -> (reply: FsReply)
    ensures
        reply@ == sized_reply(size, data@),
{
    if size == 0 {
        Reply::XattrSize(data.len() as u32)
    } else if data.len() > size as usize {
        Reply::Error(Errno::ERANGE)
    } else {
        Reply::Data(data)
    }
}

#[derive(Clone, Copy, Debug, PartialEq, Eq, Structural)]
pub enum SetStage {
    Start,
    Begin,
    Row { now: Stamp },
    Exists { now: Stamp },
    Put,
    Commit,
    Over,
}

/// `setxattr`. The name is `None` where it is not valid UTF-8.
#[derive(Clone, Copy, Debug)]
pub struct Setxattr<'a> {
    pub fs: CofferFS,
    pub ino: u64,
    pub name: Option<&'a str>,
    pub value: &'a [u8],
    pub flags: i32,
    pub stage: SetStage,
}

impl<'a> View for Setxattr<'a> {
    type V = Setxattr<'a>;

    open spec fn view(&self) -> Setxattr<'a> {
        *self
    }
}

impl<'a> Setxattr<'a> {
    pub fn new(fs: CofferFS, ino: u64, name: Option<&'a str>, value: &'a [u8], flags: i32) -> (op:
        Self)
        ensures
            op == Setxattr::start(fs, ino, name, value, flags),
    {
        Setxattr { fs, ino, name, value, flags, stage: SetStage::Start }
    }

    pub open spec fn start(
        fs: CofferFS,
        ino: u64,
        name: Option<&'a str>,
        value: &'a [u8],
        flags: i32,
    ) -> Setxattr<'a> {
        Setxattr { fs, ino, name, value, flags, stage: SetStage::Start }
    }

    pub open spec fn at(self, stage: SetStage) -> Setxattr<'a> {
        Setxattr { stage, ..self }
    }

    pub open spec fn over(self, errno: Errno) -> (Setxattr<'a>, ActionView) {
        (self.at(SetStage::Over), coffer::failure(errno))
    }

    /// Why the call is refused whatever the container holds.
    pub open spec fn refusal(self) -> Option<Errno> {
        if self.fs.read_only {
            Some(Errno::EROFS)
        } else if !self.fs.has_xattrs {
            Some(Errno::ENOTSUP)
        } else {
            match self.name {
                None => Some(Errno::EINVAL),
                Some(name) => if name@.len() == 0 || coffer::byte_len(name@) > XATTR_NAME_MAX {
                    Some(Errno::ERANGE)
                } else if self.value@.len() > XATTR_SIZE_MAX {
                    Some(Errno::E2BIG)
                } else {
                    None
                },
            }
        }
    }

    /// Why it is refused once it is known whether the attribute exists.
    pub open spec fn flag_refusal(self, exists: bool) -> Option<Errno> {
        if exists && self.flags & XATTR_CREATE != 0 {
            Some(Errno::EEXIST)
        } else if !exists && self.flags & XATTR_REPLACE != 0 {
            Some(Errno::ENODATA)
        } else {
            None
        }
    }

    pub open spec fn statements(self, now: Stamp) -> Seq<StmtView> {
        seq![
            Stmt::PutXattr { ino: self.ino, name: self.name->Some_0@, value: self.value@ },
            Stmt::SetCtime { ino: self.ino, ctime: now },
        ]
    }

    fn refused(&self) -> (r: Option<Errno>)
        ensures
            r == self.refusal(),
    {
        if self.fs.read_only {
            return Some(Errno::EROFS);
        }
        if !self.fs.has_xattrs {
            return Some(Errno::ENOTSUP);
        }
        match self.name {
            None => Some(Errno::EINVAL),
            Some(name) => {
                if name.unicode_len() == 0 || name.len() > XATTR_NAME_MAX {
                    Some(Errno::ERANGE)
                } else if self.value.len() > XATTR_SIZE_MAX {
                    Some(Errno::E2BIG)
                } else {
                    None
                }
            },
        }
    }
}

impl<'a> Operation<'a> for Setxattr<'a> {
    open spec fn next(state: Setxattr<'a>, event: EventView) -> (Setxattr<'a>, ActionView) {
        match state.refusal() {
            Some(errno) => state.over(errno),
            None => match (state.stage, event) {
                (SetStage::Start, _) => (state.at(SetStage::Begin), Action::Begin),
                (SetStage::Begin, Event::Begun { now }) => (
                    state.at(SetStage::Row { now }),
                    Action::FetchRow { ino: state.ino },
                ),
                (SetStage::Row { .. }, Event::Row(None)) => state.over(Errno::ENOENT),
                (SetStage::Row { now }, Event::Row(Some(_))) => (
                    state.at(SetStage::Exists { now }),
                    Action::HasXattr { ino: state.ino, name: state.name->Some_0@ },
                ),
                (SetStage::Exists { now }, Event::Flag(exists)) => match state.flag_refusal(
                    exists,
                ) {
                    Some(errno) => state.over(errno),
                    None => (state.at(SetStage::Put), Action::Run(state.statements(now))),
                },
                (SetStage::Put, Event::Ran) => (state.at(SetStage::Commit), Action::Commit),
                (SetStage::Commit, Event::Committed) => (
                    state.at(SetStage::Over),
                    Action::Reply(Reply::Done),
                ),
                _ => state.over(Errno::EIO),
            },
        }
    }

    fn step(&mut self, event: DbEvent) -> (action: FsAction<'a>) {
        let stage = self.stage;
        self.stage = SetStage::Over;
        if let Some(errno) = self.refused() {
            return fail(errno);
        }
        let name = match self.name {
            Some(name) => name,
            None => {
                return fail(Errno::EINVAL);
            },
        };
        match (stage, event) {
            (SetStage::Start, _) => {
                self.stage = SetStage::Begin;
                Action::Begin
            },
            (SetStage::Begin, Event::Begun { now }) => {
                self.stage = SetStage::Row { now };
                Action::FetchRow { ino: self.ino }
            },
            (SetStage::Row { .. }, Event::Row(None)) => fail(Errno::ENOENT),
            (SetStage::Row { now }, Event::Row(Some(_))) => {
                self.stage = SetStage::Exists { now };
                Action::HasXattr { ino: self.ino, name }
            },
            (SetStage::Exists { now }, Event::Flag(exists)) => {
                if exists && self.flags & XATTR_CREATE != 0 {
                    return fail(Errno::EEXIST);
                }
                if !exists && self.flags & XATTR_REPLACE != 0 {
                    return fail(Errno::ENODATA);
                }
                let mut list: Vec<DbStmt<'a>> = Vec::new();
                list.push(Stmt::PutXattr { ino: self.ino, name, value: slice_to_vec(self.value) });
                list.push(Stmt::SetCtime { ino: self.ino, ctime: now });
                self.stage = SetStage::Put;
                assert(crate::fs::types::stmts_view(list@) =~= self.statements(now));
                Action::Run(list)
            },
            (SetStage::Put, Event::Ran) => {
                self.stage = SetStage::Commit;
                Action::Commit
            },
            (SetStage::Commit, Event::Committed) => Action::Reply(Reply::Done),
            _ => fail(Errno::EIO),
        }
    }
}

#[derive(Clone, Copy, Debug, PartialEq, Eq, Structural)]
pub enum GetStage {
    Start,
    Value,
    Over,
}

/// `getxattr`. The name is `None` where it is not valid UTF-8.
#[derive(Clone, Copy, Debug)]
pub struct Getxattr<'a> {
    pub fs: CofferFS,
    pub ino: u64,
    pub name: Option<&'a str>,
    pub size: u32,
    pub stage: GetStage,
}

impl<'a> View for Getxattr<'a> {
    type V = Getxattr<'a>;

    open spec fn view(&self) -> Getxattr<'a> {
        *self
    }
}

impl<'a> Getxattr<'a> {
    pub fn new(fs: CofferFS, ino: u64, name: Option<&'a str>, size: u32) -> (op: Self)
        ensures
            op == Getxattr::start(fs, ino, name, size),
    {
        Getxattr { fs, ino, name, size, stage: GetStage::Start }
    }

    pub open spec fn start(fs: CofferFS, ino: u64, name: Option<&'a str>, size: u32) -> Getxattr<
        'a,
    > {
        Getxattr { fs, ino, name, size, stage: GetStage::Start }
    }

    pub open spec fn at(self, stage: GetStage) -> Getxattr<'a> {
        Getxattr { stage, ..self }
    }

    pub open spec fn over(self, errno: Errno) -> (Getxattr<'a>, ActionView) {
        (self.at(GetStage::Over), coffer::failure(errno))
    }
}

impl<'a> Operation<'a> for Getxattr<'a> {
    open spec fn next(state: Getxattr<'a>, event: EventView) -> (Getxattr<'a>, ActionView) {
        match (state.stage, event) {
            (GetStage::Start, _) => match state.name {
                None => state.over(Errno::EINVAL),
                Some(name) => if state.fs.has_xattrs {
                    (
                        state.at(GetStage::Value),
                        Action::FetchXattr { ino: state.ino, name: name@ },
                    )
                } else {
                    state.over(Errno::ENODATA)
                },
            },
            (GetStage::Value, Event::Value(Some(value))) => (
                state.at(GetStage::Over),
                Action::Reply(sized_reply(state.size, value)),
            ),
            (GetStage::Value, Event::Value(None)) => state.over(Errno::ENODATA),
            _ => state.over(Errno::EIO),
        }
    }

    fn step(&mut self, event: DbEvent) -> (action: FsAction<'a>) {
        let stage = self.stage;
        self.stage = GetStage::Over;
        match (stage, event) {
            (GetStage::Start, _) => match self.name {
                None => fail(Errno::EINVAL),
                Some(name) => {
                    if self.fs.has_xattrs {
                        self.stage = GetStage::Value;
                        Action::FetchXattr { ino: self.ino, name }
                    } else {
                        fail(Errno::ENODATA)
                    }
                },
            },
            (GetStage::Value, Event::Value(Some(value))) => Action::Reply(
                reply_xattr(self.size, value),
            ),
            (GetStage::Value, Event::Value(None)) => fail(Errno::ENODATA),
            _ => fail(Errno::EIO),
        }
    }
}

/// The format of `listxattr(2)`: every name with a zero byte behind it.
pub open spec fn joined_names(names: Seq<Seq<char>>) -> Seq<u8>
    decreases names.len(),
{
    if names.len() == 0 {
        Seq::empty()
    } else {
        joined_names(names.drop_last()) + vstd::utf8::encode_utf8(names.last()) + seq![0u8]
    }
}

pub fn join_names(names: &Vec<String>) -> (out: Vec<u8>)
    ensures
        out@ == joined_names(Seq::new(names@.len(), |i: int| names@[i]@)),
{
    let ghost all = Seq::new(names@.len(), |i: int| names@[i]@);
    let mut out: Vec<u8> = Vec::new();
    let mut i: usize = 0;
    assert(all.take(0) =~= Seq::empty());
    while i < names.len()
        invariant
            i <= names@.len(),
            all == Seq::new(names@.len(), |k: int| names@[k]@),
            out@ == joined_names(all.take(i as int)),
        decreases names@.len() - i,
    {
        let bytes = names[i].as_str().as_bytes();
        let ghost before = out@;
        out.extend_from_slice(bytes);
        assert(out@ =~= before + bytes@);
        out.push(0);
        assert(all.take(i + 1).drop_last() =~= all.take(i as int));
        assert(out@ =~= joined_names(all.take(i + 1)));
        i += 1;
    }
    assert(all.take(names@.len() as int) =~= all);
    out
}

/// `listxattr`.
#[derive(Clone, Copy, Debug, PartialEq, Eq, Structural)]
pub struct Listxattr {
    pub fs: CofferFS,
    pub ino: u64,
    pub size: u32,
    pub stage: GetStage,
}

impl View for Listxattr {
    type V = Listxattr;

    open spec fn view(&self) -> Listxattr {
        *self
    }
}

impl Listxattr {
    pub fn new(fs: CofferFS, ino: u64, size: u32) -> (op: Self)
        ensures
            op == Listxattr::start(fs, ino, size),
    {
        Listxattr { fs, ino, size, stage: GetStage::Start }
    }

    pub open spec fn start(fs: CofferFS, ino: u64, size: u32) -> Listxattr {
        Listxattr { fs, ino, size, stage: GetStage::Start }
    }

    pub open spec fn at(self, stage: GetStage) -> Listxattr {
        Listxattr { stage, ..self }
    }
}

impl<'a> Operation<'a> for Listxattr {
    open spec fn next(state: Listxattr, event: EventView) -> (Listxattr, ActionView) {
        match (state.stage, event) {
            (GetStage::Start, _) => if state.fs.has_xattrs {
                (state.at(GetStage::Value), Action::ListXattrs { ino: state.ino })
            } else {
                (
                    state.at(GetStage::Over),
                    Action::Reply(sized_reply(state.size, Seq::empty())),
                )
            },
            (GetStage::Value, Event::Names(names)) => (
                state.at(GetStage::Over),
                Action::Reply(sized_reply(state.size, joined_names(names))),
            ),
            _ => (state.at(GetStage::Over), coffer::failure(Errno::EIO)),
        }
    }

    fn step(&mut self, event: DbEvent) -> (action: FsAction<'a>) {
        let stage = self.stage;
        self.stage = GetStage::Over;
        match (stage, event) {
            (GetStage::Start, _) => {
                if self.fs.has_xattrs {
                    self.stage = GetStage::Value;
                    Action::ListXattrs { ino: self.ino }
                } else {
                    let none: Vec<u8> = Vec::new();
                    assert(none@ =~= Seq::empty());
                    Action::Reply(reply_xattr(self.size, none))
                }
            },
            (GetStage::Value, Event::Names(names)) => Action::Reply(
                reply_xattr(self.size, join_names(&names)),
            ),
            _ => fail(Errno::EIO),
        }
    }
}

#[derive(Clone, Copy, Debug, PartialEq, Eq, Structural)]
pub enum DropStage {
    Start,
    Begin,
    Gone { now: Stamp },
    Touch,
    Commit,
    Over,
}

/// `removexattr`. The name is `None` where it is not valid UTF-8.
#[derive(Clone, Copy, Debug)]
pub struct Removexattr<'a> {
    pub fs: CofferFS,
    pub ino: u64,
    pub name: Option<&'a str>,
    pub stage: DropStage,
}

impl<'a> View for Removexattr<'a> {
    type V = Removexattr<'a>;

    open spec fn view(&self) -> Removexattr<'a> {
        *self
    }
}

impl<'a> Removexattr<'a> {
    pub fn new(fs: CofferFS, ino: u64, name: Option<&'a str>) -> (op: Self)
        ensures
            op == Removexattr::start(fs, ino, name),
    {
        Removexattr { fs, ino, name, stage: DropStage::Start }
    }

    pub open spec fn start(fs: CofferFS, ino: u64, name: Option<&'a str>) -> Removexattr<'a> {
        Removexattr { fs, ino, name, stage: DropStage::Start }
    }

    pub open spec fn at(self, stage: DropStage) -> Removexattr<'a> {
        Removexattr { stage, ..self }
    }

    pub open spec fn over(self, errno: Errno) -> (Removexattr<'a>, ActionView) {
        (self.at(DropStage::Over), coffer::failure(errno))
    }

    /// Why the call is refused whatever the container holds.
    pub open spec fn refusal(self) -> Option<Errno> {
        if self.fs.read_only {
            Some(Errno::EROFS)
        } else if self.name is None {
            Some(Errno::EINVAL)
        } else if !self.fs.has_xattrs {
            Some(Errno::ENODATA)
        } else {
            None
        }
    }
}

impl<'a> Operation<'a> for Removexattr<'a> {
    open spec fn next(state: Removexattr<'a>, event: EventView) -> (Removexattr<'a>, ActionView) {
        match state.refusal() {
            Some(errno) => state.over(errno),
            None => match (state.stage, event) {
                (DropStage::Start, _) => (state.at(DropStage::Begin), Action::Begin),
                (DropStage::Begin, Event::Begun { now }) => (
                    state.at(DropStage::Gone { now }),
                    Action::RemoveXattr { ino: state.ino, name: state.name->Some_0@ },
                ),
                (DropStage::Gone { .. }, Event::Flag(false)) => state.over(Errno::ENODATA),
                (DropStage::Gone { now }, Event::Flag(true)) => (
                    state.at(DropStage::Touch),
                    Action::Run(seq![Stmt::SetCtime { ino: state.ino, ctime: now }]),
                ),
                (DropStage::Touch, Event::Ran) => (state.at(DropStage::Commit), Action::Commit),
                (DropStage::Commit, Event::Committed) => (
                    state.at(DropStage::Over),
                    Action::Reply(Reply::Done),
                ),
                _ => state.over(Errno::EIO),
            },
        }
    }

    fn step(&mut self, event: DbEvent) -> (action: FsAction<'a>) {
        let stage = self.stage;
        self.stage = DropStage::Over;
        if self.fs.read_only {
            return fail(Errno::EROFS);
        }
        let name = match self.name {
            Some(name) => name,
            None => {
                return fail(Errno::EINVAL);
            },
        };
        if !self.fs.has_xattrs {
            return fail(Errno::ENODATA);
        }
        match (stage, event) {
            (DropStage::Start, _) => {
                self.stage = DropStage::Begin;
                Action::Begin
            },
            (DropStage::Begin, Event::Begun { now }) => {
                self.stage = DropStage::Gone { now };
                Action::RemoveXattr { ino: self.ino, name }
            },
            (DropStage::Gone { .. }, Event::Flag(false)) => fail(Errno::ENODATA),
            (DropStage::Gone { now }, Event::Flag(true)) => {
                let mut list: Vec<DbStmt<'a>> = Vec::new();
                list.push(Stmt::SetCtime { ino: self.ino, ctime: now });
                self.stage = DropStage::Touch;
                assert(crate::fs::types::stmts_view(list@) =~= seq![
                    StmtView::SetCtime { ino: self.ino, ctime: now },
                ]);
                Action::Run(list)
            },
            (DropStage::Touch, Event::Ran) => {
                self.stage = DropStage::Commit;
                Action::Commit
            },
            (DropStage::Commit, Event::Committed) => Action::Reply(Reply::Done),
            _ => fail(Errno::EIO),
        }
    }
}

} // verus!
