//! `write`.
use vstd::prelude::*;

use crate::fs::blocks::{patch_block, put_block, split_pos};
use crate::fs::blocks;
use crate::fs::coffer::{errno_for, fail, kill_priv, CofferFS};
use crate::fs::coffer;
use crate::fs::operation::Operation;
use crate::fs::types::{
    Action, ActionView, DbEvent, DbStmt, Errno, Event, EventView, FsAction, Reply, Stamp, Stmt,
    StmtView, BLOCK_SIZE, MAX_FILE_SIZE,
};

verus! {

#[derive(Clone, Copy, Debug, PartialEq, Eq, Structural)]
pub enum WriteStage {
    Start,
    Begin,
    Row { now: Stamp },
    Ceiling { now: Stamp, old_size: u64, grow: u64 },
    /// `done` bytes are stored; the block of the next one is being fetched.
    Block { now: Stamp, old_size: u64, done: usize },
    /// The bytes up to `done` are being stored.
    Put { now: Stamp, old_size: u64, done: usize },
    Finish,
    Commit,
    Over,
}

/// Writes `data` at `offset` into the file `ino`; where `kill` holds, the file
/// loses its privileges.
#[derive(Clone, Copy, Debug)]
pub struct Write<'a> {
    pub fs: CofferFS,
    pub ino: u64,
    pub offset: u64,
    pub data: &'a [u8],
    pub kill: bool,
    pub stage: WriteStage,
}

impl<'a> View for Write<'a> {
    type V = Write<'a>;

    open spec fn view(&self) -> Write<'a> {
        *self
    }
}

impl<'a> Write<'a> {
    pub fn new(fs: CofferFS, ino: u64, offset: u64, data: &'a [u8], kill: bool) -> (op: Self)
        ensures
            op == Write::start(fs, ino, offset, data, kill),
    {
        Write { fs, ino, offset, data, kill, stage: WriteStage::Start }
    }

    pub open spec fn start(fs: CofferFS, ino: u64, offset: u64, data: &'a [u8], kill: bool) -> Write<
        'a,
    > {
        Write { fs, ino, offset, data, kill, stage: WriteStage::Start }
    }

    pub open spec fn at(self, stage: WriteStage) -> Write<'a> {
        Write { stage, ..self }
    }

    pub open spec fn over(self, errno: Errno) -> (Write<'a>, ActionView) {
        (self.at(WriteStage::Over), coffer::failure(errno))
    }

    /// The first position behind the data.
    pub open spec fn end(self) -> int {
        self.offset + self.data@.len()
    }

    /// The length of the file afterwards.
    pub open spec fn new_size(self, old_size: u64) -> u64 {
        if self.end() > old_size {
            self.end() as u64
        } else {
            old_size
        }
    }

    /// How many bytes the step after `done` bytes stores.
    pub open spec fn take(self, done: int) -> int {
        blocks::span(self.offset + done, self.data@.len() - done)
    }

    /// The statement that stores them, in a block that held `block`.
    pub open spec fn step_statement(self, done: int, block: Seq<u8>) -> StmtView {
        let pos = self.offset + done;
        blocks::storing(
            self.ino,
            blocks::block_no(pos),
            blocks::patched(
                block,
                blocks::block_off(pos),
                self.data@.subrange(done, done + self.take(done)),
            ),
        )
    }

    pub open spec fn last_statements(self, now: Stamp, old_size: u64) -> Seq<StmtView> {
        seq![Stmt::SetSize { ino: self.ino, size: self.new_size(old_size), now }] + (if self.kill {
            coffer::privilege_drop(self.ino)
        } else {
            Seq::empty()
        })
    }

    pub open spec fn onward(self, now: Stamp, old_size: u64, done: usize) -> (
        Write<'a>,
        ActionView,
    ) {
        if done < self.data@.len() {
            (
                self.at(WriteStage::Block { now, old_size, done }),
                Action::FetchBlock {
                    ino: self.ino,
                    block_no: blocks::block_no(self.offset + done),
                },
            )
        } else {
            (
                self.at(WriteStage::Finish),
                Action::Run(self.last_statements(now, old_size)),
            )
        }
    }

    fn go_on(&mut self, now: Stamp, old_size: u64, done: usize) -> (action: FsAction<'a>)
        requires
            old(self).end() <= MAX_FILE_SIZE,
        ensures
            (*final(self), action@) == old(self).onward(now, old_size, done),
    {
        if done < self.data.len() {
            let (block_no, _) = split_pos(self.offset + done as u64);
            self.stage = WriteStage::Block { now, old_size, done };
            Action::FetchBlock { ino: self.ino, block_no }
        } else {
            let needed: u64 = self.offset + self.data.len() as u64;
            let size: u64 = if needed > old_size { needed } else { old_size };
            let mut list: Vec<DbStmt<'a>> = Vec::new();
            list.push(Stmt::SetSize { ino: self.ino, size, now });
            if self.kill {
                let mut drops = kill_priv(self.ino);
                list.append(&mut drops);
            }
            self.stage = WriteStage::Finish;
            assert(crate::fs::types::stmts_view(list@) =~= self.last_statements(now, old_size));
            Action::Run(list)
        }
    }

    fn store(&mut self, now: Stamp, old_size: u64, done: usize, block: Vec<u8>) -> (action: FsAction<
        'a,
    >)
        requires
            old(self).end() <= MAX_FILE_SIZE,
            done < old(self).data@.len(),
        ensures
            *final(self) == old(self).at(
                WriteStage::Put { now, old_size, done: (done + old(self).take(done as int)) as usize },
            ),
            action@ == Action::<Seq<char>, Seq<StmtView>, crate::fs::types::ReplyView>::Run(
                seq![old(self).step_statement(done as int, block@)],
            ),
    {
        let (block_no, off) = split_pos(self.offset + done as u64);
        let room: usize = BLOCK_SIZE as usize - off;
        let left: usize = self.data.len() - done;
        let take: usize = if room < left { room } else { left };
        let content = patch_block(block, off, self.data, done, take);
        let mut list: Vec<DbStmt<'a>> = Vec::new();
        list.push(put_block(self.ino, block_no, content));
        self.stage = WriteStage::Put { now, old_size, done: done + take };
        assert(crate::fs::types::stmts_view(list@) =~= seq![
            old(self).step_statement(done as int, block@),
        ]);
        Action::Run(list)
    }
}

impl<'a> Operation<'a> for Write<'a> {
    open spec fn next(state: Write<'a>, event: EventView) -> (Write<'a>, ActionView) {
        if state.fs.read_only {
            state.over(Errno::EROFS)
        } else if state.end() > MAX_FILE_SIZE {
            state.over(Errno::EFBIG)
        } else {
            match (state.stage, event) {
                (WriteStage::Start, _) => (state.at(WriteStage::Begin), Action::Begin),
                (WriteStage::Begin, Event::Begun { now }) => (
                    state.at(WriteStage::Row { now }),
                    Action::FetchRow { ino: state.ino },
                ),
                (WriteStage::Row { .. }, Event::Row(None)) => state.over(Errno::ENOENT),
                (WriteStage::Row { now }, Event::Row(Some(row))) => if state.fs.max_size != 0
                    && state.end() > row.size {
                    (
                        state.at(
                            WriteStage::Ceiling {
                                now,
                                old_size: row.size,
                                grow: (state.end() - row.size) as u64,
                            },
                        ),
                        Action::TotalSize,
                    )
                } else {
                    state.onward(now, row.size, 0)
                },
                (WriteStage::Ceiling { now, old_size, grow }, Event::Total(used)) =>
                    if state.fs.over_ceiling(used, grow as int) {
                        state.over(Errno::ENOSPC)
                    } else {
                        state.onward(now, old_size, 0)
                    },
                (WriteStage::Ceiling { now, old_size, .. }, _) => state.onward(now, old_size, 0),
                (WriteStage::Block { now, old_size, done }, Event::Block(block)) =>
                    if done < state.data@.len() {
                        (
                            state.at(
                                WriteStage::Put {
                                    now,
                                    old_size,
                                    done: (done + state.take(done as int)) as usize,
                                },
                            ),
                            Action::Run(seq![state.step_statement(done as int, block)]),
                        )
                    } else {
                        state.over(Errno::EIO)
                    },
                (WriteStage::Put { now, old_size, done }, Event::Ran) => state.onward(
                    now,
                    old_size,
                    done,
                ),
                (WriteStage::Finish, Event::Ran) => (state.at(WriteStage::Commit), Action::Commit),
                (WriteStage::Commit, Event::Committed) => (
                    state.at(WriteStage::Over),
                    Action::Reply(Reply::Written(state.data@.len() as u32)),
                ),
                (WriteStage::Put { .. }, _) | (WriteStage::Finish, _) | (WriteStage::Commit, _) =>
                    state.over(coffer::errno_for_event(event)),
                _ => state.over(Errno::EIO),
            }
        }
    }

    fn step(&mut self, event: DbEvent) -> (action: FsAction<'a>) {
        let stage = self.stage;
        self.stage = WriteStage::Over;
        if self.fs.read_only {
            return fail(Errno::EROFS);
        }
        if self.offset > MAX_FILE_SIZE || self.data.len() as u64 > MAX_FILE_SIZE - self.offset {
            return fail(Errno::EFBIG);
        }
        match (stage, event) {
            (WriteStage::Start, _) => {
                self.stage = WriteStage::Begin;
                Action::Begin
            },
            (WriteStage::Begin, Event::Begun { now }) => {
                self.stage = WriteStage::Row { now };
                Action::FetchRow { ino: self.ino }
            },
            (WriteStage::Row { .. }, Event::Row(None)) => fail(Errno::ENOENT),
            (WriteStage::Row { now }, Event::Row(Some(row))) => {
                let needed: u64 = self.offset + self.data.len() as u64;
                if self.fs.max_size != 0 && needed > row.size {
                    self.stage = WriteStage::Ceiling {
                        now,
                        old_size: row.size,
                        grow: needed - row.size,
                    };
                    Action::TotalSize
                } else {
                    self.go_on(now, row.size, 0)
                }
            },
            (WriteStage::Ceiling { now, old_size, grow }, Event::Total(used)) => {
                if self.fs.exceeds(used, grow) {
                    fail(Errno::ENOSPC)
                } else {
                    self.go_on(now, old_size, 0)
                }
            },
            (WriteStage::Ceiling { now, old_size, .. }, _) => self.go_on(now, old_size, 0),
            (WriteStage::Block { now, old_size, done }, Event::Block(block)) => {
                if done < self.data.len() {
                    self.store(now, old_size, done, block)
                } else {
                    fail(Errno::EIO)
                }
            },
            (WriteStage::Put { now, old_size, done }, Event::Ran) => self.go_on(
                now,
                old_size,
                done,
            ),
            (WriteStage::Finish, Event::Ran) => {
                self.stage = WriteStage::Commit;
                Action::Commit
            },
            (WriteStage::Commit, Event::Committed) => Action::Reply(
                Reply::Written(self.data.len() as u32),
            ),
            (WriteStage::Put { .. }, event) | (WriteStage::Finish, event) | (
                WriteStage::Commit,
                event,
            ) => fail(errno_for(&event)),
            _ => fail(Errno::EIO),
        }
    }
}

} // verus!
