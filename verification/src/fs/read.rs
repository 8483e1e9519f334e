//! `read`.
use vstd::prelude::*;

use crate::fs::blocks::{append_chunk, split_pos};
use crate::fs::blocks;
use crate::fs::coffer::fail;
use crate::fs::coffer;
use crate::fs::operation::Operation;
use crate::fs::types::{
    Action, ActionView, DbEvent, Errno, Event, EventView, FsAction, Reply, Row, BLOCK_SIZE,
};

verus! {

#[derive(Clone, Copy, Debug, PartialEq, Eq, Structural)]
pub enum ReadStage {
    Start,
    Row,
    /// Everything before `pos` is read; reading stops at `end`.
    Block { pos: u64, end: u64 },
    Over,
}

/// Reads up to `size` bytes at `offset` from the file `ino`.
#[derive(Debug)]
pub struct Read<B> {
    pub ino: u64,
    pub offset: u64,
    pub size: u32,
    pub out: B,
    pub stage: ReadStage,
}

pub type ReadView = Read<Seq<u8>>;

impl View for Read<Vec<u8>> {
    type V = ReadView;

    open spec fn view(&self) -> ReadView {
        Read {
            ino: self.ino,
            offset: self.offset,
            size: self.size,
            out: self.out@,
            stage: self.stage,
        }
    }
}

/// Where reading stops.
pub open spec fn read_end(offset: u64, size: u32, file_size: u64) -> u64 {
    if offset + size < file_size {
        (offset + size) as u64
    } else {
        file_size
    }
}

impl Read<Seq<u8>> {
    pub open spec fn start(ino: u64, offset: u64, size: u32) -> ReadView {
        Read { ino, offset, size, out: Seq::empty(), stage: ReadStage::Start }
    }

    pub open spec fn over(self, errno: Errno) -> (ReadView, ActionView) {
        (Read { stage: ReadStage::Over, ..self }, coffer::failure(errno))
    }

    pub open spec fn onward(self, pos: u64, end: u64) -> (ReadView, ActionView) {
        if pos < end {
            (
                Read { stage: ReadStage::Block { pos, end }, ..self },
                Action::FetchBlock { ino: self.ino, block_no: blocks::block_no(pos as int) },
            )
        } else {
            (
                Read { stage: ReadStage::Over, out: Seq::empty(), ..self },
                Action::Reply(Reply::Data(self.out)),
            )
        }
    }

    /// The read with what the block of `pos` holds of it added.
    pub open spec fn with_block(self, pos: u64, end: u64, block: Seq<u8>) -> ReadView {
        Read {
            out: self.out + blocks::chunk_of(
                block,
                blocks::block_off(pos as int),
                blocks::span(pos as int, end - pos) as nat,
            ),
            ..self
        }
    }

    /// A block that cannot be fetched reads as zeros.
    pub open spec fn block_in(event: EventView) -> Seq<u8> {
        match event {
            Event::Block(block) => block,
            _ => Seq::empty(),
        }
    }
}

impl Read<Vec<u8>> {
    pub fn new(ino: u64, offset: u64, size: u32) -> (op: Self)
        ensures
            op@ == ReadView::start(ino, offset, size),
    {
        Read { ino, offset, size, out: Vec::new(), stage: ReadStage::Start }
    }

    fn go_on<'a>(&mut self, pos: u64, end: u64) -> (action: FsAction<'a>)
        ensures
            (final(self)@, action@) == old(self)@.onward(pos, end),
    {
        if pos < end {
            let (block_no, _) = split_pos(pos);
            self.stage = ReadStage::Block { pos, end };
            Action::FetchBlock { ino: self.ino, block_no }
        } else {
            let mut out: Vec<u8> = Vec::new();
            std::mem::swap(&mut out, &mut self.out);
            self.stage = ReadStage::Over;
            Action::Reply(Reply::Data(out))
        }
    }
}

impl<'a> Operation<'a> for Read<Vec<u8>> {
    open spec fn next(state: ReadView, event: EventView) -> (ReadView, ActionView) {
        match (state.stage, event) {
            (ReadStage::Start, _) => (
                Read { stage: ReadStage::Row, out: Seq::empty(), ..state },
                Action::FetchRow { ino: state.ino },
            ),
            (ReadStage::Row, Event::Row(None)) => state.over(Errno::ENOENT),
            (ReadStage::Row, Event::Row(Some(row))) => state.onward(
                state.offset,
                read_end(state.offset, state.size, row.size),
            ),
            (ReadStage::Block { pos, end }, _) => if pos < end && state.out.len() + (end - pos)
                <= u32::MAX {
                state.with_block(pos, end, ReadView::block_in(event)).onward(
                    (pos + blocks::span(pos as int, end - pos)) as u64,
                    end,
                )
            } else {
                state.over(Errno::EIO)
            },
            _ => state.over(Errno::EIO),
        }
    }

    fn step(&mut self, event: DbEvent) -> (action: FsAction<'a>) {
        let stage = self.stage;
        self.stage = ReadStage::Over;
        match (stage, event) {
            (ReadStage::Start, _) => {
                self.out = Vec::new();
                self.stage = ReadStage::Row;
                Action::FetchRow { ino: self.ino }
            },
            (ReadStage::Row, Event::Row(None)) => fail(Errno::ENOENT),
            (ReadStage::Row, Event::Row(Some(row))) => {
                let asked: u64 = self.offset.saturating_add(self.size as u64);
                let end: u64 = if asked < row.size { asked } else { row.size };
                self.go_on(self.offset, end)
            },
            (ReadStage::Block { pos, end }, event) => {
                if !(pos < end && self.out.len() <= u32::MAX as usize && end - pos <= u32::MAX as u64
                    - self.out.len() as u64) {
                    return fail(Errno::EIO);
                }
                let block = match event {
                    Event::Block(block) => block,
                    _ => Vec::new(),
                };
                let (_, off) = split_pos(pos);
                let room: u64 = BLOCK_SIZE - off as u64;
                let len: u64 = if room < end - pos { room } else { end - pos };
                append_chunk(&mut self.out, &block, off, len as usize);
                assert(self@.out == old(self)@.with_block(
                    pos,
                    end,
                    ReadView::block_in(event@),
                ).out);
                self.go_on(pos + len, end)
            },
            _ => fail(Errno::EIO),
        }
    }
}

} // verus!
