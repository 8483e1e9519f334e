//! What `read` answers.
use vstd::prelude::*;

use crate::fs::blocks;
use crate::fs::operation;
use crate::fs::read::{Read, ReadStage, ReadView};
use crate::fs::read;
use crate::fs::tables::{Tables, World};
use crate::fs::types::{
    ActionView, Errno, Event, EventView, HostSpace, Reply, ReplyView, Stamp, MAX_FILE_SIZE,
};

verus! {

/// The bytes of `content` from `offset` on, `size` at most.
pub open spec fn slice(content: Seq<u8>, offset: u64, size: u32) -> Seq<u8> {
    if offset >= content.len() {
        Seq::empty()
    } else if offset + size < content.len() {
        content.subrange(offset as int, offset + size)
    } else {
        content.subrange(offset as int, content.len() as int)
    }
}

/// From the place `pos` on.
proof fn lemma_read_on(
    state: ReadView,
    t: Tables,
    pos: u64,
    end: u64,
    now: Stamp,
    host: Option<HostSpace>,
) -> (steps: nat)
    requires
        t.inodes.contains_key(state.ino),
        t.inodes[state.ino].row.size <= MAX_FILE_SIZE,
        end <= t.inodes[state.ino].row.size,
        state.offset <= pos <= end,
        end - state.offset <= u32::MAX,
        state.out == t.content(state.ino).subrange(state.offset as int, pos as int),
    ensures
        ({
            let world = World::at_rest(t, now, host);
            let (state2, action) = state.onward(pos, end);
            let (world2, event) = world.perform(action);
            let reply = ReplyView::Data(
                t.content(state.ino).subrange(state.offset as int, end as int),
            );
            if pos < end {
                operation::run::<Read<Vec<u8>>>(state2, event, world2, steps) == Some(
                    (reply, world),
                )
            } else {
                action == ActionView::Reply(reply)
            }
        }),
    decreases end - pos,
{
    if pos >= end {
        0
    } else {
        let world = World::at_rest(t, now, host);
        let content = t.content(state.ino);
        let (state2, action) = state.onward(pos, end);
        let block = t.block(state.ino, blocks::block_no(pos as int));
        let event = EventView::Block(block);
        let len = blocks::span(pos as int, end - pos);
        let pos2 = (pos + len) as u64;
        let state3 = state2.with_block(pos, end, block);
        let chunk = blocks::chunk_of(block, blocks::block_off(pos as int), len as nat);
        assert(chunk =~= content.subrange(pos as int, pos2 as int)) by {
            assert forall|i: int| 0 <= i < len implies chunk[i] == content[pos + i] by {
                assert(blocks::block_no(pos + i) == blocks::block_no(pos as int));
                assert(blocks::block_off(pos + i) == blocks::block_off(pos as int) + i);
            }
        }
        assert(state3.out =~= content.subrange(state.offset as int, pos2 as int));
        let steps = lemma_read_on(state3, t, pos2, end, now, host);
        if pos2 < end {
            operation::lemma_step::<Read<Vec<u8>>>(state2, event, world, steps + 1);
        }
        steps + 1
    }
}

/// `read` answers with the bytes of the file in the range that was asked for,
/// as far as the file goes, and changes nothing.
pub proof fn read_answers(
    t: Tables,
    ino: u64,
    offset: u64,
    size: u32,
    now: Stamp,
    host: Option<HostSpace>,
)
    requires
        t.sizes_fit(),
    ensures
        operation::answers::<Read<Vec<u8>>>(
            ReadView::start(ino, offset, size),
            t,
            now,
            host,
            if t.inodes.contains_key(ino) {
                Reply::Data(slice(t.content(ino), offset, size))
            } else {
                Reply::Error(Errno::ENOENT)
            },
            t,
        ),
{
    let world = World::at_rest(t, now, host);
    let start = ReadView::start(ino, offset, size);
    let asked = Read { stage: ReadStage::Row, ..start };
    let rowed = Event::Row(t.row(ino));
    if t.inodes.contains_key(ino) {
        let content = t.content(ino);
        let end = read::read_end(offset, size, t.inodes[ino].row.size);
        let reply = Reply::Data(slice(content, offset, size));
        if offset < end {
            assert(asked.out =~= content.subrange(offset as int, offset as int));
            let steps = lemma_read_on(asked, t, offset, end, now, host);
            operation::lemma_step::<Read<Vec<u8>>>(asked, rowed, world, steps + 1);
            operation::lemma_step::<Read<Vec<u8>>>(start, Event::Start, world, steps + 2);
            assert(slice(content, offset, size) =~= content.subrange(offset as int, end as int));
            assert(operation::ends_after::<Read<Vec<u8>>>(start, world, steps + 2, reply, t));
        } else {
            assert(slice(content, offset, size) =~= Seq::empty());
            operation::lemma_step::<Read<Vec<u8>>>(start, Event::Start, world, 1);
            assert(operation::ends_after::<Read<Vec<u8>>>(start, world, 1, reply, t));
        }
    } else {
        operation::lemma_step::<Read<Vec<u8>>>(start, Event::Start, world, 1);
        assert(operation::ends_after::<Read<Vec<u8>>>(
            start,
            world,
            1,
            Reply::Error(Errno::ENOENT),
            t,
        ));
    }
}

} // verus!
