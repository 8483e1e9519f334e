//! What `write` does.
use vstd::prelude::*;

use crate::fs::blocks;
use crate::fs::coffer::CofferFS;
use crate::fs::coffer;
use crate::fs::laws::privileges;
use crate::fs::laws::read;
use crate::fs::lemmas;
use crate::fs::operation;
use crate::fs::read::{Read, ReadView};
use crate::fs::tables::{Inode, Tables, World};
use crate::fs::types::{
    Action, Errno, Event, EventView, HostSpace, Reply, ReplyView, Row, RowView, Stamp, Stmt,
    BLOCK_SIZE, CAPABILITY_XATTR, MAX_FILE_SIZE, ROOT_INO,
};
use crate::fs::write::{Write, WriteStage};

verus! {

/// `content` with `data` over it at `offset`; what is skipped is zero.
pub open spec fn overwritten(content: Seq<u8>, offset: int, data: Seq<u8>) -> Seq<u8> {
    let end = offset + data.len();
    Seq::new(
        if content.len() < end {
            end as nat
        } else {
            content.len()
        },
        |i: int|
            if offset <= i < end {
                data[i - offset]
            } else if i < content.len() {
                content[i]
            } else {
                0
            },
    )
}

/// The row afterwards.
pub open spec fn written_row(row: RowView, end: int, kill: bool, now: Stamp) -> RowView {
    Row {
        size: if end > row.size {
            end as u64
        } else {
            row.size
        },
        mode: if kill {
            privileges::plain_mode(row.mode)
        } else {
            row.mode
        },
        mtime: now,
        ctime: now,
        ..row
    }
}

/// Whether `after` is `t` with `data` written into the file `ino` at `offset`.
/// No other file changed, and of this one nothing but its content, length and
/// times, and its privileges where those were to go.
pub open spec fn is_written(
    t: Tables,
    after: Tables,
    ino: u64,
    offset: u64,
    data: Seq<u8>,
    kill: bool,
    now: Stamp,
) -> bool {
    &&& after.content(ino) == overwritten(t.content(ino), offset as int, data)
    &&& after.inodes == t.inodes.insert(
        ino,
        Inode {
            row: written_row(t.inodes[ino].row, offset + data.len(), kill, now),
            ..t.inodes[ino]
        },
    )
    &&& forall|other: u64, b: i64|
        other != ino ==> #[trigger] after.block(other, b) == t.block(other, b)
    &&& after.xattrs == (if kill {
        t.xattrs.remove((ino, CAPABILITY_XATTR@))
    } else {
        t.xattrs
    })
    &&& after.last_ino == t.last_ino
}

/// Behind the end of a file everything is zero.
pub proof fn lemma_zero_behind(t: Tables, ino: u64, pos: int)
    requires
        t.data_in_bounds(),
        t.inodes.contains_key(ino),
        t.inodes[ino].row.size <= pos < MAX_FILE_SIZE,
    ensures
        t.byte_at(ino, pos) == 0,
{
    let b = blocks::block_no(pos);
    if t.data.contains_key((ino, b)) {
        assert(b * BLOCK_SIZE + blocks::block_off(pos) == pos);
    }
}

/// The tables in the middle of a write, `done` bytes on.
pub open spec fn midway(t: Tables, w: Tables, op: Write, done: int) -> bool {
    &&& w.inodes == t.inodes
    &&& w.xattrs == t.xattrs
    &&& w.last_ino == t.last_ino
    &&& forall|pos: int|
        0 <= pos < MAX_FILE_SIZE ==> #[trigger] w.byte_at(op.ino, pos) == (if op.offset <= pos
            < op.offset + done {
            op.data@[pos - op.offset]
        } else {
            t.byte_at(op.ino, pos)
        })
    &&& forall|k: (u64, i64)|
        k.0 != op.ino ==> (#[trigger] w.data.contains_key(k) <==> t.data.contains_key(k))
            && w.data[k] == t.data[k]
    &&& forall|k: (u64, i64)|
        k.0 == op.ino && #[trigger] w.data.contains_key(k) ==> {
            &&& k.1 >= 0
            &&& 0 < w.data[k].len() <= BLOCK_SIZE
            &&& k.1 * BLOCK_SIZE + w.data[k].len() <= t.inodes[op.ino].row.size || k.1 * BLOCK_SIZE
                + w.data[k].len() <= op.offset + done
        }
}

/// One step of the write.
pub proof fn lemma_store(t: Tables, w: Tables, op: Write, done: int)
    requires
        midway(t, w, op, done),
        0 <= done < op.data@.len(),
        op.end() <= MAX_FILE_SIZE,
    ensures
        ({
            let stmt = op.step_statement(
                done,
                w.block(op.ino, blocks::block_no(op.offset + done)),
            );
            &&& w.apply(stmt) is Some
            &&& midway(t, w.apply(stmt)->Some_0, op, done + op.take(done))
            &&& 0 < op.take(done) <= op.data@.len() - done
        }),
{
    let at = op.offset + done;
    let b = blocks::block_no(at);
    let off = blocks::block_off(at);
    let take = op.take(done);
    let chunk = op.data@.subrange(done, done + take);
    let held = w.block(op.ino, b);
    let block = blocks::patched(held, off, chunk);
    let w2 = w.apply(op.step_statement(done, held))->Some_0;
    assert(b * BLOCK_SIZE + off == at);
    assert(w2.data == w.data.insert((op.ino, b), block));
    assert forall|pos: int| 0 <= pos < MAX_FILE_SIZE implies #[trigger] w2.byte_at(op.ino, pos) == (
    if op.offset <= pos < op.offset + done + take {
        op.data@[pos - op.offset]
    } else {
        t.byte_at(op.ino, pos)
    }) by {
        let before = w.byte_at(op.ino, pos);
        if blocks::block_no(pos) == b {
            assert(b * BLOCK_SIZE + blocks::block_off(pos) == pos);
            assert(w2.block(op.ino, b) == block);
            assert(w2.byte_at(op.ino, pos) == blocks::byte_of(block, blocks::block_off(pos)));
            assert(before == blocks::byte_of(held, blocks::block_off(pos)));
        } else {
            assert(w2.block(op.ino, blocks::block_no(pos)) == w.block(
                op.ino,
                blocks::block_no(pos),
            ));
            if op.offset + done <= pos < op.offset + done + take {
                assert(blocks::block_no(pos) == b);
            }
        }
    }
}

/// The last statements of a write.
pub proof fn lemma_last(t: Tables, w: Tables, op: Write, now: Stamp)
    requires
        t.well_formed(),
        t.inodes.contains_key(op.ino),
        op.end() <= MAX_FILE_SIZE,
        midway(t, w, op, op.data@.len() as int),
    ensures
        ({
            let after = w.apply_all(op.last_statements(now, t.inodes[op.ino].row.size));
            &&& after is Some
            &&& is_written(t, after->Some_0, op.ino, op.offset, op.data@, op.kill, now)
            &&& after->Some_0.well_formed()
            &&& after->Some_0.total() == t.total() - t.inodes[op.ino].row.size + op.new_size(
                t.inodes[op.ino].row.size,
            )
        }),
{
    let ino = op.ino;
    let row = t.inodes[ino].row;
    let size = op.new_size(row.size);
    let first = Stmt::SetSize { ino, size, now };
    let drops = if op.kill {
        coffer::privilege_drop(ino)
    } else {
        Seq::empty()
    };
    let sized_row = Row { size, mtime: now, ctime: now, ..row };
    let sized = w.with_row(ino, sized_row);
    lemmas::lemma_apply_one(w, first);
    lemmas::lemma_apply_concat(w, seq![first], drops);
    lemmas::lemma_apply_empty(sized);
    privileges::lemma_privilege_drop(sized, ino);
    let after = if op.kill {
        privileges::without_privileges(sized, ino)
    } else {
        sized
    };
    assert(w.apply_all(op.last_statements(now, row.size)) == Some(after));
    assert(after.inodes =~= t.inodes.insert(
        ino,
        Inode { row: written_row(row, op.end(), op.kill, now), ..t.inodes[ino] },
    ));
    let content = t.content(ino);
    assert(after.content(ino) =~= overwritten(content, op.offset as int, op.data@)) by {
        assert forall|i: int| 0 <= i < size implies after.content(ino)[i] == overwritten(
            content,
            op.offset as int,
            op.data@,
        )[i] by {
            assert(after.byte_at(ino, i) == w.byte_at(ino, i));
            if i >= row.size {
                lemma_zero_behind(t, ino, i);
            }
        }
    }
    assert forall|other: u64, b: i64| other != ino implies #[trigger] after.block(other, b)
        == t.block(other, b) by {
        let k = (other, b);
        assert(w.data.contains_key(k) <==> t.data.contains_key(k));
    }
    // With the row alone the tables are well formed; then come the blocks.
    lemmas::lemma_with_row(t, ino, written_row(row, op.end(), op.kill, now));
    let shape = t.with_row(ino, written_row(row, op.end(), op.kill, now));
    assert(shape.inodes =~= after.inodes);
    assert forall|i: u64| #[trigger] after.inodes.contains_key(i) implies exists|n: nat|
        after.reaches_root(i, n) by {
        assert(shape.inodes.contains_key(i));
        let n = choose|n: nat| shape.reaches_root(i, n);
        lemmas::lemma_reaches_still(shape, after, i, n);
        assert(after.reaches_root(i, n));
    }
    assert forall|i: u64| after.inodes.contains_key(i) && i != ROOT_INO implies after.is_dir(
        #[trigger] after.inodes[i].parent,
    ) by {
        assert(shape.is_dir(shape.inodes[i].parent));
    }
    assert forall|k: (u64, i64)| #[trigger] after.data.contains_key(k) implies {
        &&& after.inodes.contains_key(k.0)
        &&& k.1 >= 0
        &&& 0 < after.data[k].len() <= BLOCK_SIZE
        &&& k.1 * BLOCK_SIZE + after.data[k].len() <= after.inodes[k.0].row.size
    } by {
        assert(w.data.contains_key(k));
        if k.0 != ino {
            assert(t.data.contains_key(k));
        }
    }
}

/// From `done` bytes on.
proof fn lemma_write_on<'a>(
    op: Write<'a>,
    t: Tables,
    w: Tables,
    done: usize,
    now: Stamp,
    host: Option<HostSpace>,
) -> (r: (nat, Tables))
    requires
        t.well_formed(),
        t.inodes.contains_key(op.ino),
        !op.fs.read_only,
        op.end() <= MAX_FILE_SIZE,
        done <= op.data@.len() <= usize::MAX,
        midway(t, w, op, done as int),
    ensures
        ({
            let (steps, after) = r;
            let world = World { committed: t, working: w, clock: now, host };
            let (state, action) = op.onward(now, t.inodes[op.ino].row.size, done);
            let (world2, event) = world.perform(action);
            let end = operation::run::<Write>(state, event, world2, steps);
            &&& end is Some
            &&& end->Some_0.0 == ReplyView::Written(op.data@.len() as u32)
            &&& end->Some_0.1.committed == after
            &&& is_written(t, after, op.ino, op.offset, op.data@, op.kill, now)
            &&& after.well_formed()
            &&& after.total() == t.total() - t.inodes[op.ino].row.size + op.new_size(
                t.inodes[op.ino].row.size,
            )
        }),
    decreases op.data@.len() - done,
{
    let old_size = t.inodes[op.ino].row.size;
    let world = World { committed: t, working: w, clock: now, host };
    let (state, action) = op.onward(now, old_size, done);
    if done >= op.data@.len() {
        lemma_last(t, w, op, now);
        let after = w.apply_all(op.last_statements(now, old_size))->Some_0;
        let working = World { working: after, ..world };
        let over = World { committed: after, ..working };
        assert(world.perform(action) == (working, EventView::Ran));
        operation::lemma_step::<Write>(state, Event::Ran, working, 1);
        assert(working.perform(Action::Commit) == (over, EventView::Committed));
        (1, after)
    } else {
        let block = w.block(op.ino, blocks::block_no(op.offset + done));
        let stmt = op.step_statement(done as int, block);
        lemma_store(t, w, op, done as int);
        lemmas::lemma_apply_one(w, stmt);
        let w2 = w.apply(stmt)->Some_0;
        let done2 = (done + op.take(done as int)) as usize;
        let put = op.at(WriteStage::Put { now, old_size, done: done2 });
        let world2 = World { working: w2, ..world };
        let (steps, after) = lemma_write_on(op, t, w2, done2, now, host);
        operation::lemma_step::<Write>(put, Event::Ran, world2, steps + 1);
        operation::lemma_step::<Write>(state, Event::Block(block), world, steps + 2);
        (steps + 2, after)
    }
}

/// Whether writing up to `end` would pass the ceiling.
pub open spec fn no_room_to(fs: CofferFS, t: Tables, ino: u64, end: int) -> bool {
    &&& end > t.inodes[ino].row.size
    &&& t.total() <= MAX_FILE_SIZE
    &&& fs.over_ceiling(t.total() as u64, end - t.inodes[ino].row.size)
}

/// What `write` refuses, and with which error.
pub open spec fn write_refusal(
    fs: CofferFS,
    t: Tables,
    ino: u64,
    offset: u64,
    len: nat,
) -> Option<Errno> {
    if fs.read_only {
        Some(Errno::EROFS)
    } else if offset + len > MAX_FILE_SIZE {
        Some(Errno::EFBIG)
    } else if !t.inodes.contains_key(ino) {
        Some(Errno::ENOENT)
    } else if no_room_to(fs, t, ino, offset + len) {
        Some(Errno::ENOSPC)
    } else {
        None
    }
}

/// A refused `write` changes nothing.
pub proof fn refused_write_changes_nothing<'a>(
    fs: CofferFS,
    t: Tables,
    ino: u64,
    offset: u64,
    data: &'a [u8],
    kill: bool,
    now: Stamp,
    host: Option<HostSpace>,
)
    requires
        t.well_formed(),
        write_refusal(fs, t, ino, offset, data@.len()) is Some,
    ensures
        operation::answers::<Write>(
            Write::start(fs, ino, offset, data, kill),
            t,
            now,
            host,
            Reply::Error(write_refusal(fs, t, ino, offset, data@.len())->Some_0),
            t,
        ),
{
    let errno = write_refusal(fs, t, ino, offset, data@.len())->Some_0;
    let world = World::at_rest(t, now, host);
    let start = Write::start(fs, ino, offset, data, kill);
    if !fs.read_only && start.end() <= MAX_FILE_SIZE {
        operation::lemma_step::<Write>(start, Event::Start, world, 3);
        operation::lemma_step::<Write>(start.at(WriteStage::Begin), Event::Begun { now }, world, 2);
        if t.inodes.contains_key(ino) {
            lemmas::lemma_sum_nonnegative(t.inodes);
            operation::lemma_step::<Write>(
                start.at(WriteStage::Row { now }),
                Event::Row(t.row(ino)),
                world,
                1,
            );
        }
    }
    assert(operation::ends_after::<Write>(start, world, 3, Reply::Error(errno), t));
}

/// A `write` that is not refused stores all of its data where it was asked
/// to, and keeps the container well formed and under its ceiling.
pub proof fn write_answers<'a>(
    fs: CofferFS,
    t: Tables,
    ino: u64,
    offset: u64,
    data: &'a [u8],
    kill: bool,
    now: Stamp,
    host: Option<HostSpace>,
) -> (after: Tables)
    requires
        t.well_formed(),
        data@.len() <= usize::MAX,
        write_refusal(fs, t, ino, offset, data@.len()) is None,
    ensures
        operation::answers::<Write>(
            Write::start(fs, ino, offset, data, kill),
            t,
            now,
            host,
            Reply::Written(data@.len() as u32),
            after,
        ),
        is_written(t, after, ino, offset, data@, kill, now),
        after.well_formed(),
        t.under_ceiling(fs) && t.total() <= MAX_FILE_SIZE ==> after.under_ceiling(fs),
        t.numbers_fresh(after),
{
    let world = World::at_rest(t, now, host);
    let start = Write::start(fs, ino, offset, data, kill);
    let row = t.inodes[ino].row;
    assert(midway(t, t, start, 0)) by {
        assert forall|k: (u64, i64)| k.0 == ino && #[trigger] t.data.contains_key(k) implies {
            &&& k.1 >= 0
            &&& 0 < t.data[k].len() <= BLOCK_SIZE
            &&& k.1 * BLOCK_SIZE + t.data[k].len() <= row.size
        } by {}
    }
    lemmas::lemma_sum_nonnegative(t.inodes);
    let (steps, after) = lemma_write_on(start, t, t, 0, now, host);
    let rowed = start.at(WriteStage::Row { now });
    let (state, action) = start.onward(now, row.size, 0);
    if fs.max_size != 0 && start.end() > row.size {
        let used = world.perform(Action::TotalSize).1;
        operation::lemma_step::<Write>(
            start.at(
                WriteStage::Ceiling {
                    now,
                    old_size: row.size,
                    grow: (start.end() - row.size) as u64,
                },
            ),
            used,
            world,
            steps + 1,
        );
        operation::lemma_step::<Write>(rowed, Event::Row(Some(row)), world, steps + 2);
    } else {
        operation::lemma_step::<Write>(rowed, Event::Row(Some(row)), world, steps + 2);
        let (world2, event) = world.perform(action);
        operation::lemma_run_more::<Write>(state, event, world2, steps, steps + 1);
    }
    operation::lemma_step::<Write>(
        start.at(WriteStage::Begin),
        Event::Begun { now },
        world,
        steps + 3,
    );
    operation::lemma_step::<Write>(start, Event::Start, world, steps + 4);
    assert(operation::ends_after::<Write>(
        start,
        world,
        steps + 4,
        Reply::Written(data@.len() as u32),
        after,
    ));
    after
}

/// A read gives back what a write wrote.
pub proof fn read_after_write<'a>(
    fs: CofferFS,
    t: Tables,
    ino: u64,
    offset: u64,
    data: &'a [u8],
    kill: bool,
    now: Stamp,
    later: Stamp,
    host: Option<HostSpace>,
) -> (after: Tables)
    requires
        t.well_formed(),
        data@.len() <= u32::MAX,
        write_refusal(fs, t, ino, offset, data@.len()) is None,
    ensures
        operation::answers::<Write>(
            Write::start(fs, ino, offset, data, kill),
            t,
            now,
            host,
            Reply::Written(data@.len() as u32),
            after,
        ),
        operation::answers::<Read<Vec<u8>>>(
            ReadView::start(ino, offset, data@.len() as u32),
            after,
            later,
            host,
            Reply::Data(data@),
            after,
        ),
{
    let after = write_answers(fs, t, ino, offset, data, kill, now, host);
    read::read_answers(after, ino, offset, data@.len() as u32, later, host);
    assert(read::slice(after.content(ino), offset, data@.len() as u32) =~= data@);
    after
}

} // verus!
