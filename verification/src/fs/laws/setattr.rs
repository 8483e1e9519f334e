//! What `setattr` does.
use vstd::prelude::*;

use crate::fs::blocks;
use crate::fs::coffer::CofferFS;
use crate::fs::coffer;
use crate::fs::laws::privileges;
use crate::fs::laws::content;
use crate::fs::lemmas;
use crate::fs::operation;
use crate::fs::setattr::{Changes, Known, Setattr, SetattrStage};
use crate::fs::setattr;
use crate::fs::tables::{Inode, Tables, World};
use crate::fs::tables;
use crate::fs::types::{
    Action, Errno, Event, EventView, HostSpace, Reply, ReplyView, Row, RowView, Stamp, Stmt,
    StmtView, BLOCK_SIZE, CAPABILITY_XATTR, MAX_FILE_SIZE, ROOT_INO,
};

verus! {

/// `content` cut off at `size`, or filled up with zeros to it.
pub open spec fn resized(content: Seq<u8>, size: nat) -> Seq<u8> {
    Seq::new(
        size,
        |i: int|
            if i < content.len() {
                content[i]
            } else {
                0
            },
    )
}

/// The blocks of a container in which the file `ino` ends at `size`.
pub open spec fn cut_data(data: Map<(u64, i64), Seq<u8>>, ino: u64, size: int) -> Map<
    (u64, i64),
    Seq<u8>,
> {
    Map::new(
        |k: (u64, i64)| data.contains_key(k) && (k.0 == ino ==> k.1 * BLOCK_SIZE < size),
        |k: (u64, i64)|
            if k.0 == ino {
                blocks::cut(data[k], size - k.1 * BLOCK_SIZE)
            } else {
                data[k]
            },
    )
}

/// The row afterwards.
pub open spec fn changed_row(row: RowView, c: Changes, now: Stamp) -> RowView {
    let mode = match c.mode {
        Some(m) => setattr::changed_mode(row.mode, m),
        None => row.mode,
    };
    Row {
        mode: if c.drops_privileges(row.kind) {
            privileges::plain_mode(mode)
        } else {
            mode
        },
        uid: c.uid.unwrap_or(row.uid),
        gid: c.gid.unwrap_or(row.gid),
        size: c.size.unwrap_or(row.size),
        atime: setattr::changed_time(c.atime, row.atime, now),
        // A truncation sets the time, unless the call sets times itself.
        mtime: if c.size is Some && c.atime is None && c.mtime is None {
            now
        } else {
            setattr::changed_time(c.mtime, row.mtime, now)
        },
        ctime: if c.mode is Some || c.uid is Some || c.gid is Some || c.size is Some {
            now
        } else {
            row.ctime
        },
        ..row
    }
}

/// The tables afterwards.
pub open spec fn changed(t: Tables, ino: u64, c: Changes, now: Stamp) -> Tables {
    Tables {
        inodes: t.inodes.insert(
            ino,
            Inode { row: changed_row(t.inodes[ino].row, c, now), ..t.inodes[ino] },
        ),
        data: match c.size {
            Some(size) => cut_data(t.data, ino, size as int),
            None => t.data,
        },
        xattrs: if c.drops_privileges(t.inodes[ino].row.kind) {
            t.xattrs.remove((ino, CAPABILITY_XATTR@))
        } else {
            t.xattrs
        },
        ..t
    }
}

/// The answer and the tables afterwards.
pub open spec fn setattr_result(fs: CofferFS, t: Tables, ino: u64, c: Changes, now: Stamp) -> (
    ReplyView,
    Tables,
) {
    if !t.inodes.contains_key(ino) {
        (Reply::Error(Errno::ENOENT), t)
    } else if c.size matches Some(size) && size > MAX_FILE_SIZE {
        (Reply::Error(Errno::EFBIG), t)
    } else if c.size matches Some(size) && content::no_room_to(fs, t, ino, size as int) {
        (Reply::Error(Errno::ENOSPC), t)
    } else {
        (
            Reply::Attr(coffer::attr_of(ino, changed_row(t.inodes[ino].row, c, now))),
            changed(t, ino, c, now),
        )
    }
}

/// The row after the mode and the owner were set.
pub open spec fn owned_row(row: RowView, c: Changes, now: Stamp) -> RowView {
    Row {
        mode: match c.mode {
            Some(m) => setattr::changed_mode(row.mode, m),
            None => row.mode,
        },
        uid: c.uid.unwrap_or(row.uid),
        gid: c.gid.unwrap_or(row.gid),
        ctime: if c.mode is Some || c.uid is Some || c.gid is Some {
            now
        } else {
            row.ctime
        },
        ..row
    }
}

/// The first list of statements sets the mode and the owner.
pub proof fn lemma_owner(t: Tables, ino: u64, c: Changes, now: Stamp)
    requires
        t.inodes.contains_key(ino),
    ensures
        t.apply_all(
            c.owner_statements(ino, setattr::known_of(t.inodes[ino].row), now),
        ) == Some(t.with_row(ino, owned_row(t.inodes[ino].row, c, now))),
{
    let row = t.inodes[ino].row;
    let known = setattr::known_of(row);
    let first: Seq<StmtView> = match c.mode {
        Some(m) => seq![
            Stmt::SetMode { ino, mode: setattr::changed_mode(known.mode, m), ctime: now },
        ],
        None => Seq::empty(),
    };
    let owner = Stmt::SetOwner {
        ino,
        uid: c.uid.unwrap_or(known.uid),
        gid: c.gid.unwrap_or(known.gid),
        ctime: now,
    };
    let second: Seq<StmtView> = if c.uid is Some || c.gid is Some {
        seq![owner]
    } else {
        Seq::empty()
    };
    assert(c.owner_statements(ino, known, now) == first + second);
    lemmas::lemma_apply_concat(t, first, second);
    lemmas::lemma_apply_empty(t);
    let t1 = match c.mode {
        Some(m) => {
            lemmas::lemma_apply_one(t, first[0]);
            t.with_row(
                ino,
                Row { mode: setattr::changed_mode(known.mode, m), ctime: now, ..row },
            )
        },
        None => t,
    };
    assert(t.apply_all(first) == Some(t1));
    lemmas::lemma_apply_empty(t1);
    lemmas::lemma_apply_one(t1, owner);
    let t2 = t.with_row(ino, owned_row(row, c, now));
    if c.mode is None && c.uid is None && c.gid is None {
        assert(owned_row(row, c, now) == row);
        assert(t2.inodes =~= t.inodes);
    } else if c.uid is Some || c.gid is Some {
        assert(t1.apply(owner)->Some_0.inodes =~= t2.inodes);
    } else {
        assert(t1.inodes =~= t2.inodes);
    }
}

/// The statements of a truncation leave the blocks up to the new end.
proof fn lemma_truncation(t: Tables, ino: u64, size: u64, now: Stamp)
    requires
        t.data_in_bounds(),
        t.inodes.contains_key(ino),
        size <= MAX_FILE_SIZE,
    ensures
        ({
            let block = if blocks::block_off(size as int) > 0 {
                t.block(ino, blocks::block_no(size as int))
            } else {
                Seq::empty()
            };
            t.apply_all(setattr::truncation(ino, size, block, now)) == Some(
                Tables {
                    data: cut_data(t.data, ino, size as int),
                    ..t.with_row(
                        ino,
                        Row { size, mtime: now, ctime: now, ..t.inodes[ino].row },
                    )
                },
            )
        }),
{
    let last = blocks::block_no(size as int);
    let off = blocks::block_off(size as int);
    let block = if off > 0 {
        t.block(ino, last)
    } else {
        Seq::empty()
    };
    let list = setattr::truncation(ino, size, block, now);
    assert(list =~= seq![list[0], list[1], list[2]]);
    lemmas::lemma_apply_three(t, list[0], list[1], list[2]);
    assert(last * BLOCK_SIZE + off == size);
    let t1 = t.apply(list[0])->Some_0;
    let t2 = t1.apply(list[1])->Some_0;
    let goal = cut_data(t.data, ino, size as int);
    assert forall|k: (u64, i64)| #[trigger] t2.data.contains_key(k) <==> goal.contains_key(k) by {
        if t.data.contains_key(k) && k.0 == ino {
            if k.1 < last {
                assert(k.1 * BLOCK_SIZE + BLOCK_SIZE <= last * BLOCK_SIZE);
            } else if k.1 > last {
                assert(last * BLOCK_SIZE + BLOCK_SIZE <= k.1 * BLOCK_SIZE);
            }
        }
    }
    assert forall|k: (u64, i64)| #[trigger] t2.data.contains_key(k) implies t2.data[k] == goal[k] by {
        if k.0 == ino {
            assert(t.data.contains_key(k));
            if k.1 < last {
                assert(k.1 * BLOCK_SIZE + BLOCK_SIZE <= last * BLOCK_SIZE);
            }
        }
    }
    assert(t2.data =~= goal);
}

/// After a truncation the file holds what it held up to its new end, and
/// zeros behind what it held.
pub proof fn lemma_resized(t: Tables, after: Tables, ino: u64, size: u64)
    requires
        t.data_in_bounds(),
        t.sizes_fit(),
        t.inodes.contains_key(ino),
        size <= MAX_FILE_SIZE,
        after.data == cut_data(t.data, ino, size as int),
        after.inodes[ino].row.size == size,
    ensures
        after.content(ino) == resized(t.content(ino), size as nat),
{
    assert forall|i: int| 0 <= i < size implies after.content(ino)[i] == resized(
        t.content(ino),
        size as nat,
    )[i] by {
        let b = blocks::block_no(i);
        let off = blocks::block_off(i);
        assert(b * BLOCK_SIZE + off == i);
        assert(after.byte_at(ino, i) == t.byte_at(ino, i));
        if i >= t.inodes[ino].row.size {
            content::lemma_zero_behind(t, ino, i);
        }
    }
    assert(after.content(ino) =~= resized(t.content(ino), size as nat));
}

/// What the second list of statements does to the tables that the first left.
pub proof fn lemma_other(t: Tables, owned: Tables, ino: u64, c: Changes, now: Stamp)
    requires
        t.well_formed(),
        t.inodes.contains_key(ino),
        owned == t.with_row(ino, owned_row(t.inodes[ino].row, c, now)),
        c.size matches Some(size) ==> size <= MAX_FILE_SIZE,
    ensures
        ({
            let known = setattr::known_of(t.inodes[ino].row);
            let block = match c.size {
                Some(size) => if blocks::block_off(size as int) > 0 {
                    owned.block(ino, blocks::block_no(size as int))
                } else {
                    Seq::empty()
                },
                None => Seq::empty(),
            };
            owned.apply_all(c.other_statements(ino, known, now, block)) == Some(
                changed(t, ino, c, now),
            )
        }),
{
    let row = t.inodes[ino].row;
    let known = setattr::known_of(row);
    let row1 = owned.inodes[ino].row;
    let block = match c.size {
        Some(size) => if blocks::block_off(size as int) > 0 {
            owned.block(ino, blocks::block_no(size as int))
        } else {
            Seq::empty()
        },
        None => Seq::empty(),
    };
    assert(owned.data_in_bounds());
    let first: Seq<StmtView> = match c.size {
        Some(size) => setattr::truncation(ino, size, block, now),
        None => Seq::empty(),
    };
    let times = Stmt::SetTimes {
        ino,
        atime: setattr::changed_time(c.atime, known.atime, now),
        mtime: setattr::changed_time(c.mtime, known.mtime, now),
    };
    let second: Seq<StmtView> = if c.atime is Some || c.mtime is Some {
        seq![times]
    } else {
        Seq::empty()
    };
    let third: Seq<StmtView> = if c.drops_privileges(known.kind) {
        coffer::privilege_drop(ino)
    } else {
        Seq::empty()
    };
    assert(c.other_statements(ino, known, now, block) == first + second + third);
    lemmas::lemma_apply_concat(owned, first + second, third);
    lemmas::lemma_apply_concat(owned, first, second);
    lemmas::lemma_apply_empty(owned);
    // The length.
    let t1 = match c.size {
        Some(size) => {
            lemma_truncation(owned, ino, size, now);
            Tables {
                data: cut_data(owned.data, ino, size as int),
                ..owned.with_row(ino, Row { size, mtime: now, ctime: now, ..row1 })
            }
        },
        None => owned,
    };
    assert(owned.apply_all(first) == Some(t1));
    // The times.
    lemmas::lemma_apply_empty(t1);
    lemmas::lemma_apply_one(t1, times);
    let t2 = if c.atime is Some || c.mtime is Some {
        t1.apply(times)->Some_0
    } else {
        t1
    };
    assert(owned.apply_all(first + second) == Some(t2));
    // The privileges.
    lemmas::lemma_apply_empty(t2);
    privileges::lemma_privilege_drop(t2, ino);
    let t3 = if c.drops_privileges(known.kind) {
        privileges::without_privileges(t2, ino)
    } else {
        t2
    };
    let goal = changed(t, ino, c, now);
    assert(t3.inodes =~= goal.inodes);
    assert(t3.data == goal.data);
    assert(t3.xattrs == goal.xattrs);
}

/// From the second list on.
proof fn lemma_change_runs(
    op: Setattr,
    t: Tables,
    w: Tables,
    after: Tables,
    known: Known,
    block: Seq<u8>,
    now: Stamp,
    host: Option<HostSpace>,
)
    requires
        after.inodes.contains_key(op.ino),
        w.apply_all(op.changes.other_statements(op.ino, known, now, block)) == Some(after),
    ensures
        ({
            let (state, action) = op.changing(now, known, block);
            let (world, event) = (World { committed: t, working: w, clock: now, host }).perform(
                action,
            );
            let end = operation::run::<Setattr>(state, event, world, 3);
            &&& end is Some
            &&& end->Some_0.0 == ReplyView::Attr(
                coffer::attr_of(op.ino, after.inodes[op.ino].row),
            )
            &&& end->Some_0.1.committed == after
        }),
{
    let (state, action) = op.changing(now, known, block);
    let rest = World { committed: t, working: w, clock: now, host };
    let working = World { working: after, ..rest };
    let done = World { committed: after, ..working };
    assert(rest.perform(action) == (working, EventView::Ran));
    operation::lemma_step::<Setattr>(state, Event::Ran, working, 3);
    operation::lemma_step::<Setattr>(op.at(SetattrStage::Commit), Event::Committed, done, 2);
}

/// Once the mode and the owner are set.
proof fn lemma_owned_runs(
    op: Setattr,
    t: Tables,
    owned: Tables,
    now: Stamp,
    host: Option<HostSpace>,
)
    requires
        t.well_formed(),
        t.inodes.contains_key(op.ino),
        owned == t.with_row(op.ino, owned_row(t.inodes[op.ino].row, op.changes, now)),
    ensures
        ({
            let known = setattr::known_of(t.inodes[op.ino].row);
            let (state, action) = op.after_owner(now, known, true);
            let rest = World { committed: t, working: owned, clock: now, host };
            let (reply, after) = setattr_result(op.fs, t, op.ino, op.changes, now);
            if action is Reply {
                reply is Error && action->Reply_0 == reply
            } else {
                let (world, event) = rest.perform(action);
                let end = operation::run::<Setattr>(state, event, world, 5);
                &&& end is Some
                &&& end->Some_0.0 == reply
                &&& end->Some_0.1.committed == after
            }
        }),
{
    let row = t.inodes[op.ino].row;
    let known = setattr::known_of(row);
    let c = op.changes;
    let rest = World { committed: t, working: owned, clock: now, host };
    let (reply, after) = setattr_result(op.fs, t, op.ino, c, now);
    let (state, action) = op.after_owner(now, known, true);
    lemmas::lemma_sum_nonnegative(t.inodes);
    lemmas::lemma_sum_replace(
        t.inodes,
        op.ino,
        Inode { row: owned_row(row, c, now), ..t.inodes[op.ino] },
    );
    assert(owned.total() == t.total());
    if !(reply is Error) {
        lemma_other(t, owned, op.ino, c, now);
        match c.size {
            Some(size) => {
                let off = blocks::block_off(size as int);
                let bno = blocks::block_no(size as int);
                let block = if off > 0 {
                    owned.block(op.ino, bno)
                } else {
                    Seq::empty()
                };
                lemma_change_runs(op, t, owned, after, known, block, now, host);
                let (state3, action3) = op.changing(now, known, block);
                let (world3, event3) = rest.perform(action3);
                let (state2, action2) = op.after_ceiling(now, known, size, true);
                let (world2, event2) = rest.perform(action2);
                if off > 0 {
                    operation::lemma_step::<Setattr>(state2, event2, rest, 4);
                } else {
                    operation::lemma_run_more::<Setattr>(state3, event3, world3, 3, 4);
                }
                if op.fs.max_size != 0 && size > row.size {
                    let used = rest.perform(Action::TotalSize).1;
                    operation::lemma_step::<Setattr>(state, used, rest, 5);
                } else {
                    operation::lemma_run_more::<Setattr>(state2, event2, world2, 4, 5);
                }
            },
            None => {
                lemma_change_runs(op, t, owned, after, known, Seq::empty(), now, host);
                let (world, event) = rest.perform(action);
                operation::lemma_run_more::<Setattr>(state, event, world, 3, 5);
            },
        }
    }
}

/// `setattr` changes what it was asked to change and nothing else, or it
/// refuses and changes nothing.
pub proof fn setattr_answers(
    fs: CofferFS,
    t: Tables,
    ino: u64,
    changes: Changes,
    now: Stamp,
    host: Option<HostSpace>,
)
    requires
        t.well_formed(),
        !fs.read_only,
    ensures
        ({
            let (reply, after) = setattr_result(fs, t, ino, changes, now);
            operation::answers::<Setattr>(
                Setattr::start(fs, ino, changes),
                t,
                now,
                host,
                reply,
                after,
            )
        }),
{
    let (reply, after) = setattr_result(fs, t, ino, changes, now);
    let world = World::at_rest(t, now, host);
    let start = Setattr::start(fs, ino, changes);
    let rowed = start.at(SetattrStage::Row { now });
    operation::lemma_step::<Setattr>(start, Event::Start, world, 9);
    operation::lemma_step::<Setattr>(start.at(SetattrStage::Begin), Event::Begun { now }, world, 8);
    if t.inodes.contains_key(ino) {
        let row = t.inodes[ino].row;
        let known = setattr::known_of(row);
        let list = changes.owner_statements(ino, known, now);
        let owned = t.with_row(ino, owned_row(row, changes, now));
        let working = World { working: owned, ..world };
        lemma_owner(t, ino, changes, now);
        lemma_owned_runs(start, t, owned, now, host);
        let (state2, action2) = start.after_owner(now, known, true);
        let (world2, event2) = working.perform(action2);
        if list.len() == 0 {
            assert(list =~= Seq::empty());
            lemmas::lemma_apply_empty(t);
            assert(owned == t);
            if !(action2 is Reply) {
                operation::lemma_step::<Setattr>(rowed, Event::Row(Some(row)), world, 7);
                operation::lemma_run_more::<Setattr>(state2, event2, world2, 5, 6);
            }
        } else {
            operation::lemma_step::<Setattr>(rowed, Event::Row(Some(row)), world, 7);
            let set = start.at(SetattrStage::Owner { now, known });
            assert(world.perform(Action::Run(list)) == (working, EventView::Ran));
            if !(action2 is Reply) {
                operation::lemma_step::<Setattr>(set, Event::Ran, working, 6);
            }
        }
    }
    assert(operation::ends_after::<Setattr>(start, world, 9, reply, after));
}

/// `setattr` keeps the container well formed and under its ceiling.
pub proof fn setattr_keeps(fs: CofferFS, t: Tables, ino: u64, changes: Changes, now: Stamp)
    requires
        t.well_formed(),
    ensures
        ({
            let after = setattr_result(fs, t, ino, changes, now).1;
            &&& after.well_formed()
            &&& t.under_ceiling(fs) && t.total() <= MAX_FILE_SIZE ==> after.under_ceiling(fs)
            &&& t.numbers_fresh(after)
        }),
{
    let (reply, after) = setattr_result(fs, t, ino, changes, now);
    if !(reply is Error) {
        let row = t.inodes[ino].row;
        let row2 = changed_row(row, changes, now);
        lemmas::lemma_sum_nonnegative(t.inodes);
        lemmas::lemma_sum_replace(t.inodes, ino, Inode { row: row2, ..t.inodes[ino] });
        assert(after.inodes.dom() =~= t.inodes.dom());
        assert forall|i: u64| #[trigger] after.inodes.contains_key(i) implies exists|n: nat|
            after.reaches_root(i, n) by {
            assert(t.inodes.contains_key(i));
            let n = choose|n: nat| t.reaches_root(i, n);
            lemmas::lemma_reaches_still(t, after, i, n);
            assert(after.reaches_root(i, n));
        }
        assert forall|i: u64| after.inodes.contains_key(i) && i != ROOT_INO implies after.is_dir(
            #[trigger] after.inodes[i].parent,
        ) by {
            assert(t.is_dir(t.inodes[i].parent));
        }
        assert forall|i: u64, j: u64|
            #![trigger after.inodes.contains_key(i), after.inodes.contains_key(j)]
            after.inodes.contains_key(i) && after.inodes.contains_key(j) && after.inodes[i].parent
                == after.inodes[j].parent && after.inodes[i].name
                == after.inodes[j].name implies i == j by {
            assert(t.inodes.contains_key(i) && t.inodes.contains_key(j));
        }
        assert forall|k: (u64, i64)| #[trigger] after.data.contains_key(k) implies {
            &&& after.inodes.contains_key(k.0)
            &&& k.1 >= 0
            &&& 0 < after.data[k].len() <= BLOCK_SIZE
            &&& k.1 * BLOCK_SIZE + after.data[k].len() <= after.inodes[k.0].row.size
        } by {
            assert(t.data.contains_key(k));
        }
    }
}

/// Truncating gives a file the length that was asked for: what it held up to
/// there stays, and where it grew it holds zeros. No other file changes.
pub proof fn truncated_content(
    fs: CofferFS,
    t: Tables,
    ino: u64,
    changes: Changes,
    size: u64,
    now: Stamp,
)
    requires
        t.well_formed(),
        changes.size == Some(size),
        setattr_result(fs, t, ino, changes, now).0 is Attr,
    ensures
        ({
            let after = setattr_result(fs, t, ino, changes, now).1;
            &&& after.content(ino) == resized(t.content(ino), size as nat)
            &&& forall|other: u64, b: i64|
                other != ino ==> #[trigger] after.block(other, b) == t.block(other, b)
        }),
{
    let after = setattr_result(fs, t, ino, changes, now).1;
    lemma_resized(t, after, ino, size);
}

/// Where the mode is set in the same call, exactly those bits that were asked
/// for are set: nothing is dropped from them.
pub proof fn chmod_is_kept(row: RowView, changes: Changes, mode: u32, now: Stamp)
    requires
        changes.mode == Some(mode),
    ensures
        changed_row(row, changes, now).mode & crate::fs::types::PERM_MASK == (mode as i64)
            & crate::fs::types::PERM_MASK,
        changed_row(row, changes, now).mode & !crate::fs::types::PERM_MASK == row.mode
            & !crate::fs::types::PERM_MASK,
{
    let m = mode as i64;
    let before = row.mode;
    assert(((before & !0o7777i64) | (m & 0o7777)) & 0o7777 == m & 0o7777) by (bit_vector);
    assert(((before & !0o7777i64) | (m & 0o7777)) & !0o7777i64 == before & !0o7777i64)
        by (bit_vector);
}

} // verus!
