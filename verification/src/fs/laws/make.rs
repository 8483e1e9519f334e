//! What `mkdir`, `create` and `symlink` do.
use vstd::prelude::*;

use crate::fs::coffer::CofferFS;
use crate::fs::coffer;
use crate::fs::lemmas;
use crate::fs::laws::query;
use crate::fs::make::{Make, MakeStage, NewEntry};
use crate::fs::operation;
use crate::fs::query::Lookup;
use crate::fs::tables::{Inode, Tables, World};
use crate::fs::types::{
    Action, Errno, Event, EventView, HostSpace, Reply, ReplyView, Row, RowView, Stamp, MAX_FILE_SIZE,
    ROOT_INO,
};

verus! {

/// The row of an entry that was just made.
pub open spec fn new_row<'a>(fs: CofferFS, what: NewEntry<'a>, now: Stamp) -> RowView {
    Row {
        kind: what.kind(),
        mode: what.mode(),
        uid: fs.uid,
        gid: fs.gid,
        size: match what.target() {
            Some(target) => coffer::byte_len(target) as u64,
            None => 0,
        },
        atime: now,
        mtime: now,
        ctime: now,
        symlink_target: what.target(),
    }
}

/// The tables with one more entry. Its inode is the next number; the
/// directory changed at `now`.
pub open spec fn with_entry(
    t: Tables,
    parent: u64,
    name: Seq<char>,
    row: RowView,
    now: Stamp,
) -> Tables {
    let ino = (t.last_ino + 1) as u64;
    Tables {
        inodes: t.inodes.insert(ino, Inode { parent, name, row }),
        last_ino: ino,
        ..t
    }.touched(parent, now)
}

/// The answer and the tables afterwards.
pub open spec fn make_result<'a>(
    fs: CofferFS,
    t: Tables,
    parent: u64,
    name: Seq<char>,
    what: NewEntry<'a>,
    now: Stamp,
) -> (ReplyView, Tables) {
    if t.child(parent, name) is Some {
        (Reply::Error(Errno::EEXIST), t)
    } else if t.total() <= MAX_FILE_SIZE && what.no_room(fs, t.total() as u64) {
        (Reply::Error(Errno::ENOSPC), t)
    } else {
        inserted(fs, t, parent, name, what, now)
    }
}

/// The same, where nothing stands in the way but that there may be no inode
/// number left.
pub open spec fn inserted<'a>(
    fs: CofferFS,
    t: Tables,
    parent: u64,
    name: Seq<char>,
    what: NewEntry<'a>,
    now: Stamp,
) -> (ReplyView, Tables) {
    if t.last_ino >= MAX_FILE_SIZE {
        (
            Reply::Error(Errno::EIO),
            t,
        )
    } else {
        let ino = (t.last_ino + 1) as u64;
        let row = new_row(fs, what, now);
        let attr = coffer::attr_of(ino, row);
        (
            if what is File {
                Reply::Created { attr, handle: ino }
            } else {
                Reply::Entry(attr)
            },
            with_entry(t, parent, name, row, now),
        )
    }
}

/// From the insertion on.
proof fn lemma_insertion_runs<'a>(
    fs: CofferFS,
    t: Tables,
    parent: u64,
    name: &'a str,
    what: NewEntry<'a>,
    now: Stamp,
    host: Option<HostSpace>,
)
    requires
        t.numbered(),
        t.inodes.contains_key(parent),
        t.child(parent, name@) is None,
        what.valid(),
        !fs.read_only,
    ensures
        ({
            let (state, action) = Make::start(fs, parent, Some(name), what).insertion(now);
            let (world, event) = World::at_rest(t, now, host).perform(action);
            let end = operation::run::<Make>(state, event, world, 3);
            &&& end is Some
            &&& (end->Some_0.0, end->Some_0.1.committed) == inserted(
                fs,
                t,
                parent,
                name@,
                what,
                now,
            )
        }),
{
    let start = Make::start(fs, parent, Some(name), what);
    let (state, action) = start.insertion(now);
    let rest = World::at_rest(t, now, host);
    let list = coffer::child_insertion(
        parent,
        name@,
        what.kind(),
        what.mode(),
        fs,
        what.target(),
        now,
    );
    lemmas::lemma_apply_two(t, list[0], list[1]);
    assert(list =~= seq![list[0], list[1]]);
    let (world, event) = rest.perform(action);
    if t.last_ino < MAX_FILE_SIZE {
        let ino = (t.last_ino + 1) as u64;
        let after = with_entry(t, parent, name@, new_row(fs, what, now), now);
        let working = World { working: after, ..rest };
        let done = World::at_rest(after, now, host);
        assert(world == working && event == EventView::Inserted(ino));
        operation::lemma_step::<Make>(state, event, working, 3);
        operation::lemma_step::<Make>(
            start.at(MakeStage::Commit { ino }),
            Event::Committed,
            done,
            2,
        );
        assert(after.row(ino) == Some(new_row(fs, what, now)));
    }
}

/// A new entry gets the next inode number and the mode, owner and target that
/// were asked for; nothing else changes but the times of its directory. A
/// name that is taken is refused, and so is what passes the ceiling.
pub proof fn make_answers<'a>(
    fs: CofferFS,
    t: Tables,
    parent: u64,
    name: &'a str,
    what: NewEntry<'a>,
    now: Stamp,
    host: Option<HostSpace>,
)
    requires
        t.well_formed(),
        t.is_dir(parent),
        what.valid(),
        !fs.read_only,
    ensures
        ({
            let (reply, after) = make_result(fs, t, parent, name@, what, now);
            operation::answers::<Make>(
                Make::start(fs, parent, Some(name), what),
                t,
                now,
                host,
                reply,
                after,
            )
        }),
{
    let (reply, after) = make_result(fs, t, parent, name@, what, now);
    let world = World::at_rest(t, now, host);
    let start = Make::start(fs, parent, Some(name), what);
    let looked = start.at(MakeStage::Lookup { now });
    let found = Event::Ino(t.child(parent, name@));
    operation::lemma_step::<Make>(start, Event::Start, world, 7);
    operation::lemma_step::<Make>(start.at(MakeStage::Begin), Event::Begun { now }, world, 6);
    if t.child(parent, name@) is None {
        lemmas::lemma_sum_nonnegative(t.inodes);
        lemma_insertion_runs(fs, t, parent, name, what, now, host);
        operation::lemma_step::<Make>(looked, found, world, 5);
        if fs.max_size != 0 && !(what is Dir) {
            let asked = looked.at(MakeStage::Ceiling { now });
            let used = world.perform(Action::TotalSize).1;
            if !(t.total() <= MAX_FILE_SIZE && what.no_room(fs, t.total() as u64)) {
                operation::lemma_step::<Make>(asked, used, world, 4);
            }
        } else {
            let (state, action) = start.insertion(now);
            let (working, event) = world.perform(action);
            operation::lemma_run_more::<Make>(state, event, working, 3, 4);
        }
    }
    assert(operation::ends_after::<Make>(start, world, 7, reply, after));
}

proof fn lemma_with_entry(t: Tables, parent: u64, name: Seq<char>, row: RowView, now: Stamp)
    requires
        t.well_formed(),
        t.is_dir(parent),
        t.last_ino < MAX_FILE_SIZE,
        t.child(parent, name) is None,
        row.size <= MAX_FILE_SIZE,
    ensures
        with_entry(t, parent, name, row, now).well_formed(),
        with_entry(t, parent, name, row, now).total() == t.total() + row.size,
        with_entry(t, parent, name, row, now).at((t.last_ino + 1) as u64, parent, name),
        with_entry(t, parent, name, row, now).inodes[(t.last_ino + 1) as u64].row == row,
        t.numbers_fresh(with_entry(t, parent, name, row, now)),
{
    let ino = (t.last_ino + 1) as u64;
    let inode = Inode { parent, name, row };
    let t2 = Tables { inodes: t.inodes.insert(ino, inode), last_ino: ino, ..t };
    assert(!t.inodes.contains_key(ino));
    assert(ino != parent);
    lemmas::lemma_sum_insert_new(t.inodes, ino, inode);
    assert forall|i: u64| #[trigger] t2.inodes.contains_key(i) implies exists|n: nat|
        t2.reaches_root(i, n) by {
        let from = if i == ino {
            parent
        } else {
            i
        };
        assert(t.inodes.contains_key(from));
        let n = choose|n: nat| t.reaches_root(from, n);
        lemmas::lemma_reaches_still(t, t2, from, n);
        if i == ino {
            assert(t2.reaches_root(i, n + 1));
        } else {
            assert(t2.reaches_root(i, n));
        }
    }
    assert forall|i: u64| t2.inodes.contains_key(i) && i != ROOT_INO implies t2.is_dir(
        #[trigger] t2.inodes[i].parent,
    ) by {
        if i != ino {
            assert(t.is_dir(t.inodes[i].parent));
        }
    }
    assert forall|i: u64, j: u64|
        #![trigger t2.inodes.contains_key(i), t2.inodes.contains_key(j)]
        t2.inodes.contains_key(i) && t2.inodes.contains_key(j) && t2.inodes[i].parent
            == t2.inodes[j].parent && t2.inodes[i].name == t2.inodes[j].name implies i == j by {
        if i == ino && j != ino {
            assert(!t.at(j, parent, name));
        } else if j == ino && i != ino {
            assert(!t.at(i, parent, name));
        } else if i != ino {
            assert(t.inodes.contains_key(i) && t.inodes.contains_key(j));
        }
    }
    lemmas::lemma_touched(t2, parent, now);
}

/// Making an entry keeps the container well formed and under its ceiling, and
/// takes a number that no inode ever had.
pub proof fn make_keeps<'a>(
    fs: CofferFS,
    t: Tables,
    parent: u64,
    name: &'a str,
    what: NewEntry<'a>,
    now: Stamp,
)
    requires
        t.well_formed(),
        t.is_dir(parent),
        what.valid(),
        what.fits(),
    ensures
        ({
            let after = make_result(fs, t, parent, name@, what, now).1;
            &&& after.well_formed()
            &&& t.under_ceiling(fs) && t.total() <= MAX_FILE_SIZE ==> after.under_ceiling(fs)
            &&& t.numbers_fresh(after)
        }),
{
    let row = new_row(fs, what, now);
    lemmas::lemma_sum_nonnegative(t.inodes);
    if make_result(fs, t, parent, name@, what, now).1 != t {
        lemma_with_entry(t, parent, name@, row, now);
    }
}

/// What was made is found under its name.
pub proof fn made_is_found<'a>(
    fs: CofferFS,
    t: Tables,
    parent: u64,
    name: &'a str,
    what: NewEntry<'a>,
    now: Stamp,
    later: Stamp,
    host: Option<HostSpace>,
)
    requires
        t.well_formed(),
        t.is_dir(parent),
        what.valid(),
        what.fits(),
        !(make_result(fs, t, parent, name@, what, now).0 is Error),
    ensures
        ({
            let after = make_result(fs, t, parent, name@, what, now).1;
            let ino = (t.last_ino + 1) as u64;
            operation::answers::<Lookup>(
                Lookup::start(parent, Some(name)),
                after,
                later,
                host,
                Reply::Entry(coffer::attr_of(ino, new_row(fs, what, now))),
                after,
            )
        }),
{
    let row = new_row(fs, what, now);
    let after = with_entry(t, parent, name@, row, now);
    let ino = (t.last_ino + 1) as u64;
    lemma_with_entry(t, parent, name@, row, now);
    lemmas::lemma_child(after, ino, parent, name@);
    query::lookup_answers(after, parent, name, later, host);
}

} // verus!
