//! What `unlink` and `rmdir` do.
use vstd::prelude::*;

use crate::fs::coffer::CofferFS;
use crate::fs::coffer;
use crate::fs::laws::query;
use crate::fs::lemmas;
use crate::fs::operation;
use crate::fs::query::Lookup;
use crate::fs::remove::{Remove, RemoveStage};
use crate::fs::tables::{Tables, World};
use crate::fs::tables;
use crate::fs::types::{
    Action, Errno, Event, EventView, HostSpace, Reply, ReplyView, Stamp, Stmt, ROOT_INO,
};

verus! {

/// The tables without an inode and all that it owns.
pub open spec fn without_inode(t: Tables, ino: u64) -> Tables {
    Tables {
        inodes: t.inodes.remove(ino),
        data: tables::without_blocks(t.data, ino),
        xattrs: tables::without_xattrs(t.xattrs, ino),
        ..t
    }
}

/// The answer and the tables afterwards.
pub open spec fn remove_result(
    t: Tables,
    parent: u64,
    name: Seq<char>,
    dir: bool,
    now: Stamp,
) -> (ReplyView, Tables) {
    match t.child(parent, name) {
        None => (Reply::Error(Errno::ENOENT), t),
        Some(ino) => if dir && ino == ROOT_INO {
            (Reply::Error(Errno::EBUSY), t)
        } else if dir && t.is_dir(ino) && t.has_children(ino) {
            (Reply::Error(Errno::ENOTEMPTY), t)
        } else {
            (Reply::Done, without_inode(t, ino).touched(parent, now))
        },
    }
}

/// The statements that delete an inode do so.
pub proof fn lemma_deletion(t: Tables, ino: u64)
    ensures
        t.apply_all(coffer::inode_deletion(ino)) == Some(without_inode(t, ino)),
{
    let list = coffer::inode_deletion(ino);
    lemmas::lemma_apply_three(t, list[0], list[1], list[2]);
    assert(list =~= seq![list[0], list[1], list[2]]);
    assert(tables::without_xattrs(tables::without_xattrs(t.xattrs, ino), ino)
        =~= tables::without_xattrs(t.xattrs, ino));
}

/// From the deletion on.
proof fn lemma_deletion_runs<'a>(op: Remove<'a>, t: Tables, ino: u64, now: Stamp, host: Option<HostSpace>)
    ensures
        ({
            let (state, action) = op.deletion(now, ino);
            let (world, event) = World::at_rest(t, now, host).perform(action);
            let end = operation::run::<Remove>(state, event, world, 2);
            &&& end is Some
            &&& end->Some_0.0 == ReplyView::Done
            &&& end->Some_0.1.committed == without_inode(t, ino).touched(op.parent, now)
        }),
{
    let (state, action) = op.deletion(now, ino);
    let rest = World::at_rest(t, now, host);
    let list = coffer::inode_deletion(ino);
    lemma_deletion(t, ino);
    lemmas::lemma_apply_push(t, list, Stmt::Touch { ino: op.parent, now });
    let after = without_inode(t, ino).touched(op.parent, now);
    let working = World { working: after, ..rest };
    let done = World::at_rest(after, now, host);
    assert(rest.perform(action) == (working, EventView::Ran));
    operation::lemma_step::<Remove>(state, Event::Ran, working, 2);
    assert(working.perform(Action::Commit) == (done, EventView::Committed));
}

/// `unlink` and `rmdir` take the entry away with all that its inode owns, and
/// change nothing else but the times of the directory. A directory that is
/// not empty stays.
pub proof fn remove_answers<'a>(
    fs: CofferFS,
    t: Tables,
    parent: u64,
    name: &'a str,
    dir: bool,
    now: Stamp,
    host: Option<HostSpace>,
)
    requires
        !fs.read_only,
    ensures
        ({
            let (reply, after) = remove_result(t, parent, name@, dir, now);
            operation::answers::<Remove>(
                Remove::start(fs, parent, Some(name), dir),
                t,
                now,
                host,
                reply,
                after,
            )
        }),
{
    let (reply, after) = remove_result(t, parent, name@, dir, now);
    let world = World::at_rest(t, now, host);
    let start = Remove::start(fs, parent, Some(name), dir);
    let looked = start.at(RemoveStage::Lookup { now });
    let found = Event::Ino(t.child(parent, name@));
    operation::lemma_step::<Remove>(start, Event::Start, world, 7);
    operation::lemma_step::<Remove>(start.at(RemoveStage::Begin), Event::Begun { now }, world, 6);
    if let Some(ino) = t.child(parent, name@) {
        lemmas::lemma_child_found(t, parent, name@);
        lemma_deletion_runs(start, t, ino, now, host);
        let (state, action) = start.deletion(now, ino);
        let (working, event) = world.perform(action);
        operation::lemma_run_more::<Remove>(state, event, working, 2, 4);
        operation::lemma_run_more::<Remove>(state, event, working, 2, 3);
        if !dir {
            operation::lemma_step::<Remove>(looked, found, world, 5);
        } else if ino != ROOT_INO {
            operation::lemma_step::<Remove>(looked, found, world, 5);
            let kinded = start.at(RemoveStage::Kind { now, ino });
            let kind = Event::Kind(t.inodes[ino].row.kind);
            operation::lemma_step::<Remove>(kinded, kind, world, 4);
            if t.is_dir(ino) && !t.has_children(ino) {
                operation::lemma_step::<Remove>(
                    start.at(RemoveStage::Children { now, ino }),
                    Event::Flag(false),
                    world,
                    3,
                );
            }
        }
    }
    assert(operation::ends_after::<Remove>(start, world, 7, reply, after));
}

proof fn lemma_reaches_without(t: Tables, gone: u64, ino: u64, n: nat)
    requires
        t.reaches_root(ino, n),
        ino != gone,
        !t.has_children(gone),
    ensures
        without_inode(t, gone).reaches_root(ino, n),
    decreases n,
{
    if n > 0 {
        assert(t.is_child(ino, t.inodes[ino].parent));
        lemma_reaches_without(t, gone, t.inodes[ino].parent, (n - 1) as nat);
    }
}

/// Without an inode that has no children, the tables are still well formed.
pub proof fn lemma_without_inode(t: Tables, ino: u64)
    requires
        t.well_formed(),
        t.inodes.contains_key(ino),
        ino != ROOT_INO,
        !t.has_children(ino),
    ensures
        without_inode(t, ino).well_formed(),
        without_inode(t, ino).total() == t.total() - t.inodes[ino].row.size,
{
    let t2 = without_inode(t, ino);
    lemmas::lemma_sum_remove(t.inodes, ino);
    assert(t2.xattrs.dom().subset_of(t.xattrs.dom()));
    vstd::set_lib::lemma_len_subset(t2.xattrs.dom(), t.xattrs.dom());
    assert forall|i: u64| #[trigger] t2.inodes.contains_key(i) implies exists|n: nat|
        t2.reaches_root(i, n) by {
        assert(t.inodes.contains_key(i));
        let n = choose|n: nat| t.reaches_root(i, n);
        lemma_reaches_without(t, ino, i, n);
        assert(t2.reaches_root(i, n));
    }
    assert forall|i: u64| t2.inodes.contains_key(i) && i != ROOT_INO implies t2.is_dir(
        #[trigger] t2.inodes[i].parent,
    ) by {
        assert(t.is_dir(t.inodes[i].parent));
        assert(t.is_child(i, t.inodes[i].parent));
    }
    assert forall|i: u64, j: u64|
        #![trigger t2.inodes.contains_key(i), t2.inodes.contains_key(j)]
        t2.inodes.contains_key(i) && t2.inodes.contains_key(j) && t2.inodes[i].parent
            == t2.inodes[j].parent && t2.inodes[i].name == t2.inodes[j].name implies i == j by {
        assert(t.inodes.contains_key(i) && t.inodes.contains_key(j));
    }
    assert forall|k: (u64, i64)| #[trigger] t2.data.contains_key(k) implies t.data.contains_key(
        k,
    ) && t2.data[k] == t.data[k] && k.0 != ino by {}
    assert forall|k: (u64, Seq<char>)| #[trigger] t2.xattrs.contains_key(
        k,
    ) implies t2.inodes.contains_key(k.0) by {
        assert(t.xattrs.contains_key(k));
    }
}

/// Removing an entry keeps the container well formed and under its ceiling.
/// (That `unlink` is asked for no directory is the kernel's business.)
pub proof fn remove_keeps(
    fs: CofferFS,
    t: Tables,
    parent: u64,
    name: Seq<char>,
    dir: bool,
    now: Stamp,
)
    requires
        t.well_formed(),
        t.inodes.contains_key(parent),
        !dir ==> (t.child(parent, name) matches Some(ino) ==> !t.is_dir(ino)),
    ensures
        ({
            let after = remove_result(t, parent, name, dir, now).1;
            &&& after.well_formed()
            &&& t.under_ceiling(fs) ==> after.under_ceiling(fs)
            &&& t.numbers_fresh(after)
        }),
{
    if let Some(ino) = t.child(parent, name) {
        lemmas::lemma_child_found(t, parent, name);
        assert(ino != ROOT_INO);
        if remove_result(t, parent, name, dir, now).0 is Done {
            if t.has_children(ino) {
                let kid = choose|k: u64| t.is_child(k, ino);
                if kid == ROOT_INO {
                    assert(!t.inodes.contains_key(0));
                }
                assert(t.is_dir(t.inodes[kid].parent));
            }
            lemma_without_inode(t, ino);
            lemmas::lemma_touched(without_inode(t, ino), parent, now);
        }
    }
}

/// What was removed is not found any more, and nothing of it is left: no row,
/// no block, no attribute.
pub proof fn removed_is_gone<'a>(
    t: Tables,
    parent: u64,
    name: &'a str,
    dir: bool,
    now: Stamp,
    later: Stamp,
    host: Option<HostSpace>,
)
    requires
        t.well_formed(),
        t.inodes.contains_key(parent),
        remove_result(t, parent, name@, dir, now).0 is Done,
    ensures
        ({
            let after = remove_result(t, parent, name@, dir, now).1;
            let ino = t.child(parent, name@)->Some_0;
            &&& operation::answers::<Lookup>(
                Lookup::start(parent, Some(name)),
                after,
                later,
                host,
                Reply::Error(Errno::ENOENT),
                after,
            )
            &&& !after.inodes.contains_key(ino)
            &&& forall|b: i64| !after.data.contains_key((ino, b))
            &&& forall|x: Seq<char>| !after.xattrs.contains_key((ino, x))
        }),
{
    let after = remove_result(t, parent, name@, dir, now).1;
    let ino = t.child(parent, name@)->Some_0;
    lemmas::lemma_child_found(t, parent, name@);
    assert forall|i: u64| !after.at(i, parent, name@) by {
        if after.at(i, parent, name@) {
            assert(t.at(i, parent, name@));
            lemmas::lemma_child(t, i, parent, name@);
        }
    }
    assert(after.child(parent, name@) is None);
    query::lookup_answers(after, parent, name, later, host);
}

/// A directory that is not empty is not removed.
pub proof fn full_directory_stays<'a>(
    fs: CofferFS,
    t: Tables,
    parent: u64,
    name: &'a str,
    ino: u64,
    now: Stamp,
    host: Option<HostSpace>,
)
    requires
        t.well_formed(),
        t.inodes.contains_key(parent),
        !fs.read_only,
        t.at(ino, parent, name@),
        t.is_dir(ino),
        t.has_children(ino),
    ensures
        operation::answers::<Remove>(
            Remove::start(fs, parent, Some(name), true),
            t,
            now,
            host,
            Reply::Error(Errno::ENOTEMPTY),
            t,
        ),
{
    lemmas::lemma_child(t, ino, parent, name@);
    remove_answers(fs, t, parent, name, true, now, host);
}

} // verus!
