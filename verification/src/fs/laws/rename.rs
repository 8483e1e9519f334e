//! What `rename` does.
use vstd::prelude::*;

use crate::fs::coffer::CofferFS;
use crate::fs::coffer;
use crate::fs::laws::query;
use crate::fs::laws::remove;
use crate::fs::lemmas;
use crate::fs::operation;
use crate::fs::query::Lookup;
use crate::fs::rename::{Rename, RenameFlags, RenameStage};
use crate::fs::tables::{Inode, Tables, World};
use crate::fs::types::{
    Action, Errno, Event, EventView, HostSpace, Reply, ReplyView, Stamp, Stmt, StmtView, ROOT_INO,
};

verus! {

/// The tables with an inode at another place; both directories changed at
/// `now`.
pub open spec fn moved(
    t: Tables,
    ino: u64,
    parent: u64,
    newparent: u64,
    newname: Seq<char>,
    now: Stamp,
) -> Tables {
    Tables {
        inodes: t.inodes.insert(
            ino,
            Inode { parent: newparent, name: newname, row: t.inodes[ino].row },
        ),
        ..t
    }.touched(parent, now).touched(newparent, now)
}

/// The answer and the tables afterwards.
pub open spec fn rename_result(
    t: Tables,
    parent: u64,
    name: Seq<char>,
    newparent: u64,
    newname: Seq<char>,
    flags: RenameFlags,
    now: Stamp,
) -> (ReplyView, Tables) {
    match t.child(parent, name) {
        None => (Reply::Error(Errno::ENOENT), t),
        Some(ino) => if flags.exchange || flags.whiteout {
            (Reply::Error(Errno::EINVAL), t)
        } else {
            match t.child(newparent, newname) {
                Some(existing) => if flags.noreplace {
                    (Reply::Error(Errno::EEXIST), t)
                } else if existing == ino {
                    (Reply::Done, moved(t, ino, parent, newparent, newname, now))
                } else if t.is_dir(existing) && t.has_children(existing) {
                    (Reply::Error(Errno::ENOTEMPTY), t)
                } else {
                    (
                        Reply::Done,
                        moved(
                            remove::without_inode(t, existing),
                            ino,
                            parent,
                            newparent,
                            newname,
                            now,
                        ),
                    )
                },
                None => (Reply::Done, moved(t, ino, parent, newparent, newname, now)),
            }
        },
    }
}

/// What the statements do: `base` is the tables once room was made.
pub proof fn lemma_move(t: Tables, base: Tables, room: Seq<StmtView>, op: Rename, ino: u64, now: Stamp)
    requires
        op.newname is Some,
        t.apply_all(room) == Some(base),
        base.inodes.contains_key(ino),
        forall|other: u64| other != ino ==> !base.at(other, op.newparent, op.newname->Some_0@),
    ensures
        t.apply_all(
            room.push(
                Stmt::MoveInode { ino, parent: op.newparent, name: op.newname->Some_0@ },
            ).push(Stmt::TouchBoth { first: op.parent, second: op.newparent, now }),
        ) == Some(moved(base, ino, op.parent, op.newparent, op.newname->Some_0@, now)),
{
    let shift = Stmt::MoveInode { ino, parent: op.newparent, name: op.newname->Some_0@ };
    lemmas::lemma_apply_push(t, room, shift);
    lemmas::lemma_apply_push(
        t,
        room.push(shift),
        Stmt::TouchBoth { first: op.parent, second: op.newparent, now },
    );
}

/// From the move on.
proof fn lemma_move_runs<'a>(
    op: Rename<'a>,
    t: Tables,
    after: Tables,
    ino: u64,
    replaced: Option<u64>,
    now: Stamp,
    host: Option<HostSpace>,
)
    requires
        !op.fs.read_only,
        op.name is Some,
        op.newname is Some,
        t.apply_all(op.statements(now, ino, replaced)) == Some(after),
    ensures
        ({
            let (state, action) = op.moving(now, ino, replaced);
            let (world, event) = World::at_rest(t, now, host).perform(action);
            let end = operation::run::<Rename>(state, event, world, 2);
            &&& end is Some
            &&& end->Some_0.0 == ReplyView::Done
            &&& end->Some_0.1.committed == after
        }),
{
    let (state, action) = op.moving(now, ino, replaced);
    let rest = World::at_rest(t, now, host);
    let working = World { working: after, ..rest };
    let done = World::at_rest(after, now, host);
    assert(rest.perform(action) == (working, EventView::Ran));
    operation::lemma_step::<Rename>(state, Event::Ran, working, 2);
    assert(working.perform(Action::Commit) == (done, EventView::Committed));
}

/// `rename` gives the inode its new place and changes nothing of it: its row,
/// its content and its attributes are what they were. What stood at the new
/// place goes away, unless it is a directory that is not empty or the caller
/// asked that nothing be replaced; an exchange or a whiteout is refused.
pub proof fn rename_answers<'a>(
    fs: CofferFS,
    t: Tables,
    parent: u64,
    name: &'a str,
    newparent: u64,
    newname: &'a str,
    flags: RenameFlags,
    now: Stamp,
    host: Option<HostSpace>,
)
    requires
        t.well_formed(),
        !fs.read_only,
    ensures
        ({
            let (reply, after) = rename_result(
                t,
                parent,
                name@,
                newparent,
                newname@,
                flags,
                now,
            );
            operation::answers::<Rename>(
                Rename::start(fs, parent, Some(name), newparent, Some(newname), flags),
                t,
                now,
                host,
                reply,
                after,
            )
        }),
{
    let (reply, after) = rename_result(t, parent, name@, newparent, newname@, flags, now);
    let world = World::at_rest(t, now, host);
    let start = Rename::start(fs, parent, Some(name), newparent, Some(newname), flags);
    let sought = start.at(RenameStage::Source { now });
    let found = Event::Ino(t.child(parent, name@));
    operation::lemma_step::<Rename>(start, Event::Start, world, 8);
    operation::lemma_step::<Rename>(start.at(RenameStage::Begin), Event::Begun { now }, world, 7);
    if let Some(ino) = t.child(parent, name@) {
        lemmas::lemma_child_found(t, parent, name@);
        operation::lemma_step::<Rename>(sought, found, world, 6);
        let targeted = start.at(RenameStage::Target { now, ino });
        let target = t.child(newparent, newname@);
        if reply is Done {
            if target is Some && target != Some(ino) {
                let existing = target->Some_0;
                let base = remove::without_inode(t, existing);
                lemmas::lemma_child_found(t, newparent, newname@);
                remove::lemma_deletion(t, existing);
                assert forall|other: u64| other != ino implies !base.at(
                    other,
                    newparent,
                    newname@,
                ) by {
                    if base.at(other, newparent, newname@) {
                        assert(t.inodes.contains_key(other) && t.inodes.contains_key(existing));
                    }
                }
                lemma_move(t, base, coffer::inode_deletion(existing), start, ino, now);
                lemma_move_runs(start, t, after, ino, target, now, host);
                let (state, action) = start.moving(now, ino, target);
                let (working, event) = world.perform(action);
                operation::lemma_run_more::<Rename>(state, event, working, 2, 3);
                operation::lemma_step::<Rename>(targeted, Event::Ino(target), world, 5);
                let kinded = start.at(RenameStage::Kind { now, ino, existing });
                let kind = Event::Kind(t.inodes[existing].row.kind);
                operation::lemma_step::<Rename>(kinded, kind, world, 4);
                if t.is_dir(existing) {
                    operation::lemma_step::<Rename>(
                        start.at(RenameStage::Children { now, ino, existing }),
                        Event::Flag(false),
                        world,
                        3,
                    );
                }
            } else {
                assert forall|other: u64| other != ino implies !t.at(
                    other,
                    newparent,
                    newname@,
                ) by {
                    if t.at(other, newparent, newname@) {
                        lemmas::lemma_child(t, other, newparent, newname@);
                    }
                }
                lemmas::lemma_apply_empty(t);
                lemma_move(t, t, Seq::empty(), start, ino, now);
                lemma_move_runs(start, t, after, ino, None, now, host);
                let (state, action) = start.moving(now, ino, None);
                let (working, event) = world.perform(action);
                operation::lemma_run_more::<Rename>(state, event, working, 2, 4);
                operation::lemma_step::<Rename>(targeted, Event::Ino(target), world, 5);
            }
        } else if reply == ReplyView::Error(Errno::ENOTEMPTY) {
            let existing = target->Some_0;
            lemmas::lemma_child_found(t, newparent, newname@);
            operation::lemma_step::<Rename>(targeted, Event::Ino(target), world, 5);
            operation::lemma_step::<Rename>(
                start.at(RenameStage::Kind { now, ino, existing }),
                Event::Kind(t.inodes[existing].row.kind),
                world,
                4,
            );
        }
    }
    assert(operation::ends_after::<Rename>(start, world, 8, reply, after));
}

/// The inode at another place, before the directories are touched.
spec fn shifted(t: Tables, ino: u64, newparent: u64, newname: Seq<char>) -> Tables {
    Tables {
        inodes: t.inodes.insert(
            ino,
            Inode { parent: newparent, name: newname, row: t.inodes[ino].row },
        ),
        ..t
    }
}

/// A way up that does not come by the moved inode stays.
proof fn lemma_reaches_beside(
    t: Tables,
    ino: u64,
    newparent: u64,
    newname: Seq<char>,
    i: u64,
    n: nat,
)
    requires
        t.reaches_root(i, n),
        !t.passes(i, ino, n),
    ensures
        shifted(t, ino, newparent, newname).reaches_root(i, n),
    decreases n,
{
    if n > 0 {
        lemma_reaches_beside(t, ino, newparent, newname, t.inodes[i].parent, (n - 1) as nat);
    }
}

/// Any way up leads to the root still.
proof fn lemma_reaches_moved(
    t: Tables,
    ino: u64,
    newparent: u64,
    newname: Seq<char>,
    m: nat,
    i: u64,
    n: nat,
) -> (k: nat)
    requires
        t.inodes.contains_key(ino),
        ino != ROOT_INO,
        t.reaches_root(i, n),
        shifted(t, ino, newparent, newname).reaches_root(newparent, m),
    ensures
        shifted(t, ino, newparent, newname).reaches_root(i, k),
    decreases n,
{
    if i == ino {
        m + 1
    } else if n == 0 {
        0
    } else {
        let k = lemma_reaches_moved(
            t,
            ino,
            newparent,
            newname,
            m,
            t.inodes[i].parent,
            (n - 1) as nat,
        );
        k + 1
    }
}

proof fn lemma_moved(
    t: Tables,
    ino: u64,
    parent: u64,
    newparent: u64,
    newname: Seq<char>,
    now: Stamp,
)
    requires
        t.well_formed(),
        t.inodes.contains_key(ino),
        ino != ROOT_INO,
        t.is_dir(newparent),
        !t.within(newparent, ino),
        forall|other: u64| other != ino ==> !t.at(other, newparent, newname),
    ensures
        moved(t, ino, parent, newparent, newname, now).well_formed(),
        moved(t, ino, parent, newparent, newname, now).total() == t.total(),
{
    let t2 = shifted(t, ino, newparent, newname);
    lemmas::lemma_sum_replace(
        t.inodes,
        ino,
        Inode { parent: newparent, name: newname, row: t.inodes[ino].row },
    );
    assert(t2.inodes.dom() =~= t.inodes.dom());
    let m = choose|m: nat| t.reaches_root(newparent, m);
    assert(!t.passes(newparent, ino, m));
    lemma_reaches_beside(t, ino, newparent, newname, newparent, m);
    assert forall|i: u64| #[trigger] t2.inodes.contains_key(i) implies exists|n: nat|
        t2.reaches_root(i, n) by {
        assert(t.inodes.contains_key(i));
        let n = choose|n: nat| t.reaches_root(i, n);
        let k = lemma_reaches_moved(t, ino, newparent, newname, m, i, n);
        assert(t2.reaches_root(i, k));
    }
    assert forall|i: u64| t2.inodes.contains_key(i) && i != ROOT_INO implies t2.is_dir(
        #[trigger] t2.inodes[i].parent,
    ) by {
        if i != ino {
            assert(t.is_dir(t.inodes[i].parent));
        }
    }
    assert forall|i: u64, j: u64|
        #![trigger t2.inodes.contains_key(i), t2.inodes.contains_key(j)]
        t2.inodes.contains_key(i) && t2.inodes.contains_key(j) && t2.inodes[i].parent
            == t2.inodes[j].parent && t2.inodes[i].name == t2.inodes[j].name implies i == j by {
        assert(t.inodes.contains_key(i) && t.inodes.contains_key(j));
        if i == ino && j != ino {
            assert(!t.at(j, newparent, newname));
        } else if j == ino && i != ino {
            assert(!t.at(i, newparent, newname));
        }
    }
    lemmas::lemma_touched(t2, parent, now);
    lemmas::lemma_touched(t2.touched(parent, now), newparent, now);
}

/// The way up from elsewhere does not come by the moved inode after an inode
/// without children is gone, if it did not before.
proof fn lemma_passes_without(t: Tables, gone: u64, i: u64, other: u64, n: nat)
    requires
        t.well_formed(),
        t.inodes.contains_key(i),
        i != gone,
        !t.has_children(gone),
        remove::without_inode(t, gone).passes(i, other, n),
    ensures
        t.passes(i, other, n),
    decreases n,
{
    if i != other {
        assert(t.is_child(i, t.inodes[i].parent));
        assert(t.is_dir(t.inodes[i].parent));
        lemma_passes_without(t, gone, t.inodes[i].parent, other, (n - 1) as nat);
    }
}

/// Renaming keeps the container well formed and under its ceiling. (That
/// nothing is moved into itself, and that a directory replaces a directory
/// only, is the kernel's business.)
pub proof fn rename_keeps(
    fs: CofferFS,
    t: Tables,
    parent: u64,
    name: Seq<char>,
    newparent: u64,
    newname: Seq<char>,
    flags: RenameFlags,
    now: Stamp,
)
    requires
        t.well_formed(),
        t.inodes.contains_key(parent),
        t.is_dir(newparent),
        t.child(parent, name) matches Some(ino) ==> !t.within(newparent, ino),
    ensures
        ({
            let after = rename_result(t, parent, name, newparent, newname, flags, now).1;
            &&& after.well_formed()
            &&& t.under_ceiling(fs) ==> after.under_ceiling(fs)
            &&& t.numbers_fresh(after)
        }),
{
    let (reply, after) = rename_result(t, parent, name, newparent, newname, flags, now);
    if reply is Done {
        let ino = t.child(parent, name)->Some_0;
        lemmas::lemma_child_found(t, parent, name);
        assert(ino != ROOT_INO);
        let target = t.child(newparent, newname);
        if target is Some && target != Some(ino) {
            let existing = target->Some_0;
            let base = remove::without_inode(t, existing);
            lemmas::lemma_child_found(t, newparent, newname);
            if t.has_children(existing) {
                let kid = choose|k: u64| t.is_child(k, existing);
                if kid == ROOT_INO {
                    assert(!t.inodes.contains_key(0));
                }
                assert(t.is_dir(t.inodes[kid].parent));
            }
            remove::lemma_without_inode(t, existing);
            assert(existing != newparent) by {
                if existing == newparent {
                    assert(t.is_child(existing, newparent));
                }
            }
            assert(!base.within(newparent, ino)) by {
                if base.within(newparent, ino) {
                    let n = choose|n: nat| base.passes(newparent, ino, n);
                    lemma_passes_without(t, existing, newparent, ino, n);
                }
            }
            assert forall|other: u64| other != ino implies !base.at(other, newparent, newname) by {
                if base.at(other, newparent, newname) {
                    assert(t.inodes.contains_key(other) && t.inodes.contains_key(existing));
                }
            }
            lemma_moved(base, ino, parent, newparent, newname, now);
        } else {
            assert forall|other: u64| other != ino implies !t.at(other, newparent, newname) by {
                if t.at(other, newparent, newname) {
                    lemmas::lemma_child(t, other, newparent, newname);
                }
            }
            lemma_moved(t, ino, parent, newparent, newname, now);
        }
    }
}

/// After a rename the inode is found under the new name with the row, blocks
/// and attributes that it had, and not under the old one, unless they are the
/// same.
pub proof fn renamed_is_found<'a>(
    t: Tables,
    parent: u64,
    name: &'a str,
    newparent: u64,
    newname: &'a str,
    flags: RenameFlags,
    now: Stamp,
    later: Stamp,
    host: Option<HostSpace>,
)
    requires
        t.well_formed(),
        t.inodes.contains_key(parent),
        t.is_dir(newparent),
        t.child(parent, name@) matches Some(ino) ==> !t.within(newparent, ino),
        rename_result(t, parent, name@, newparent, newname@, flags, now).0 is Done,
    ensures
        ({
            let after = rename_result(t, parent, name@, newparent, newname@, flags, now).1;
            let ino = t.child(parent, name@)->Some_0;
            &&& after.child(newparent, newname@) == Some(ino)
            &&& (parent, name@) != (newparent, newname@) ==> after.child(parent, name@) is None
            &&& after.inodes[ino].row == t.inodes[ino].row
            &&& forall|b: i64| #[trigger] after.block(ino, b) == t.block(ino, b)
            &&& forall|x: Seq<char>| #[trigger] after.xattr(ino, x) == t.xattr(ino, x)
            &&& operation::answers::<Lookup>(
                Lookup::start(newparent, Some(newname)),
                after,
                later,
                host,
                Reply::Entry(coffer::attr_of(ino, t.inodes[ino].row)),
                after,
            )
        }),
{
    let after = rename_result(t, parent, name@, newparent, newname@, flags, now).1;
    let ino = t.child(parent, name@)->Some_0;
    let fs = CofferFS { max_size: 0, uid: 0, gid: 0, read_only: false, has_xattrs: true };
    lemmas::lemma_child_found(t, parent, name@);
    rename_keeps(fs, t, parent, name@, newparent, newname@, flags, now);
    lemmas::lemma_not_own_parent(t, ino);
    assert(t.passes(ino, ino, 0));
    assert(ino != newparent);
    assert(after.at(ino, newparent, newname@));
    lemmas::lemma_child(after, ino, newparent, newname@);
    if (parent, name@) != (newparent, newname@) {
        assert forall|i: u64| !after.at(i, parent, name@) by {
            if after.at(i, parent, name@) {
                assert(i != ino);
                assert(t.at(i, parent, name@));
                lemmas::lemma_child(t, i, parent, name@);
            }
        }
    }
    query::lookup_answers(after, newparent, newname, later, host);
}

} // verus!
