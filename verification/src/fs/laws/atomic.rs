//! A call is done whole or not at all.
//!
//! Whatever requests fail, and wherever the program is cut off, the container
//! holds what it held before the call or what the call makes of it. A call
//! that is not answered with an error has been done.
use vstd::prelude::*;

use crate::fs::blocks;
use crate::fs::coffer::CofferFS;
use crate::fs::coffer;
use crate::fs::faults::Fault;
use crate::fs::faults;
use crate::fs::laws::content;
use crate::fs::laws::make;
use crate::fs::laws::remove;
use crate::fs::laws::rename;
use crate::fs::laws::setattr;
use crate::fs::laws::xattr;
use crate::fs::lemmas;
use crate::fs::make::{Make, MakeStage, NewEntry};
use crate::fs::operation::Operation;
use crate::fs::remove::{Remove, RemoveStage};
use crate::fs::rename::{Rename, RenameFlags, RenameStage};
use crate::fs::setattr::{Changes, Setattr, SetattrStage};
use crate::fs::tables::{Tables, World};
use crate::fs::types::{
    Event, EventView, HostSpace, ReplyView, Stamp, Stmt, BLOCK_SIZE, MAX_FILE_SIZE,
};
use crate::fs::write::{Write, WriteStage};
use crate::fs::xattr::{DropStage, Removexattr, SetStage, Setxattr};

verus! {

/// `end` is what became of a call on `t`, whose whole effect is `after`.
pub open spec fn whole_or_not(end: (Option<ReplyView>, World), t: Tables, after: Tables) -> bool {
    &&& end.1.committed == t || end.1.committed == after
    &&& end.0 is Some && !(end.0->Some_0 is Error) ==> end.1.committed == after
}

spec fn making<'a>(start: Make<'a>, t: Tables, now: Stamp) -> spec_fn(
    Make<'a>,
    EventView,
    World,
) -> bool {
    |s: Make<'a>, e: EventView, w: World|
        {
            let after = make::with_entry(
                t,
                start.parent,
                start.name->Some_0@,
                make::new_row(start.fs, start.what, now),
                now,
            );
            &&& s == start.at(s.stage)
            &&& w.clock == now
            &&& match s.stage {
                MakeStage::Start => w.committed == t,
                MakeStage::Begin => w.committed == t && (e matches Event::Begun { now: n } ==> n
                    == now && w.working == t),
                MakeStage::Lookup { now: n } => w.committed == t && w.working == t && n == now,
                MakeStage::Ceiling { now: n } => w.committed == t && w.working == t && n == now,
                MakeStage::Insert => w.committed == t && (e is Inserted ==> w.working == after),
                MakeStage::Commit { .. } => w.committed == (if e is Committed {
                    after
                } else {
                    t
                }),
                MakeStage::Fetch { .. } => w.committed == after,
                MakeStage::Over => false,
            }
        }
}

/// `mkdir`, `create` and `symlink`.
pub proof fn make_is_atomic<'a>(
    fs: CofferFS,
    t: Tables,
    parent: u64,
    name: Option<&'a str>,
    what: NewEntry<'a>,
    now: Stamp,
    host: Option<HostSpace>,
    faults: Seq<Fault>,
)
    ensures
        whole_or_not(
            faults::run_with_faults::<Make>(
                Make::start(fs, parent, name, what),
                Event::Start,
                World::at_rest(t, now, host),
                faults,
            ),
            t,
            make::with_entry(t, parent, name->Some_0@, make::new_row(fs, what, now), now),
        ),
{
    let start = Make::start(fs, parent, name, what);
    let world = World::at_rest(t, now, host);
    let inv = making(start, t, now);
    let list = coffer::child_insertion(
        parent,
        name->Some_0@,
        what.kind(),
        what.mode(),
        fs,
        what.target(),
        now,
    );
    lemmas::lemma_apply_two(t, list[0], list[1]);
    assert(list =~= seq![list[0], list[1]]);
    assert(faults::survives::<Make>(inv));
    faults::lemma_survives::<Make>(inv, start, Event::Start, world, faults);
}

spec fn removing<'a>(start: Remove<'a>, t: Tables, now: Stamp) -> spec_fn(
    Remove<'a>,
    EventView,
    World,
) -> bool {
    |s: Remove<'a>, e: EventView, w: World|
        {
            let found = t.child(start.parent, start.name->Some_0@);
            let after = remove::without_inode(t, found->Some_0).touched(start.parent, now);
            &&& s == start.at(s.stage)
            &&& w.clock == now
            &&& s.stage is Start || start.name is Some
            &&& match s.stage {
                RemoveStage::Start => w.committed == t,
                RemoveStage::Begin => w.committed == t && (e matches Event::Begun { now: n } ==> n
                    == now && w.working == t),
                RemoveStage::Lookup { now: n } => w.committed == t && w.working == t && n == now
                    && (e matches Event::Ino(i) ==> i == found),
                RemoveStage::Kind { now: n, ino } => w.committed == t && w.working == t && n == now
                    && found == Some(ino),
                RemoveStage::Children { now: n, ino } => w.committed == t && w.working == t && n
                    == now && found == Some(ino),
                RemoveStage::Delete => w.committed == t && (e is Ran ==> w.working == after),
                RemoveStage::Commit => w.committed == (if e is Committed {
                    after
                } else {
                    t
                }),
                RemoveStage::Over => false,
            }
        }
}

/// `unlink` and `rmdir`.
pub proof fn remove_is_atomic<'a>(
    fs: CofferFS,
    t: Tables,
    parent: u64,
    name: Option<&'a str>,
    dir: bool,
    now: Stamp,
    host: Option<HostSpace>,
    faults: Seq<Fault>,
)
    ensures
        whole_or_not(
            faults::run_with_faults::<Remove>(
                Remove::start(fs, parent, name, dir),
                Event::Start,
                World::at_rest(t, now, host),
                faults,
            ),
            t,
            remove::without_inode(t, t.child(parent, name->Some_0@)->Some_0).touched(parent, now),
        ),
{
    let start = Remove::start(fs, parent, name, dir);
    let world = World::at_rest(t, now, host);
    let inv = removing(start, t, now);
    let ino = t.child(parent, name->Some_0@)->Some_0;
    remove::lemma_deletion(t, ino);
    lemmas::lemma_apply_push(t, coffer::inode_deletion(ino), Stmt::Touch { ino: parent, now });
    assert(faults::survives::<Remove>(inv));
    faults::lemma_survives::<Remove>(inv, start, Event::Start, world, faults);
}

spec fn renaming<'a>(start: Rename<'a>, t: Tables, now: Stamp) -> spec_fn(
    Rename<'a>,
    EventView,
    World,
) -> bool {
    |s: Rename<'a>, e: EventView, w: World|
        {
            let source = t.child(start.parent, start.name->Some_0@);
            let target = t.child(start.newparent, start.newname->Some_0@);
            let after = rename::rename_result(
                t,
                start.parent,
                start.name->Some_0@,
                start.newparent,
                start.newname->Some_0@,
                start.flags,
                now,
            ).1;
            let plain = !start.flags.exchange && !start.flags.whiteout;
            &&& s == start.at(s.stage)
            &&& w.clock == now
            &&& match s.stage {
                RenameStage::Start => w.committed == t,
                RenameStage::Begin => w.committed == t && (e matches Event::Begun { now: n } ==> n
                    == now && w.working == t),
                RenameStage::Source { now: n } => w.committed == t && w.working == t && n == now
                    && (e matches Event::Ino(i) ==> i == source),
                RenameStage::Target { now: n, ino } => w.committed == t && w.working == t && n
                    == now && source == Some(ino) && (e matches Event::Ino(i) ==> i == target),
                RenameStage::Kind { now: n, ino, existing } => w.committed == t && w.working == t
                    && n == now && source == Some(ino) && target == Some(existing) && existing
                    != ino && plain && !start.flags.noreplace && (e matches Event::Kind(k) ==> k
                    == t.inodes[existing].row.kind),
                RenameStage::Children { now: n, ino, existing } => w.committed == t && w.working
                    == t && n == now && source == Some(ino) && target == Some(existing) && existing
                    != ino && plain && !start.flags.noreplace && (e matches Event::Flag(b) ==> b
                    == t.has_children(existing)),
                RenameStage::Move => w.committed == t && (e is Ran ==> w.working == after),
                RenameStage::Commit => w.committed == (if e is Committed {
                    after
                } else {
                    t
                }),
                RenameStage::Over => false,
            }
        }
}

/// What the statements of a rename make of the tables.
proof fn lemma_rename_statements<'a>(op: Rename<'a>, t: Tables, now: Stamp)
    requires
        t.well_formed(),
        op.name is Some,
        op.newname is Some,
        t.child(op.parent, op.name->Some_0@) is Some,
    ensures
        ({
            let ino = t.child(op.parent, op.name->Some_0@)->Some_0;
            let target = t.child(op.newparent, op.newname->Some_0@);
            let newname = op.newname->Some_0@;
            if target is Some && target != Some(ino) {
                t.apply_all(op.statements(now, ino, target)) == Some(
                    rename::moved(
                        remove::without_inode(t, target->Some_0),
                        ino,
                        op.parent,
                        op.newparent,
                        newname,
                        now,
                    ),
                )
            } else {
                t.apply_all(op.statements(now, ino, None)) == Some(
                    rename::moved(t, ino, op.parent, op.newparent, newname, now),
                )
            }
        }),
{
    let name = op.name->Some_0@;
    let newname = op.newname->Some_0@;
    let ino = t.child(op.parent, name)->Some_0;
    let target = t.child(op.newparent, newname);
    lemmas::lemma_child_found(t, op.parent, name);
    if target is Some && target != Some(ino) {
        let existing = target->Some_0;
        let base = remove::without_inode(t, existing);
        lemmas::lemma_child_found(t, op.newparent, newname);
        remove::lemma_deletion(t, existing);
        assert forall|other: u64| other != ino implies !base.at(other, op.newparent, newname) by {
            if base.at(other, op.newparent, newname) {
                assert(t.inodes.contains_key(other) && t.inodes.contains_key(existing));
            }
        }
        rename::lemma_move(t, base, coffer::inode_deletion(existing), op, ino, now);
    } else {
        assert forall|other: u64| other != ino implies !t.at(other, op.newparent, newname) by {
            if t.at(other, op.newparent, newname) {
                lemmas::lemma_child(t, other, op.newparent, newname);
            }
        }
        lemmas::lemma_apply_empty(t);
        rename::lemma_move(t, t, Seq::empty(), op, ino, now);
    }
}

/// `rename`.
pub proof fn rename_is_atomic<'a>(
    fs: CofferFS,
    t: Tables,
    parent: u64,
    name: Option<&'a str>,
    newparent: u64,
    newname: Option<&'a str>,
    flags: RenameFlags,
    now: Stamp,
    host: Option<HostSpace>,
    faults: Seq<Fault>,
)
    requires
        t.well_formed(),
    ensures
        whole_or_not(
            faults::run_with_faults::<Rename>(
                Rename::start(fs, parent, name, newparent, newname, flags),
                Event::Start,
                World::at_rest(t, now, host),
                faults,
            ),
            t,
            rename::rename_result(
                t,
                parent,
                name->Some_0@,
                newparent,
                newname->Some_0@,
                flags,
                now,
            ).1,
        ),
{
    let start = Rename::start(fs, parent, name, newparent, newname, flags);
    let world = World::at_rest(t, now, host);
    let inv = renaming(start, t, now);
    let source = t.child(parent, name->Some_0@);
    if name is Some && newname is Some && source is Some {
        lemma_rename_statements(start, t, now);
        lemmas::lemma_child_found(t, parent, name->Some_0@);
    }
    let target = t.child(newparent, newname->Some_0@);
    if target is Some {
        lemmas::lemma_child_found(t, newparent, newname->Some_0@);
    }
    assert(faults::survives::<Rename>(inv));
    faults::lemma_survives::<Rename>(inv, start, Event::Start, world, faults);
}

spec fn setting(start: Setattr, t: Tables, now: Stamp) -> spec_fn(Setattr, EventView, World) -> bool {
    |s: Setattr, e: EventView, w: World|
        {
            let ino = start.ino;
            let c = start.changes;
            let row = t.inodes[ino].row;
            let owned = t.with_row(ino, setattr::owned_row(row, c, now));
            let after = setattr::changed(t, ino, c, now);
            let known = crate::fs::setattr::known_of(row);
            let there = t.inodes.contains_key(ino);
            let fits = c.size matches Some(size) ==> size <= MAX_FILE_SIZE;
            &&& s == start.at(s.stage)
            &&& w.clock == now
            &&& match s.stage {
                SetattrStage::Start => w.committed == t,
                SetattrStage::Begin => w.committed == t && (e matches Event::Begun { now: n } ==> n
                    == now && w.working == t),
                SetattrStage::Row { now: n } => w.committed == t && w.working == t && n == now && (
                e matches Event::Row(r) ==> r == t.row(ino)),
                SetattrStage::Owner { now: n, known: k } => w.committed == t && n == now && k
                    == known && there && (e is Ran ==> w.working == owned),
                SetattrStage::Ceiling { now: n, known: k, size, ok, .. } => w.committed == t && n
                    == now && k == known && there && fits && c.size == Some(size) && (ok ==> w.working
                    == owned),
                SetattrStage::Block { now: n, known: k } => w.committed == t && n == now && k
                    == known && there && fits && w.working == owned && c.size is Some
                    && blocks::block_off(c.size->Some_0 as int) > 0 && (e matches Event::Block(b) ==> b
                    == owned.block(ino, blocks::block_no(c.size->Some_0 as int))),
                SetattrStage::Change => w.committed == t && (e is Ran ==> w.working == after),
                SetattrStage::Commit => w.committed == (if e is Committed {
                    after
                } else {
                    t
                }),
                SetattrStage::Fetch => w.committed == after,
                SetattrStage::Over => false,
            }
        }
}

/// `setattr`.
pub proof fn setattr_is_atomic(
    fs: CofferFS,
    t: Tables,
    ino: u64,
    changes: Changes,
    now: Stamp,
    host: Option<HostSpace>,
    faults: Seq<Fault>,
)
    requires
        t.well_formed(),
    ensures
        whole_or_not(
            faults::run_with_faults::<Setattr>(
                Setattr::start(fs, ino, changes),
                Event::Start,
                World::at_rest(t, now, host),
                faults,
            ),
            t,
            setattr::changed(t, ino, changes, now),
        ),
{
    let start = Setattr::start(fs, ino, changes);
    let world = World::at_rest(t, now, host);
    let inv = setting(start, t, now);
    if t.inodes.contains_key(ino) {
        let owned = t.with_row(ino, setattr::owned_row(t.inodes[ino].row, changes, now));
        let known = crate::fs::setattr::known_of(t.inodes[ino].row);
        let list = changes.owner_statements(ino, known, now);
        setattr::lemma_owner(t, ino, changes, now);
        if list.len() == 0 {
            assert(list =~= Seq::empty());
            lemmas::lemma_apply_empty(t);
        }
        if changes.size matches Some(size) ==> size <= MAX_FILE_SIZE {
            setattr::lemma_other(t, owned, ino, changes, now);
        }
    }
    assert(faults::survives::<Setattr>(inv));
    faults::lemma_survives::<Setattr>(inv, start, Event::Start, world, faults);
}

spec fn attaching<'a>(start: Setxattr<'a>, t: Tables, now: Stamp) -> spec_fn(
    Setxattr<'a>,
    EventView,
    World,
) -> bool {
    |s: Setxattr<'a>, e: EventView, w: World|
        {
            let after = xattr::with_xattr(t, start.ino, start.name->Some_0@, start.value@, now);
            &&& s == start.at(s.stage)
            &&& w.clock == now
            &&& match s.stage {
                SetStage::Start => w.committed == t,
                SetStage::Begin => w.committed == t && (e matches Event::Begun { now: n } ==> n
                    == now && w.working == t),
                SetStage::Row { now: n } => w.committed == t && w.working == t && n == now,
                SetStage::Exists { now: n } => w.committed == t && w.working == t && n == now,
                SetStage::Put => w.committed == t && (e is Ran ==> w.working == after),
                SetStage::Commit => w.committed == (if e is Committed {
                    after
                } else {
                    t
                }),
                SetStage::Over => false,
            }
        }
}

/// `setxattr`.
pub proof fn setxattr_is_atomic<'a>(
    fs: CofferFS,
    t: Tables,
    ino: u64,
    name: Option<&'a str>,
    value: &'a [u8],
    flags: i32,
    now: Stamp,
    host: Option<HostSpace>,
    faults: Seq<Fault>,
)
    ensures
        whole_or_not(
            faults::run_with_faults::<Setxattr>(
                Setxattr::start(fs, ino, name, value, flags),
                Event::Start,
                World::at_rest(t, now, host),
                faults,
            ),
            t,
            xattr::with_xattr(t, ino, name->Some_0@, value@, now),
        ),
{
    let start = Setxattr::start(fs, ino, name, value, flags);
    let world = World::at_rest(t, now, host);
    let inv = attaching(start, t, now);
    let list = start.statements(now);
    lemmas::lemma_apply_two(t, list[0], list[1]);
    assert(list =~= seq![list[0], list[1]]);
    assert(faults::survives::<Setxattr>(inv));
    faults::lemma_survives::<Setxattr>(inv, start, Event::Start, world, faults);
}

spec fn detaching<'a>(start: Removexattr<'a>, t: Tables, now: Stamp) -> spec_fn(
    Removexattr<'a>,
    EventView,
    World,
) -> bool {
    |s: Removexattr<'a>, e: EventView, w: World|
        {
            let name = start.name->Some_0@;
            let gone = Tables { xattrs: t.xattrs.remove((start.ino, name)), ..t };
            let after = xattr::without_xattr(t, start.ino, name, now);
            &&& s == start.at(s.stage)
            &&& w.clock == now
            &&& match s.stage {
                DropStage::Start => w.committed == t,
                DropStage::Begin => w.committed == t && (e matches Event::Begun { now: n } ==> n
                    == now && w.working == t),
                DropStage::Gone { now: n } => w.committed == t && n == now && (e is Flag
                    ==> w.working == gone),
                DropStage::Touch => w.committed == t && (e is Ran ==> w.working == after),
                DropStage::Commit => w.committed == (if e is Committed {
                    after
                } else {
                    t
                }),
                DropStage::Over => false,
            }
        }
}

/// `removexattr`.
pub proof fn removexattr_is_atomic<'a>(
    fs: CofferFS,
    t: Tables,
    ino: u64,
    name: Option<&'a str>,
    now: Stamp,
    host: Option<HostSpace>,
    faults: Seq<Fault>,
)
    ensures
        whole_or_not(
            faults::run_with_faults::<Removexattr>(
                Removexattr::start(fs, ino, name),
                Event::Start,
                World::at_rest(t, now, host),
                faults,
            ),
            t,
            xattr::without_xattr(t, ino, name->Some_0@, now),
        ),
{
    let start = Removexattr::start(fs, ino, name);
    let world = World::at_rest(t, now, host);
    let inv = detaching(start, t, now);
    let gone = Tables { xattrs: t.xattrs.remove((ino, name->Some_0@)), ..t };
    lemmas::lemma_apply_one(gone, Stmt::SetCtime { ino, ctime: now });
    assert(faults::survives::<Removexattr>(inv));
    faults::lemma_survives::<Removexattr>(inv, start, Event::Start, world, faults);
}

/// Whether a write has been done whole.
spec fn done_whole<'a>(op: Write<'a>, t: Tables, after: Tables, now: Stamp) -> bool {
    content::is_written(t, after, op.ino, op.offset, op.data@, op.kill, now)
}

spec fn writing<'a>(start: Write<'a>, t: Tables, now: Stamp) -> spec_fn(
    Write<'a>,
    EventView,
    World,
) -> bool {
    |s: Write<'a>, e: EventView, w: World|
        {
            let size = t.inodes[start.ino].row.size;
            let there = t.inodes.contains_key(start.ino);
            let len = start.data@.len();
            &&& s == start.at(s.stage)
            &&& w.clock == now
            &&& match s.stage {
                WriteStage::Start => w.committed == t,
                WriteStage::Begin => w.committed == t && (e matches Event::Begun { now: n } ==> n
                    == now && w.working == t),
                WriteStage::Row { now: n } => w.committed == t && w.working == t && n == now && (
                e matches Event::Row(r) ==> r == t.row(start.ino)),
                WriteStage::Ceiling { now: n, old_size, .. } => w.committed == t && w.working == t
                    && n == now && old_size == size && there,
                WriteStage::Block { now: n, old_size, done } => w.committed == t && n == now
                    && old_size == size && there && done < len && content::midway(
                    t,
                    w.working,
                    start,
                    done as int,
                ) && (e matches Event::Block(b) ==> b == w.working.block(
                    start.ino,
                    blocks::block_no(start.offset + done),
                )),
                WriteStage::Put { now: n, old_size, done } => w.committed == t && n == now
                    && old_size == size && there && done <= len && (e is Ran ==> content::midway(
                    t,
                    w.working,
                    start,
                    done as int,
                )),
                WriteStage::Finish => w.committed == t && (e is Ran ==> done_whole(
                    start,
                    t,
                    w.working,
                    now,
                )),
                WriteStage::Commit => if e is Committed {
                    done_whole(start, t, w.committed, now)
                } else {
                    w.committed == t
                },
                WriteStage::Over => false,
            }
        }
}

/// One request of a write.
proof fn lemma_write_step<'a>(
    start: Write<'a>,
    t: Tables,
    now: Stamp,
    s: Write<'a>,
    e: EventView,
    w: World,
    f: Fault,
)
    requires
        t.well_formed(),
        start.data@.len() <= usize::MAX,
        writing(start, t, now)(s, e, w),
        !(Write::next(s, e).1 is Reply),
    ensures
        writing(start, t, now)(
            Write::next(s, e).0,
            w.perform_with(Write::next(s, e).1, f).1,
            w.perform_with(Write::next(s, e).1, f).0,
        ),
{
    let len = start.data@.len() as int;
    assert(t.inodes.contains_key(start.ino) ==> content::midway(t, t, start, 0)) by {
        assert forall|k: (u64, i64)| k.0 == start.ino && #[trigger] t.data.contains_key(
            k,
        ) implies k.1 >= 0 && 0 < t.data[k].len() <= BLOCK_SIZE by {}
    }
    match s.stage {
        WriteStage::Block { done, .. } => {
            if e is Block {
                let block = w.working.block(start.ino, blocks::block_no(start.offset + done));
                content::lemma_store(t, w.working, start, done as int);
                lemmas::lemma_apply_one(
                    w.working,
                    start.step_statement(done as int, block),
                );
            }
        },
        WriteStage::Put { done, .. } => {
            if e is Ran && done >= len {
                content::lemma_last(t, w.working, start, now);
            }
        },
        WriteStage::Row { .. } => {
            if t.inodes.contains_key(start.ino) && len == 0 {
                content::lemma_last(t, w.working, start, now);
            }
        },
        WriteStage::Ceiling { .. } => {
            if len == 0 {
                content::lemma_last(t, w.working, start, now);
            }
        },
        _ => {},
    }
}

/// `write`, however many blocks it takes.
pub proof fn write_is_atomic<'a>(
    fs: CofferFS,
    t: Tables,
    ino: u64,
    offset: u64,
    data: &'a [u8],
    kill: bool,
    now: Stamp,
    host: Option<HostSpace>,
    faults: Seq<Fault>,
)
    requires
        t.well_formed(),
        data@.len() <= usize::MAX,
    ensures
        ({
            let (reply, world) = faults::run_with_faults::<Write>(
                Write::start(fs, ino, offset, data, kill),
                Event::Start,
                World::at_rest(t, now, host),
                faults,
            );
            let written = content::is_written(t, world.committed, ino, offset, data@, kill, now);
            &&& world.committed == t || written
            &&& reply is Some && !(reply->Some_0 is Error) ==> written
        }),
{
    let start = Write::start(fs, ino, offset, data, kill);
    let world = World::at_rest(t, now, host);
    let inv = writing(start, t, now);
    assert forall|s: Write<'a>, e: EventView, w: World, f: Fault|
        #![trigger w.perform_with(Write::next(s, e).1, f)]
        inv(s, e, w) && !(Write::next(s, e).1 is Reply) implies inv(
        Write::next(s, e).0,
        w.perform_with(Write::next(s, e).1, f).1,
        w.perform_with(Write::next(s, e).1, f).0,
    ) by {
        lemma_write_step(start, t, now, s, e, w, f);
    }
    assert(faults::survives::<Write>(inv));
    faults::lemma_survives::<Write>(inv, start, Event::Start, world, faults);
}

} // verus!
