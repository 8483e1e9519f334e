//! What `setxattr` and `removexattr` do.
use vstd::prelude::*;

use crate::fs::coffer::CofferFS;
use crate::fs::laws::query;
use crate::fs::lemmas;
use crate::fs::operation;
use crate::fs::tables::{Tables, World};
use crate::fs::types::{
    Action, Errno, Event, EventView, HostSpace, Reply, ReplyView, Row, Stamp, Stmt, XATTR_CREATE,
    XATTR_REPLACE,
};
use crate::fs::xattr::{DropStage, Getxattr, Removexattr, SetStage, Setxattr};
use crate::fs::xattr;

verus! {

/// The tables with an attribute set at `now`.
pub open spec fn with_xattr(t: Tables, ino: u64, name: Seq<char>, value: Seq<u8>, now: Stamp) -> Tables {
    Tables { xattrs: t.xattrs.insert((ino, name), value), ..t }.with_row(
        ino,
        Row { ctime: now, ..t.inodes[ino].row },
    )
}

/// The tables with an attribute taken away at `now`.
pub open spec fn without_xattr(t: Tables, ino: u64, name: Seq<char>, now: Stamp) -> Tables {
    Tables { xattrs: t.xattrs.remove((ino, name)), ..t }.with_row(
        ino,
        Row { ctime: now, ..t.inodes[ino].row },
    )
}

/// The answer of `setxattr` and the tables afterwards.
pub open spec fn setxattr_result<'a>(op: Setxattr<'a>, t: Tables, now: Stamp) -> (
    ReplyView,
    Tables,
) {
    match op.refusal() {
        Some(errno) => (Reply::Error(errno), t),
        None => {
            let name = op.name->Some_0@;
            if !t.inodes.contains_key(op.ino) {
                (Reply::Error(Errno::ENOENT), t)
            } else {
                match op.flag_refusal(t.xattrs.contains_key((op.ino, name))) {
                    Some(errno) => (Reply::Error(errno), t),
                    None => (Reply::Done, with_xattr(t, op.ino, name, op.value@, now)),
                }
            }
        },
    }
}

/// `setxattr` sets the one attribute, or refuses and changes nothing. With
/// `XATTR_CREATE` it refuses where the attribute exists, with `XATTR_REPLACE`
/// where it does not.
pub proof fn setxattr_answers<'a>(
    fs: CofferFS,
    t: Tables,
    ino: u64,
    name: Option<&'a str>,
    value: &'a [u8],
    flags: i32,
    now: Stamp,
    host: Option<HostSpace>,
)
    ensures
        ({
            let op = Setxattr::start(fs, ino, name, value, flags);
            let (reply, after) = setxattr_result(op, t, now);
            operation::answers::<Setxattr>(op, t, now, host, reply, after)
        }),
{
    let start = Setxattr::start(fs, ino, name, value, flags);
    let (reply, after) = setxattr_result(start, t, now);
    let world = World::at_rest(t, now, host);
    if start.refusal() is None {
        operation::lemma_step::<Setxattr>(start, Event::Start, world, 6);
        operation::lemma_step::<Setxattr>(start.at(SetStage::Begin), Event::Begun { now }, world, 5);
        if t.inodes.contains_key(ino) {
            let exists = t.xattrs.contains_key((ino, name->Some_0@));
            operation::lemma_step::<Setxattr>(
                start.at(SetStage::Row { now }),
                Event::Row(t.row(ino)),
                world,
                4,
            );
            if start.flag_refusal(exists) is None {
                let list = start.statements(now);
                lemmas::lemma_apply_two(t, list[0], list[1]);
                assert(list =~= seq![list[0], list[1]]);
                let working = World { working: after, ..world };
                let done = World { committed: after, ..working };
                assert(world.perform(Action::Run(list)) == (working, EventView::Ran));
                operation::lemma_step::<Setxattr>(
                    start.at(SetStage::Exists { now }),
                    Event::Flag(exists),
                    world,
                    3,
                );
                operation::lemma_step::<Setxattr>(start.at(SetStage::Put), Event::Ran, working, 2);
                assert(working.perform(Action::Commit) == (done, EventView::Committed));
            }
        }
    }
    assert(operation::ends_after::<Setxattr>(start, world, 6, reply, after));
}

/// The answer of `removexattr` and the tables afterwards.
pub open spec fn removexattr_result<'a>(op: Removexattr<'a>, t: Tables, now: Stamp) -> (
    ReplyView,
    Tables,
) {
    match op.refusal() {
        Some(errno) => (Reply::Error(errno), t),
        None => {
            let name = op.name->Some_0@;
            if t.xattrs.contains_key((op.ino, name)) {
                (Reply::Done, without_xattr(t, op.ino, name, now))
            } else {
                (Reply::Error(Errno::ENODATA), t)
            }
        },
    }
}

/// `removexattr` takes the one attribute away, or says that there is none.
pub proof fn removexattr_answers<'a>(
    fs: CofferFS,
    t: Tables,
    ino: u64,
    name: Option<&'a str>,
    now: Stamp,
    host: Option<HostSpace>,
)
    ensures
        ({
            let op = Removexattr::start(fs, ino, name);
            let (reply, after) = removexattr_result(op, t, now);
            operation::answers::<Removexattr>(op, t, now, host, reply, after)
        }),
{
    let start = Removexattr::start(fs, ino, name);
    let (reply, after) = removexattr_result(start, t, now);
    let world = World::at_rest(t, now, host);
    if start.refusal() is None {
        let text = name->Some_0@;
        let exists = t.xattrs.contains_key((ino, text));
        let gone = Tables { xattrs: t.xattrs.remove((ino, text)), ..t };
        let dropped = World { working: gone, ..world };
        operation::lemma_step::<Removexattr>(start, Event::Start, world, 5);
        operation::lemma_step::<Removexattr>(
            start.at(DropStage::Begin),
            Event::Begun { now },
            world,
            4,
        );
        if exists {
            let stmt = Stmt::SetCtime { ino, ctime: now };
            lemmas::lemma_apply_one(gone, stmt);
            let working = World { working: after, ..world };
            let done = World { committed: after, ..working };
            assert(dropped.perform(Action::Run(seq![stmt])) == (working, EventView::Ran));
            operation::lemma_step::<Removexattr>(
                start.at(DropStage::Gone { now }),
                Event::Flag(true),
                dropped,
                3,
            );
            operation::lemma_step::<Removexattr>(
                start.at(DropStage::Touch),
                Event::Ran,
                working,
                2,
            );
            assert(working.perform(Action::Commit) == (done, EventView::Committed));
        }
    }
    assert(operation::ends_after::<Removexattr>(start, world, 5, reply, after));
}

/// Setting an attribute keeps the container well formed, and its files take
/// up as much as before.
pub proof fn setxattr_keeps<'a>(op: Setxattr<'a>, t: Tables, now: Stamp)
    requires
        t.well_formed(),
    ensures
        ({
            let after = setxattr_result(op, t, now).1;
            &&& after.well_formed()
            &&& after.total() == t.total()
            &&& t.numbers_fresh(after)
        }),
{
    let (reply, after) = setxattr_result(op, t, now);
    if reply is Done {
        lemma_xattrs_changed(t, op.ino, t.xattrs.insert((op.ino, op.name->Some_0@), op.value@), now);
    }
}

/// So does taking one away.
pub proof fn removexattr_keeps<'a>(op: Removexattr<'a>, t: Tables, now: Stamp)
    requires
        t.well_formed(),
    ensures
        ({
            let after = removexattr_result(op, t, now).1;
            &&& after.well_formed()
            &&& after.total() == t.total()
            &&& t.numbers_fresh(after)
        }),
{
    let (reply, after) = removexattr_result(op, t, now);
    if reply is Done {
        assert(t.xattrs.contains_key((op.ino, op.name->Some_0@)));
        lemma_xattrs_changed(t, op.ino, t.xattrs.remove((op.ino, op.name->Some_0@)), now);
    }
}

proof fn lemma_xattrs_changed(
    t: Tables,
    ino: u64,
    xattrs: Map<(u64, Seq<char>), Seq<u8>>,
    now: Stamp,
)
    requires
        t.well_formed(),
        t.inodes.contains_key(ino),
        xattrs.dom().finite(),
        forall|k: (u64, Seq<char>)| #[trigger]
            xattrs.contains_key(k) ==> k.0 == ino || t.xattrs.contains_key(k),
    ensures
        ({
            let after = Tables { xattrs, ..t }.with_row(
                ino,
                Row { ctime: now, ..t.inodes[ino].row },
            );
            &&& after.well_formed()
            &&& after.total() == t.total()
        }),
{
    let t1 = Tables { xattrs, ..t };
    assert forall|i: u64| #[trigger] t1.inodes.contains_key(i) implies exists|n: nat|
        t1.reaches_root(i, n) by {
        assert(t.inodes.contains_key(i));
        let n = choose|n: nat| t.reaches_root(i, n);
        lemmas::lemma_reaches_still(t, t1, i, n);
        assert(t1.reaches_root(i, n));
    }
    assert forall|i: u64| t1.inodes.contains_key(i) && i != crate::fs::types::ROOT_INO implies t1.is_dir(
        #[trigger] t1.inodes[i].parent,
    ) by {
        assert(t.is_dir(t.inodes[i].parent));
    }
    assert(t1.well_formed());
    lemmas::lemma_with_row(t1, ino, Row { ctime: now, ..t.inodes[ino].row });
}

/// An attribute reads back as it was set, and no other attribute changes.
pub proof fn xattr_reads_back<'a>(
    fs: CofferFS,
    t: Tables,
    ino: u64,
    name: &'a str,
    value: &'a [u8],
    flags: i32,
    size: u32,
    now: Stamp,
    later: Stamp,
    host: Option<HostSpace>,
)
    requires
        setxattr_result(Setxattr::start(fs, ino, Some(name), value, flags), t, now).0 is Done,
    ensures
        ({
            let op = Setxattr::start(fs, ino, Some(name), value, flags);
            let after = setxattr_result(op, t, now).1;
            &&& operation::answers::<Getxattr>(
                Getxattr::start(fs, ino, Some(name), size),
                after,
                later,
                host,
                xattr::sized_reply(size, value@),
                after,
            )
            &&& forall|other: u64, x: Seq<char>|
                (other, x) != (ino, name@) ==> #[trigger] after.xattr(other, x) == t.xattr(
                    other,
                    x,
                )
        }),
{
    let op = Setxattr::start(fs, ino, Some(name), value, flags);
    let after = setxattr_result(op, t, now).1;
    query::getxattr_answers(fs, after, ino, name, size, later, host);
}

/// An attribute that was taken away is not there any more, and no other
/// attribute changes.
pub proof fn removed_xattr_is_gone<'a>(
    fs: CofferFS,
    t: Tables,
    ino: u64,
    name: &'a str,
    size: u32,
    now: Stamp,
    later: Stamp,
    host: Option<HostSpace>,
)
    requires
        removexattr_result(Removexattr::start(fs, ino, Some(name)), t, now).0 is Done,
    ensures
        ({
            let op = Removexattr::start(fs, ino, Some(name));
            let after = removexattr_result(op, t, now).1;
            &&& operation::answers::<Getxattr>(
                Getxattr::start(fs, ino, Some(name), size),
                after,
                later,
                host,
                Reply::Error(Errno::ENODATA),
                after,
            )
            &&& forall|other: u64, x: Seq<char>|
                (other, x) != (ino, name@) ==> #[trigger] after.xattr(other, x) == t.xattr(
                    other,
                    x,
                )
        }),
{
    let op = Removexattr::start(fs, ino, Some(name));
    let after = removexattr_result(op, t, now).1;
    query::getxattr_answers(fs, after, ino, name, size, later, host);
}

} // verus!
