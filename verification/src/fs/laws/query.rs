//! What the calls answer that only ask.
use vstd::prelude::*;

use crate::fs::coffer::CofferFS;
use crate::fs::coffer;
use crate::fs::laws::listing;
use crate::fs::lemmas;
use crate::fs::operation;
use crate::fs::query::{Ask, Lookup, LookupStage, Question, Stat, StatStage};
use crate::fs::query;
use crate::fs::readdir::{Readdir, ReaddirStage};
use crate::fs::readdir;
use crate::fs::tables::{Tables, World};
use crate::fs::tables;
use crate::fs::types::{
    Child, Errno, Event, HostSpace, Reply, Stamp, MAX_FILE_SIZE, ROOT_INO,
};
use crate::fs::xattr::{Getxattr, Listxattr};
use crate::fs::xattr;

verus! {

/// `lookup` finds the entry of the name, and changes nothing.
pub proof fn lookup_answers<'a>(
    t: Tables,
    parent: u64,
    name: &'a str,
    now: Stamp,
    host: Option<HostSpace>,
)
    ensures
        operation::answers::<Lookup>(
            Lookup::start(parent, Some(name)),
            t,
            now,
            host,
            match t.child(parent, name@) {
                Some(ino) => Reply::Entry(coffer::attr_of(ino, t.inodes[ino].row)),
                None => Reply::Error(Errno::ENOENT),
            },
            t,
        ),
{
    let world = World::at_rest(t, now, host);
    let start = Lookup::start(parent, Some(name));
    let found = Event::Ino(t.child(parent, name@));
    operation::lemma_step::<Lookup>(start, Event::Start, world, 2);
    if let Some(ino) = t.child(parent, name@) {
        lemmas::lemma_child_found(t, parent, name@);
        operation::lemma_step::<Lookup>(start.at(LookupStage::Child), found, world, 1);
    }
    let reply = match t.child(parent, name@) {
        Some(ino) => Reply::Entry(coffer::attr_of(ino, t.inodes[ino].row)),
        None => Reply::Error(Errno::ENOENT),
    };
    assert(operation::ends_after::<Lookup>(start, world, 2, reply, t));
}

/// `getattr` and `readlink` answer from the row of the inode.
pub proof fn ask_answers(
    t: Tables,
    ino: u64,
    question: Question,
    now: Stamp,
    host: Option<HostSpace>,
)
    ensures
        operation::answers::<Ask>(
            Ask::start(ino, question),
            t,
            now,
            host,
            match t.row(ino) {
                Some(row) => Ask::start(ino, question).answer(row),
                None => Reply::Error(Errno::ENOENT),
            },
            t,
        ),
{
    let world = World::at_rest(t, now, host);
    let start = Ask::start(ino, question);
    operation::lemma_step::<Ask>(start, Event::Start, world, 1);
    let reply = match t.row(ino) {
        Some(row) => start.answer(row),
        None => Reply::Error(Errno::ENOENT),
    };
    assert(operation::ends_after::<Ask>(start, world, 1, reply, t));
}

/// `statfs` tells what is left under the ceiling, or on the host.
pub proof fn stat_answers(fs: CofferFS, t: Tables, now: Stamp, host: Option<HostSpace>)
    requires
        0 <= t.total() <= MAX_FILE_SIZE,
    ensures
        operation::answers::<Stat>(
            Stat::start(fs),
            t,
            now,
            host,
            Reply::Statfs(
                query::statfs_of(
                    if fs.max_size > 0 {
                        query::space_under(fs.max_size, t.total() as u64)
                    } else {
                        host.unwrap_or(HostSpace { blocks: 0, bfree: 0, bavail: 0 })
                    },
                ),
            ),
            t,
        ),
{
    let world = World::at_rest(t, now, host);
    let start = Stat::start(fs);
    let space = if fs.max_size > 0 {
        query::space_under(fs.max_size, t.total() as u64)
    } else {
        host.unwrap_or(HostSpace { blocks: 0, bfree: 0, bavail: 0 })
    };
    operation::lemma_step::<Stat>(start, Event::Start, world, 2);
    if fs.max_size == 0 {
        operation::lemma_step::<Stat>(
            start.at(StatStage::Used),
            Event::Total(t.total() as u64),
            world,
            1,
        );
    }
    assert(operation::ends_after::<Stat>(
        start,
        world,
        2,
        Reply::Statfs(query::statfs_of(space)),
        t,
    ));
}

/// `getxattr` hands out the value of the attribute.
pub proof fn getxattr_answers<'a>(
    fs: CofferFS,
    t: Tables,
    ino: u64,
    name: &'a str,
    size: u32,
    now: Stamp,
    host: Option<HostSpace>,
)
    requires
        fs.has_xattrs,
    ensures
        operation::answers::<Getxattr>(
            Getxattr::start(fs, ino, Some(name), size),
            t,
            now,
            host,
            match t.xattr(ino, name@) {
                Some(value) => xattr::sized_reply(size, value),
                None => Reply::Error(Errno::ENODATA),
            },
            t,
        ),
{
    let world = World::at_rest(t, now, host);
    let start = Getxattr::start(fs, ino, Some(name), size);
    operation::lemma_step::<Getxattr>(start, Event::Start, world, 1);
    let reply = match t.xattr(ino, name@) {
        Some(value) => xattr::sized_reply(size, value),
        None => Reply::Error(Errno::ENODATA),
    };
    assert(operation::ends_after::<Getxattr>(start, world, 1, reply, t));
}

/// `listxattr` names every attribute of the inode once, in the order of the
/// bytes of their names.
pub proof fn listxattr_answers(
    fs: CofferFS,
    t: Tables,
    ino: u64,
    size: u32,
    now: Stamp,
    host: Option<HostSpace>,
    names: Seq<Seq<char>>,
)
    requires
        t.well_formed(),
        fs.has_xattrs,
        tables::lists_xattrs(t, ino, names),
    ensures
        operation::answers::<Listxattr>(
            Listxattr::start(fs, ino, size),
            t,
            now,
            host,
            xattr::sized_reply(size, xattr::joined_names(names)),
            t,
        ),
{
    let world = World::at_rest(t, now, host);
    let start = Listxattr::start(fs, ino, size);
    listing::names_have_one_order(t, ino);
    operation::lemma_step::<Listxattr>(start, Event::Start, world, 1);
    let reply = xattr::sized_reply(size, xattr::joined_names(names));
    assert(operation::ends_after::<Listxattr>(start, world, 1, reply, t));
}

/// `readdir` lists the directory itself, its parent and then every child
/// once, in the order of their inode numbers, from the given place on.
pub proof fn readdir_answers(
    t: Tables,
    ino: u64,
    offset: u64,
    now: Stamp,
    host: Option<HostSpace>,
    children: Seq<Child<Seq<char>>>,
)
    requires
        t.well_formed(),
        t.inodes.contains_key(ino),
        tables::lists_children(t, ino, children),
    ensures
        operation::answers::<Readdir>(
            Readdir::start(ino, offset),
            t,
            now,
            host,
            Reply::Dir(
                readdir::listing(
                    ino,
                    if ino == ROOT_INO {
                        ROOT_INO
                    } else {
                        t.inodes[ino].parent
                    },
                    children,
                    offset,
                ),
            ),
            t,
        ),
{
    let world = World::at_rest(t, now, host);
    let start = Readdir::start(ino, offset);
    let parent = if ino == ROOT_INO {
        ROOT_INO
    } else {
        t.inodes[ino].parent
    };
    listing::children_have_one_order(t, ino);
    listing::lemma_children_bounded(t, ino, children);
    operation::lemma_step::<Readdir>(start, Event::Start, world, 2);
    if ino != ROOT_INO {
        operation::lemma_step::<Readdir>(
            start.at(ReaddirStage::Parent),
            Event::Ino(Some(parent)),
            world,
            1,
        );
    }
    let reply = Reply::Dir(readdir::listing(ino, parent, children, offset));
    assert(operation::ends_after::<Readdir>(start, world, 2, reply, t));
}

/// A listing that stops after some entries goes on where it stopped: the
/// place that the last of them gives leads to exactly the rest.
pub proof fn listing_goes_on(
    ino: u64,
    parent: u64,
    children: Seq<Child<Seq<char>>>,
    offset: u64,
    n: int,
)
    requires
        children.len() <= MAX_FILE_SIZE,
        0 < n <= readdir::listing(ino, parent, children, offset).len(),
    ensures
        ({
            let list = readdir::listing(ino, parent, children, offset);
            readdir::listing(ino, parent, children, list[n - 1].next_offset) == list.skip(n)
        }),
{
    let list = readdir::listing(ino, parent, children, offset);
    assert(list[n - 1] == readdir::entry_at(ino, parent, children, offset + (n - 1)));
    assert(list[n - 1].next_offset == offset + n);
    let rest = readdir::listing(ino, parent, children, list[n - 1].next_offset);
    assert forall|i: int| 0 <= i < rest.len() implies rest[i] == list.skip(n)[i] by {
        assert(list.skip(n)[i] == list[n + i]);
    }
    assert(rest =~= list.skip(n));
}

} // verus!
