//! What is refused from the outset, and what never changes anything.
use vstd::prelude::*;

use crate::fs::coffer::CofferFS;
use crate::fs::coffer;
use crate::fs::make::{Make, NewEntry};
use crate::fs::operation::Operation;
use crate::fs::operation;
use crate::fs::query::{Ask, Lookup, Stat};
use crate::fs::read::{Read, ReadView};
use crate::fs::readdir::Readdir;
use crate::fs::remove::Remove;
use crate::fs::rename::{Rename, RenameFlags};
use crate::fs::setattr::{Changes, Setattr};
use crate::fs::tables::{Tables, World};
use crate::fs::types::{
    Action, ActionView, Errno, Event, EventView, HostSpace, Reply, ReplyView, Stamp,
    MAX_FILE_SIZE,
};
use crate::fs::write::Write;
use crate::fs::xattr::{Getxattr, Listxattr, Removexattr, Setxattr};

verus! {

/// Whether an action may change the database.
pub open spec fn changes_something(action: ActionView) -> bool {
    match action {
        Action::Begin | Action::Commit | Action::RemoveXattr { .. } | Action::Run(_)
        | Action::Insert(_) => true,
        _ => false,
    }
}

/// A call that is refused at its first step.
proof fn lemma_refused<'a, O: Operation<'a>>(
    state: O::V,
    t: Tables,
    now: Stamp,
    host: Option<HostSpace>,
    errno: Errno,
)
    requires
        O::next(state, Event::Start).1 == coffer::failure(errno),
    ensures
        operation::answers::<O>(state, t, now, host, Reply::Error(errno), t),
{
    let world = World::at_rest(t, now, host);
    assert(operation::ends_after::<O>(state, world, 0, Reply::Error(errno), t));
}

/// On a read-only mount every call that would change something is answered
/// with `EROFS` before the database is asked for anything.
pub proof fn read_only_refuses<'a>(
    fs: CofferFS,
    t: Tables,
    now: Stamp,
    host: Option<HostSpace>,
    parent: u64,
    name: Option<&'a str>,
    newparent: u64,
    newname: Option<&'a str>,
    flags: RenameFlags,
    what: NewEntry<'a>,
    dir: bool,
    ino: u64,
    changes: Changes,
    offset: u64,
    data: &'a [u8],
    kill: bool,
    xflags: i32,
)
    requires
        fs.read_only,
    ensures
        ({
            let refused = ReplyView::Error(Errno::EROFS);
            let rename = Rename::start(fs, parent, name, newparent, newname, flags);
            let set = Setxattr::start(fs, ino, name, data, xflags);
            let write = Write::start(fs, ino, offset, data, kill);
            let make = Make::start(fs, parent, name, what);
            let remove = Remove::start(fs, parent, name, dir);
            &&& operation::answers::<Make>(make, t, now, host, refused, t)
            &&& operation::answers::<Remove>(remove, t, now, host, refused, t)
            &&& operation::answers::<Rename>(rename, t, now, host, refused, t)
            &&& operation::answers::<Setattr>(
                Setattr::start(fs, ino, changes),
                t,
                now,
                host,
                refused,
                t,
            )
            &&& operation::answers::<Write>(write, t, now, host, refused, t)
            &&& operation::answers::<Setxattr>(set, t, now, host, refused, t)
            &&& operation::answers::<Removexattr>(
                Removexattr::start(fs, ino, name),
                t,
                now,
                host,
                refused,
                t,
            )
        }),
{
    let errno = Errno::EROFS;
    lemma_refused::<Make>(Make::start(fs, parent, name, what), t, now, host, errno);
    lemma_refused::<Remove>(Remove::start(fs, parent, name, dir), t, now, host, errno);
    lemma_refused::<Rename>(
        Rename::start(fs, parent, name, newparent, newname, flags),
        t,
        now,
        host,
        errno,
    );
    lemma_refused::<Setattr>(Setattr::start(fs, ino, changes), t, now, host, errno);
    lemma_refused::<Write>(Write::start(fs, ino, offset, data, kill), t, now, host, errno);
    lemma_refused::<Setxattr>(Setxattr::start(fs, ino, name, data, xflags), t, now, host, errno);
    lemma_refused::<Removexattr>(Removexattr::start(fs, ino, name), t, now, host, errno);
}

/// A name that is not valid UTF-8 is answered with `EINVAL`.
pub proof fn bad_names_are_refused<'a>(
    fs: CofferFS,
    t: Tables,
    now: Stamp,
    host: Option<HostSpace>,
    parent: u64,
    name: Option<&'a str>,
    newparent: u64,
    newname: Option<&'a str>,
    flags: RenameFlags,
    what: NewEntry<'a>,
    dir: bool,
    ino: u64,
    data: &'a [u8],
    xflags: i32,
    size: u32,
)
    requires
        !fs.read_only,
    ensures
        ({
            let refused = ReplyView::Error(Errno::EINVAL);
            &&& operation::answers::<Make>(
                Make::start(fs, parent, None, what),
                t,
                now,
                host,
                refused,
                t,
            )
            &&& operation::answers::<Remove>(
                Remove::start(fs, parent, None, dir),
                t,
                now,
                host,
                refused,
                t,
            )
            &&& operation::answers::<Lookup>(Lookup::start(parent, None), t, now, host, refused, t)
            &&& name is None || newname is None ==> operation::answers::<Rename>(
                Rename::start(fs, parent, name, newparent, newname, flags),
                t,
                now,
                host,
                refused,
                t,
            )
            &&& fs.has_xattrs ==> operation::answers::<Setxattr>(
                Setxattr::start(fs, ino, None, data, xflags),
                t,
                now,
                host,
                refused,
                t,
            )
            &&& operation::answers::<Getxattr>(
                Getxattr::start(fs, ino, None, size),
                t,
                now,
                host,
                refused,
                t,
            )
            &&& operation::answers::<Removexattr>(
                Removexattr::start(fs, ino, None),
                t,
                now,
                host,
                refused,
                t,
            )
        }),
{
    let errno = Errno::EINVAL;
    lemma_refused::<Make>(Make::start(fs, parent, None, what), t, now, host, errno);
    lemma_refused::<Remove>(Remove::start(fs, parent, None, dir), t, now, host, errno);
    lemma_refused::<Lookup>(Lookup::start(parent, None), t, now, host, errno);
    if name is None || newname is None {
        lemma_refused::<Rename>(
            Rename::start(fs, parent, name, newparent, newname, flags),
            t,
            now,
            host,
            errno,
        );
    }
    if fs.has_xattrs {
        lemma_refused::<Setxattr>(Setxattr::start(fs, ino, None, data, xflags), t, now, host, errno);
    }
    lemma_refused::<Getxattr>(Getxattr::start(fs, ino, None, size), t, now, host, errno);
    lemma_refused::<Removexattr>(Removexattr::start(fs, ino, None), t, now, host, errno);
}

/// The calls that ask never hand out an action that changes something,
/// whatever the database answers.
pub proof fn questions_change_nothing<'a>(
    event: EventView,
    lookup: Lookup<'a>,
    ask: Ask,
    stat: Stat,
    read: ReadView,
    readdir: Readdir,
    get: Getxattr<'a>,
    list: Listxattr,
)
    ensures
        !changes_something(Lookup::next(lookup, event).1),
        !changes_something(Ask::next(ask, event).1),
        !changes_something(Stat::next(stat, event).1),
        !changes_something(Read::<Vec<u8>>::next(read, event).1),
        !changes_something(Readdir::next(readdir, event).1),
        !changes_something(Getxattr::next(get, event).1),
        !changes_something(Listxattr::next(list, event).1),
{
}

/// A container without extended attributes says so: no value is found, and
/// the list is empty.
pub proof fn no_xattrs_without_table<'a>(
    fs: CofferFS,
    t: Tables,
    ino: u64,
    name: &'a str,
    size: u32,
    now: Stamp,
    host: Option<HostSpace>,
)
    requires
        !fs.has_xattrs,
    ensures
        operation::answers::<Getxattr>(
            Getxattr::start(fs, ino, Some(name), size),
            t,
            now,
            host,
            Reply::Error(Errno::ENODATA),
            t,
        ),
        operation::answers::<Listxattr>(
            Listxattr::start(fs, ino, size),
            t,
            now,
            host,
            if size == 0 {
                Reply::XattrSize(0)
            } else {
                Reply::Data(Seq::empty())
            },
            t,
        ),
{
    let world = World::at_rest(t, now, host);
    lemma_refused::<Getxattr>(
        Getxattr::start(fs, ino, Some(name), size),
        t,
        now,
        host,
        Errno::ENODATA,
    );
    let reply = if size == 0 {
        Reply::XattrSize(0)
    } else {
        Reply::Data(Seq::empty())
    };
    assert(operation::ends_after::<Listxattr>(
        Listxattr::start(fs, ino, size),
        world,
        0,
        reply,
        t,
    ));
}

/// Where the disk that holds the container is full, a write and the creation
/// of a file are answered with `ENOSPC`, at whichever change it shows.
pub proof fn full_disk_is_told<'a>(write: Write<'a>, make: Make<'a>)
    requires
        !write.fs.read_only,
        write.end() <= MAX_FILE_SIZE,
        write.stage is Put || write.stage is Finish || write.stage is Commit,
        make.name is Some,
        make.what is File,
        make.stage is Insert || make.stage is Commit,
    ensures
        Write::next(write, Event::DiskFull).1 == coffer::failure(Errno::ENOSPC),
        Make::next(make, Event::DiskFull).1 == coffer::failure(Errno::ENOSPC),
{
}

} // verus!
