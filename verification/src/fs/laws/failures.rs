//! What is answered where the database fails.
use vstd::prelude::*;

use crate::fs::coffer::CofferFS;
use crate::fs::make::Make;
use crate::fs::operation::Operation;
use crate::fs::query::{Ask, Lookup, Stat};
use crate::fs::query;
use crate::fs::read::{Read, ReadView};
use crate::fs::readdir::Readdir;
use crate::fs::remove::Remove;
use crate::fs::rename::Rename;
use crate::fs::setattr::{Setattr, SetattrStage};
use crate::fs::types::{Action, ActionView, Errno, Event, EventView, Reply, ReplyView};
use crate::fs::write::Write;
use crate::fs::xattr::{Getxattr, Listxattr, Removexattr, Setxattr};

verus! {

/// Whether an event is a failure of the database.
pub open spec fn failure(event: EventView) -> bool {
    event is Failed || event is DiskFull
}

/// Whether a call ends there, with this error.
pub open spec fn ends_with(action: ActionView, errno: Errno) -> bool {
    action == ActionView::Reply(ReplyView::Error(errno))
}

/// A question that fails is answered with `EIO`, but for two: a directory whose
/// parent is not found is not there, and a block that cannot be read counts as
/// one that was never written.
pub proof fn failed_questions<'a>(
    event: EventView,
    lookup: Lookup<'a>,
    ask: Ask,
    get: Getxattr<'a>,
    list: Listxattr,
    readdir: Readdir,
    read: ReadView,
)
    requires
        failure(event),
    ensures
        lookup.stage is Child || lookup.stage is Row ==> ends_with(
            Lookup::next(lookup, event).1,
            Errno::EIO,
        ),
        ask.stage is Row ==> ends_with(Ask::next(ask, event).1, Errno::EIO),
        get.stage is Value ==> ends_with(Getxattr::next(get, event).1, Errno::EIO),
        list.stage is Value ==> ends_with(Listxattr::next(list, event).1, Errno::EIO),
        readdir.stage is Parent ==> ends_with(Readdir::next(readdir, event).1, Errno::ENOENT),
        readdir.stage is Children ==> ends_with(Readdir::next(readdir, event).1, Errno::EIO),
        read.stage is Row ==> ends_with(Read::<Vec<u8>>::next(read, event).1, Errno::EIO),
        read.stage is Block ==> Read::<Vec<u8>>::next(read, event) == Read::<Vec<u8>>::next(
            read,
            Event::Block(Seq::empty()),
        ),
{
}

/// `statfs` is answered all the same: as if nothing were used, or as if nothing
/// were known of the host.
pub proof fn failed_statfs(stat: Stat, event: EventView)
    requires
        failure(event),
    ensures
        stat.stage is Used && stat.fs.max_size > 0 ==> {
            &&& Stat::next(stat, event).1 matches Action::Reply(Reply::Statfs(s))
            &&& s.bfree == s.blocks
            &&& s.bavail == s.blocks
            &&& s.blocks == stat.fs.max_size / 4096
        },
        stat.stage is Used && stat.fs.max_size == 0 ==> Stat::next(stat, event).1 is HostSpace,
        stat.stage is Space ==> {
            &&& Stat::next(stat, event).1 matches Action::Reply(Reply::Statfs(s))
            &&& s.blocks == 0
            &&& s.bfree == 0
            &&& s.bavail == 0
        },
{
}

/// A change that fails is answered with `EIO`, whatever it was asked for.
pub proof fn failed_changes<'a>(
    event: EventView,
    remove: Remove<'a>,
    rename: Rename<'a>,
    set: Setxattr<'a>,
    gone: Removexattr<'a>,
)
    requires
        failure(event),
        !rename.fs.read_only,
        rename.name is Some,
        rename.newname is Some,
        set.refusal() is None,
        !gone.fs.read_only,
        gone.fs.has_xattrs,
        gone.name is Some,
    ensures
        !(remove.stage is Start) ==> ends_with(Remove::next(remove, event).1, Errno::EIO),
        !(rename.stage is Start) ==> ends_with(Rename::next(rename, event).1, Errno::EIO),
        !(set.stage is Start) ==> ends_with(Setxattr::next(set, event).1, Errno::EIO),
        !(gone.stage is Start) ==> ends_with(Removexattr::next(gone, event).1, Errno::EIO),
{
}

/// A write that fails is answered with `EIO`, and with `ENOSPC` where a change
/// fails because the disk is full. A total that cannot be found out does not
/// stop it.
pub proof fn failed_write<'a>(write: Write<'a>, event: EventView)
    requires
        failure(event),
        !write.fs.read_only,
        write.offset + write.data@.len() <= 0x7fff_ffff_ffff_ffff,
        !(write.stage is Start),
    ensures
        ({
            let action = Write::next(write, event).1;
            let changing = write.stage is Put || write.stage is Finish || write.stage is Commit;
            &&& changing && event is DiskFull ==> ends_with(action, Errno::ENOSPC)
            &&& changing && event is Failed ==> ends_with(action, Errno::EIO)
            &&& write.stage is Ceiling ==> !(action is Reply)
            &&& !changing && !(write.stage is Ceiling) ==> ends_with(action, Errno::EIO)
        }),
{
}

/// So is the creation of an entry; only for a file is a full disk told apart. A
/// lookup that fails does not stop a link.
pub proof fn failed_creation<'a>(make: Make<'a>, event: EventView)
    requires
        failure(event),
        make.name is Some,
        make.what.valid(),
        !(make.stage is Start),
    ensures
        ({
            let action = Make::next(make, event).1;
            let changing = make.stage is Insert || make.stage is Commit;
            let goes_on = make.stage is Ceiling || make.stage is Lookup && make.what is Link;
            &&& changing && make.what is File && event is DiskFull ==> ends_with(
                action,
                Errno::ENOSPC,
            )
            &&& changing && !(make.what is File && event is DiskFull) ==> ends_with(
                action,
                Errno::EIO,
            )
            &&& goes_on ==> !(action is Reply)
            &&& !changing && !goes_on ==> ends_with(action, Errno::EIO)
        }),
{
}

/// And a change of attributes. Where the owner could not be set nothing more is
/// changed, but a length that is too large is told before that; a total that
/// cannot be found out does not stop it.
pub proof fn failed_setattr(set: Setattr, event: EventView)
    requires
        failure(event),
        !(set.stage is Start),
    ensures
        ({
            let action = Setattr::next(set, event).1;
            &&& !(set.stage is Owner) && !(set.stage is Ceiling) ==> ends_with(action, Errno::EIO)
            &&& set.stage is Owner ==> match set.changes.size {
                None => ends_with(action, Errno::EIO),
                Some(size) => if size > 0x7fff_ffff_ffff_ffff {
                    ends_with(action, Errno::EFBIG)
                } else {
                    ends_with(action, Errno::EIO) || action is TotalSize && set.fs.max_size > 0
                },
            }
            &&& set.stage matches SetattrStage::Ceiling { ok, .. } ==> if ok {
                !(action is Reply)
            } else {
                ends_with(action, Errno::EIO)
            }
        }),
{
}

/// Nor is anything changed where the total is found out after that.
pub proof fn failed_owner_stops(set: Setattr, used: u64)
    ensures
        set.stage matches SetattrStage::Ceiling { ok, grow, .. } ==> !ok ==> ends_with(
            Setattr::next(set, Event::Total(used)).1,
            if set.fs.max_size > 0 && used + grow > set.fs.max_size {
                Errno::ENOSPC
            } else {
                Errno::EIO
            },
        ),
{
}

/// A file can be opened to be read on any mount, and in another way on one that
/// is not read-only. The handle is its inode.
pub proof fn opened_unless_read_only(fs: CofferFS, ino: u64, flags: i32)
    ensures
        flags & 3 == 0 ==> query::open_reply(fs, ino, flags) == (ReplyView::Opened { handle: ino }),
        !fs.read_only ==> query::open_reply(fs, ino, flags) == (ReplyView::Opened { handle: ino }),
        fs.read_only && flags & 3 != 0 ==> query::open_reply(fs, ino, flags) == ReplyView::Error(
            Errno::EROFS,
        ),
{
}

} // verus!
