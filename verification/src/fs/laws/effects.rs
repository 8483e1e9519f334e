//! What the calls that change a container make of it, seen from outside: on
//! which containers they are done, and what then is where.
use vstd::prelude::*;

use crate::fs::coffer::CofferFS;
use crate::fs::coffer;
use crate::fs::laws::content;
use crate::fs::laws::entries;
use crate::fs::laws::make;
use crate::fs::laws::privileges;
use crate::fs::laws::remove;
use crate::fs::laws::rename;
use crate::fs::laws::setattr;
use crate::fs::laws::xattr;
use crate::fs::lemmas;
use crate::fs::make::{Make, NewEntry};
use crate::fs::operation;
use crate::fs::remove::Remove;
use crate::fs::rename::{Rename, RenameFlags};
use crate::fs::setattr::{Changes, Setattr};
use crate::fs::tables::Tables;
use crate::fs::types::{Attr, Errno, HostSpace, Reply, Stamp, TimeChange};
use crate::fs::write::Write;
use crate::fs::xattr::{Removexattr, Setxattr};

verus! {

/// Whether two containers hold the same inode, place and all, under a number.
pub open spec fn same_inode(t: Tables, after: Tables, ino: u64) -> bool {
    &&& t.inodes.contains_key(ino) <==> after.inodes.contains_key(ino)
    &&& t.inodes.contains_key(ino) ==> after.inodes[ino] == t.inodes[ino]
}

/// Whether they hold the same content and the same attributes for it.
pub open spec fn same_belongings(t: Tables, after: Tables, ino: u64) -> bool {
    &&& forall|b: i64| #[trigger] after.block(ino, b) == t.block(ino, b)
    &&& forall|x: Seq<char>| #[trigger] after.xattr(ino, x) == t.xattr(ino, x)
}

/// Whether an inode is as it was but for the times of a change to what is in it.
pub open spec fn only_touched(t: Tables, after: Tables, ino: u64, now: Stamp) -> bool {
    let old = t.inodes[ino];
    let new = after.inodes[ino];
    &&& after.inodes.contains_key(ino)
    &&& new.parent == old.parent
    &&& new.name == old.name
    &&& new.row.kind == old.row.kind
    &&& new.row.mode == old.row.mode
    &&& new.row.uid == old.row.uid
    &&& new.row.gid == old.row.gid
    &&& new.row.size == old.row.size
    &&& new.row.symlink_target == old.row.symlink_target
    &&& new.row.atime == old.row.atime
    &&& new.row.mtime == now
    &&& new.row.ctime == now
}

/// Whether a mode has lost its privileges: the set-user-id bit is gone, and the
/// set-group-id bit where the group may execute. All other bits are the same.
pub open spec fn mode_without_privileges(old: i64, new: i64) -> bool {
    &&& new & 0o4000 == 0
    &&& old & 0o010 != 0 ==> new & 0o2000 == 0
    &&& old & 0o010 == 0 ==> new & 0o2000 == old & 0o2000
    &&& new & !(0o4000i64 | 0o2000i64) == old & !(0o4000i64 | 0o2000i64)
}

/// Whether the attributes of all inodes are the same, but that the capabilities
/// of `ino` are gone where `dropped` holds.
pub open spec fn capabilities_dropped(t: Tables, after: Tables, ino: u64, dropped: bool) -> bool {
    forall|i: u64, x: Seq<char>| #[trigger]
        after.xattr(i, x) == (if dropped && i == ino && x == "security.capability"@ {
            None
        } else {
            t.xattr(i, x)
        })
}

/// Whether a ceiling has room for `grow` more bytes.
pub open spec fn room_for(max_size: u64, t: Tables, grow: int) -> bool {
    max_size == 0 || grow <= 0 || t.total() + grow <= max_size
}

/// A write is refused for want of space where the container has a ceiling and
/// the sizes of all files, with what the file grows by, are more than that.
pub proof fn full_container_refuses_write<'a>(
    fs: CofferFS,
    t: Tables,
    ino: u64,
    offset: u64,
    data: &'a [u8],
    kill: bool,
    now: Stamp,
    host: Option<HostSpace>,
)
    requires
        t.well_formed(),
        t.total() <= 0x7fff_ffff_ffff_ffff,
        !fs.read_only,
        offset + data@.len() <= 0x7fff_ffff_ffff_ffff,
        t.inodes.contains_key(ino),
        !room_for(fs.max_size, t, offset + data@.len() - t.inodes[ino].row.size),
    ensures
        operation::answers::<Write>(
            Write::start(fs, ino, offset, data, kill),
            t,
            now,
            host,
            Reply::Error(Errno::ENOSPC),
            t,
        ),
{
    lemmas::lemma_sum_nonnegative(t.inodes);
    content::refused_write_changes_nothing(fs, t, ino, offset, data, kill, now, host);
}

/// What else `write` refuses: a read-only mount, what would pass the largest
/// length of a file, and a file that is not there.
pub proof fn write_refuses<'a>(
    fs: CofferFS,
    t: Tables,
    ino: u64,
    offset: u64,
    data: &'a [u8],
    kill: bool,
    now: Stamp,
    host: Option<HostSpace>,
)
    requires
        t.well_formed(),
    ensures
        ({
            let op = Write::start(fs, ino, offset, data, kill);
            let end = offset + data@.len();
            &&& fs.read_only ==> operation::answers::<Write>(
                op,
                t,
                now,
                host,
                Reply::Error(Errno::EROFS),
                t,
            )
            &&& !fs.read_only && end > 0x7fff_ffff_ffff_ffff ==> operation::answers::<Write>(
                op,
                t,
                now,
                host,
                Reply::Error(Errno::EFBIG),
                t,
            )
            &&& !fs.read_only && end <= 0x7fff_ffff_ffff_ffff && !t.inodes.contains_key(ino)
                ==> operation::answers::<Write>(
                op,
                t,
                now,
                host,
                Reply::Error(Errno::ENOENT),
                t,
            )
        }),
{
    if content::write_refusal(fs, t, ino, offset, data@.len()) is Some {
        content::refused_write_changes_nothing(fs, t, ino, offset, data, kill, now, host);
    }
}

/// Any other write is done: the bytes are where they were to go, zeros fill
/// what was skipped, and the rest of the file and every other file are as they
/// were. The file has the time of the write, and where its privileges were to
/// go they are gone.
pub proof fn write_stores<'a>(
    fs: CofferFS,
    t: Tables,
    ino: u64,
    offset: u64,
    data: &'a [u8],
    kill: bool,
    now: Stamp,
    host: Option<HostSpace>,
) -> (after: Tables)
    requires
        t.well_formed(),
        data@.len() <= u32::MAX,
        !fs.read_only,
        offset + data@.len() <= 0x7fff_ffff_ffff_ffff,
        t.inodes.contains_key(ino),
        room_for(fs.max_size, t, offset + data@.len() - t.inodes[ino].row.size),
    ensures
        exists|n: u32|
            n == data@.len() && #[trigger] operation::answers::<Write>(
                Write::start(fs, ino, offset, data, kill),
                t,
                now,
                host,
                Reply::Written(n),
                after,
            ),
        ({
            let old = t.inodes[ino].row;
            let new = after.inodes[ino].row;
            let end = offset + data@.len();
            &&& after.inodes.contains_key(ino)
            &&& after.inodes[ino].parent == t.inodes[ino].parent
            &&& after.inodes[ino].name == t.inodes[ino].name
            &&& end > old.size ==> new.size == end
            &&& end <= old.size ==> new.size == old.size
            &&& forall|i: int|
                0 <= i < new.size ==> #[trigger] after.content(ino)[i] == (if offset <= i < end {
                    data@[i - offset]
                } else if i < old.size {
                    t.content(ino)[i]
                } else {
                    0
                })
            &&& new.kind == old.kind
            &&& new.uid == old.uid
            &&& new.gid == old.gid
            &&& new.symlink_target == old.symlink_target
            &&& new.atime == old.atime
            &&& new.mtime == now
            &&& new.ctime == now
            &&& !kill ==> new.mode == old.mode
            &&& kill ==> mode_without_privileges(old.mode, new.mode)
        }),
        forall|other: u64|
            other != ino ==> #[trigger] same_inode(t, after, other) && same_belongings(
                t,
                after,
                other,
            ),
        capabilities_dropped(t, after, ino, kill),
        after.last_ino == t.last_ino,
{
    lemmas::lemma_sum_nonnegative(t.inodes);
    let after = content::write_answers(fs, t, ino, offset, data, kill, now, host);
    let old = t.inodes[ino].row;
    privileges::privileges_dropped(old.mode);
    let n = data@.len() as u32;
    assert(operation::answers::<Write>(
        Write::start(fs, ino, offset, data, kill),
        t,
        now,
        host,
        Reply::Written(n),
        after,
    ));
    let new = after.inodes[ino].row;
    let whole = content::overwritten(t.content(ino), offset as int, data@);
    assert forall|i: int| 0 <= i < new.size implies #[trigger] after.content(ino)[i] == (
    if offset <= i < offset + data@.len() {
        data@[i - offset]
    } else if i < old.size {
        t.content(ino)[i]
    } else {
        0
    }) by {
        assert(after.content(ino)[i] == whole[i]);
    }
    assert forall|other: u64| other != ino implies #[trigger] same_inode(t, after, other)
        && same_belongings(t, after, other) by {}
    after
}

/// A new length is refused for want of space exactly as a write is, and where
/// it is larger than any file may be. An inode that is not there cannot be
/// changed.
pub proof fn setattr_refuses(
    fs: CofferFS,
    t: Tables,
    ino: u64,
    changes: Changes,
    now: Stamp,
    host: Option<HostSpace>,
)
    requires
        t.well_formed(),
        t.total() <= 0x7fff_ffff_ffff_ffff,
        !fs.read_only,
    ensures
        ({
            let op = Setattr::start(fs, ino, changes);
            let size = changes.size->Some_0;
            &&& !t.inodes.contains_key(ino) ==> operation::answers::<Setattr>(
                op,
                t,
                now,
                host,
                Reply::Error(Errno::ENOENT),
                t,
            )
            &&& t.inodes.contains_key(ino) && changes.size is Some && size > 0x7fff_ffff_ffff_ffff
                ==> operation::answers::<Setattr>(
                op,
                t,
                now,
                host,
                Reply::Error(Errno::EFBIG),
                t,
            )
            &&& t.inodes.contains_key(ino) && changes.size is Some && size <= 0x7fff_ffff_ffff_ffff
                && !room_for(fs.max_size, t, size - t.inodes[ino].row.size)
                ==> operation::answers::<Setattr>(
                op,
                t,
                now,
                host,
                Reply::Error(Errno::ENOSPC),
                t,
            )
        }),
{
    lemmas::lemma_sum_nonnegative(t.inodes);
    setattr::setattr_answers(fs, t, ino, changes, now, host);
}

/// Whether a time is what a change makes of it.
pub open spec fn time_after(change: Option<TimeChange>, old: Stamp, now: Stamp, new: Stamp) -> bool {
    &&& change is None ==> new == old
    &&& change matches Some(TimeChange::Now) ==> new == now
    &&& change matches Some(TimeChange::At(stamp)) ==> new == stamp
}

/// Any other change is made, all of it and nothing else: mode, owner, length
/// and times are what was asked for, and what was not asked for stays. A
/// truncation by anyone but root, and a change of a file's owner, take the
/// privileges away unless the same call sets the mode.
pub proof fn setattr_changes(
    fs: CofferFS,
    t: Tables,
    ino: u64,
    changes: Changes,
    now: Stamp,
    host: Option<HostSpace>,
) -> (r: (Attr, Tables))
    requires
        t.well_formed(),
        !fs.read_only,
        t.inodes.contains_key(ino),
        changes.size matches Some(size) ==> size <= 0x7fff_ffff_ffff_ffff && room_for(
            fs.max_size,
            t,
            size - t.inodes[ino].row.size,
        ),
    ensures
        operation::answers::<Setattr>(
            Setattr::start(fs, ino, changes),
            t,
            now,
            host,
            Reply::Attr(r.0),
            r.1,
        ),
        entries::describes(r.0, ino, r.1.inodes[ino].row),
        ({
            let after = r.1;
            let old = t.inodes[ino].row;
            let new = after.inodes[ino].row;
            let owner = changes.uid is Some || changes.gid is Some;
            let dropped = changes.mode is None && ((changes.size is Some && changes.caller_uid != 0)
                || (owner && old.kind != 0));
            &&& after.inodes.contains_key(ino)
            &&& after.inodes[ino].parent == t.inodes[ino].parent
            &&& after.inodes[ino].name == t.inodes[ino].name
            &&& new.kind == old.kind
            &&& new.symlink_target == old.symlink_target
            &&& changes.mode matches Some(m) ==> new.mode & 0o7777 == (m as i64) & 0o7777
                && new.mode & !0o7777i64 == old.mode & !0o7777i64
            &&& changes.mode is None && !dropped ==> new.mode == old.mode
            &&& dropped ==> mode_without_privileges(old.mode, new.mode)
            &&& changes.uid matches Some(uid) ==> new.uid == uid
            &&& changes.uid is None ==> new.uid == old.uid
            &&& changes.gid matches Some(gid) ==> new.gid == gid
            &&& changes.gid is None ==> new.gid == old.gid
            &&& changes.size matches Some(size) ==> new.size == size
            &&& changes.size is None ==> new.size == old.size
            &&& forall|i: int|
                0 <= i < new.size ==> #[trigger] after.content(ino)[i] == (if i < old.size {
                    t.content(ino)[i]
                } else {
                    0
                })
            &&& time_after(changes.atime, old.atime, now, new.atime)
            &&& changes.size is Some && changes.atime is None && changes.mtime is None
                ==> new.mtime == now
            &&& !(changes.size is Some && changes.atime is None && changes.mtime is None)
                ==> time_after(changes.mtime, old.mtime, now, new.mtime)
            &&& changes.mode is Some || owner || changes.size is Some ==> new.ctime == now
            &&& changes.mode is None && !owner && changes.size is None ==> new.ctime == old.ctime
            &&& capabilities_dropped(t, after, ino, dropped)
            &&& forall|other: u64|
                other != ino ==> #[trigger] same_inode(t, after, other) && same_belongings(
                    t,
                    after,
                    other,
                )
            &&& after.last_ino == t.last_ino
        }),
{
    lemmas::lemma_sum_nonnegative(t.inodes);
    setattr::setattr_answers(fs, t, ino, changes, now, host);
    let after = setattr::setattr_result(fs, t, ino, changes, now).1;
    let old = t.inodes[ino].row;
    let new = after.inodes[ino].row;
    privileges::privileges_dropped(old.mode);
    if let Some(m) = changes.mode {
        setattr::chmod_is_kept(old, changes, m, now);
    }
    entries::lemma_describes(ino, new);
    match changes.size {
        Some(size) => {
            setattr::truncated_content(fs, t, ino, changes, size, now);
            let whole = setattr::resized(t.content(ino), size as nat);
            assert forall|i: int| 0 <= i < new.size implies #[trigger] after.content(ino)[i] == (
            if i < old.size {
                t.content(ino)[i]
            } else {
                0
            }) by {
                assert(after.content(ino)[i] == whole[i]);
            }
        },
        None => {
            assert(after.content(ino) =~= t.content(ino));
        },
    }
    assert forall|other: u64| other != ino implies #[trigger] same_inode(t, after, other)
        && same_belongings(t, after, other) by {}
    (coffer::attr_of(ino, new), after)
}

/// How many bytes an entry that is made adds to the container: the length of a
/// link's target, nothing else.
pub open spec fn added_bytes<'a>(what: NewEntry<'a>) -> int {
    match what {
        NewEntry::Link { target: Some(target) } => vstd::utf8::encode_utf8(target@).len() as int,
        _ => 0,
    }
}

/// Whether a container has room for an entry. A file needs at least one byte
/// of it to be left, a link as many as its target has; a directory needs none.
pub open spec fn room_for_entry<'a>(max_size: u64, t: Tables, what: NewEntry<'a>) -> bool {
    match what {
        NewEntry::Dir { .. } => true,
        NewEntry::File { .. } => max_size == 0 || t.total() < max_size,
        NewEntry::Link { .. } => max_size == 0 || t.total() + added_bytes(what) <= max_size,
    }
}

/// A name that is taken is refused, and an entry that there is no room for.
pub proof fn make_refuses<'a>(
    fs: CofferFS,
    t: Tables,
    parent: u64,
    name: &'a str,
    what: NewEntry<'a>,
    ino: u64,
    now: Stamp,
    host: Option<HostSpace>,
)
    requires
        t.well_formed(),
        t.is_dir(parent),
        t.total() <= 0x7fff_ffff_ffff_ffff,
        !(what matches NewEntry::Link { target: None }),
        added_bytes(what) <= usize::MAX,
        !fs.read_only,
    ensures
        t.at(ino, parent, name@) ==> operation::answers::<Make>(
            Make::start(fs, parent, Some(name), what),
            t,
            now,
            host,
            Reply::Error(Errno::EEXIST),
            t,
        ),
        (forall|i: u64| !t.at(i, parent, name@)) && !room_for_entry(fs.max_size, t, what)
            ==> operation::answers::<Make>(
            Make::start(fs, parent, Some(name), what),
            t,
            now,
            host,
            Reply::Error(Errno::ENOSPC),
            t,
        ),
{
    lemmas::lemma_sum_nonnegative(t.inodes);
    make::make_answers(fs, t, parent, name, what, now, host);
    if t.at(ino, parent, name@) {
        lemmas::lemma_child(t, ino, parent, name@);
    }
}

/// Any other entry is made: under a number that was never used, with the type,
/// permissions, owner and target that were asked for, and with nothing in it.
/// All else stays, but for the times of the directory.
pub proof fn make_adds<'a>(
    fs: CofferFS,
    t: Tables,
    parent: u64,
    name: &'a str,
    what: NewEntry<'a>,
    now: Stamp,
    host: Option<HostSpace>,
) -> (r: (Attr, Tables))
    requires
        t.well_formed(),
        t.is_dir(parent),
        t.total() <= 0x7fff_ffff_ffff_ffff,
        !(what matches NewEntry::Link { target: None }),
        added_bytes(what) <= usize::MAX,
        !fs.read_only,
        forall|i: u64| !t.at(i, parent, name@),
        room_for_entry(fs.max_size, t, what),
        t.last_ino < 0x7fff_ffff_ffff_ffff,
    ensures
        what is File ==> operation::answers::<Make>(
            Make::start(fs, parent, Some(name), what),
            t,
            now,
            host,
            Reply::Created { attr: r.0, handle: r.0.ino },
            r.1,
        ),
        !(what is File) ==> operation::answers::<Make>(
            Make::start(fs, parent, Some(name), what),
            t,
            now,
            host,
            Reply::Entry(r.0),
            r.1,
        ),
        ({
            let after = r.1;
            let ino = r.0.ino;
            let new = after.inodes[ino];
            &&& ino == t.last_ino + 1
            &&& after.last_ino == ino
            &&& entries::describes(r.0, ino, new.row)
            &&& after.inodes.contains_key(ino)
            &&& new.parent == parent
            &&& new.name == name@
            &&& new.row.uid == fs.uid
            &&& new.row.gid == fs.gid
            &&& new.row.size == added_bytes(what)
            &&& new.row.atime == now
            &&& new.row.mtime == now
            &&& new.row.ctime == now
            &&& what matches NewEntry::Dir { mode } ==> new.row.kind == 0 && new.row.mode & 0o7777
                == (mode as i64) & 0o7777 && new.row.mode & !0o7777i64 == 0o040000
            &&& what matches NewEntry::File { mode } ==> new.row.kind == 1 && new.row.mode & 0o7777
                == (mode as i64) & 0o7777 && new.row.mode & !0o7777i64 == 0o100000
            &&& what matches NewEntry::Link { target: Some(target) } ==> new.row.kind == 2
                && new.row.mode == 0o120777 && new.row.symlink_target == Some(target@)
            &&& !(what is Link) ==> new.row.symlink_target is None
            &&& only_touched(t, after, parent, now)
            &&& forall|other: u64|
                other != ino && other != parent ==> #[trigger] same_inode(t, after, other)
            &&& forall|other: u64| #[trigger] same_belongings(t, after, other)
        }),
{
    lemmas::lemma_sum_nonnegative(t.inodes);
    make::make_answers(fs, t, parent, name, what, now, host);
    let (reply, after) = make::make_result(fs, t, parent, name@, what, now);
    let ino = (t.last_ino + 1) as u64;
    let row = make::new_row(fs, what, now);
    entries::lemma_describes(ino, row);
    match what {
        NewEntry::Dir { mode } => {
            let m = mode as i64;
            assert((mode & 0o7777) as i64 == (mode as i64) & 0o7777) by (bit_vector);
            assert((0o040000i64 | (m & 0o7777)) & 0o7777 == m & 0o7777) by (bit_vector);
            assert((0o040000i64 | (m & 0o7777)) & !0o7777i64 == 0o040000) by (bit_vector);
        },
        NewEntry::File { mode } => {
            let m = mode as i64;
            assert((mode & 0o7777) as i64 == (mode as i64) & 0o7777) by (bit_vector);
            assert((0o100000i64 | (m & 0o7777)) & 0o7777 == m & 0o7777) by (bit_vector);
            assert((0o100000i64 | (m & 0o7777)) & !0o7777i64 == 0o100000) by (bit_vector);
        },
        NewEntry::Link { .. } => {
            assert(0o120000i64 | 0o777 == 0o120777) by (bit_vector);
        },
    }
    assert(!t.inodes.contains_key(ino));
    assert(ino != parent);
    assert(after.inodes[ino].row == row);
    assert forall|other: u64| other != ino && other != parent implies #[trigger] same_inode(
        t,
        after,
        other,
    ) by {}
    assert forall|other: u64| #[trigger] same_belongings(t, after, other) by {}
    (coffer::attr_of(ino, row), after)
}

/// What `unlink` and `rmdir` refuse: a name that is not there, and with `rmdir`
/// the root and a directory that has something in it.
pub proof fn remove_refuses<'a>(
    fs: CofferFS,
    t: Tables,
    parent: u64,
    name: &'a str,
    dir: bool,
    ino: u64,
    child: u64,
    now: Stamp,
    host: Option<HostSpace>,
)
    requires
        t.well_formed(),
        !fs.read_only,
    ensures
        ({
            let op = Remove::start(fs, parent, Some(name), dir);
            &&& (forall|i: u64| !t.at(i, parent, name@)) ==> operation::answers::<Remove>(
                op,
                t,
                now,
                host,
                Reply::Error(Errno::ENOENT),
                t,
            )
            &&& t.at(ino, parent, name@) && dir && ino != 1 && t.inodes[ino].row.kind == 0
                && t.is_child(child, ino) ==> operation::answers::<Remove>(
                op,
                t,
                now,
                host,
                Reply::Error(Errno::ENOTEMPTY),
                t,
            )
            &&& t.at(ino, parent, name@) && dir && ino == 1 ==> operation::answers::<Remove>(
                op,
                t,
                now,
                host,
                Reply::Error(Errno::EBUSY),
                t,
            )
        }),
{
    remove::remove_answers(fs, t, parent, name, dir, now, host);
    if t.at(ino, parent, name@) {
        lemmas::lemma_child(t, ino, parent, name@);
    }
}

/// Any other entry is removed: its inode is gone with its content and its
/// attributes, and all else stays but for the times of the directory.
pub proof fn remove_takes_away<'a>(
    fs: CofferFS,
    t: Tables,
    parent: u64,
    name: &'a str,
    dir: bool,
    ino: u64,
    now: Stamp,
    host: Option<HostSpace>,
) -> (after: Tables)
    requires
        t.well_formed(),
        !fs.read_only,
        t.at(ino, parent, name@),
        t.inodes.contains_key(parent),
        dir ==> ino != 1 && (t.inodes[ino].row.kind == 0 ==> forall|c: u64| !t.is_child(c, ino)),
    ensures
        operation::answers::<Remove>(
            Remove::start(fs, parent, Some(name), dir),
            t,
            now,
            host,
            Reply::Done,
            after,
        ),
        !after.inodes.contains_key(ino),
        forall|b: i64| !after.data.contains_key((ino, b)),
        forall|x: Seq<char>| !after.xattrs.contains_key((ino, x)),
        only_touched(t, after, parent, now),
        forall|other: u64|
            other != ino && other != parent ==> #[trigger] same_inode(t, after, other),
        forall|other: u64| other != ino ==> #[trigger] same_belongings(t, after, other),
        after.last_ino == t.last_ino,
{
    remove::remove_answers(fs, t, parent, name, dir, now, host);
    lemmas::lemma_child(t, ino, parent, name@);
    lemmas::lemma_not_own_parent(t, ino);
    let after = remove::remove_result(t, parent, name@, dir, now).1;
    assert forall|other: u64| other != ino && other != parent implies #[trigger] same_inode(
        t,
        after,
        other,
    ) by {}
    assert forall|other: u64| other != ino implies #[trigger] same_belongings(t, after, other) by {}
    after
}

/// What `rename` refuses: a name that is not there, exchanging and whiteouts,
/// a target that exists where it is not to be replaced, and a target that is a
/// directory with something in it.
pub proof fn rename_refuses<'a>(
    fs: CofferFS,
    t: Tables,
    parent: u64,
    name: &'a str,
    newparent: u64,
    newname: &'a str,
    flags: RenameFlags,
    ino: u64,
    existing: u64,
    child: u64,
    now: Stamp,
    host: Option<HostSpace>,
)
    requires
        t.well_formed(),
        !fs.read_only,
    ensures
        ({
            let op = Rename::start(fs, parent, Some(name), newparent, Some(newname), flags);
            let plain = !flags.exchange && !flags.whiteout;
            &&& (forall|i: u64| !t.at(i, parent, name@)) ==> operation::answers::<Rename>(
                op,
                t,
                now,
                host,
                Reply::Error(Errno::ENOENT),
                t,
            )
            &&& t.at(ino, parent, name@) && !plain ==> operation::answers::<Rename>(
                op,
                t,
                now,
                host,
                Reply::Error(Errno::EINVAL),
                t,
            )
            &&& t.at(ino, parent, name@) && plain && flags.noreplace && t.at(
                existing,
                newparent,
                newname@,
            ) ==> operation::answers::<Rename>(op, t, now, host, Reply::Error(Errno::EEXIST), t)
            &&& t.at(ino, parent, name@) && plain && !flags.noreplace && t.at(
                existing,
                newparent,
                newname@,
            ) && existing != ino && t.inodes[existing].row.kind == 0 && t.is_child(child, existing)
                ==> operation::answers::<Rename>(
                op,
                t,
                now,
                host,
                Reply::Error(Errno::ENOTEMPTY),
                t,
            )
        }),
{
    rename::rename_answers(fs, t, parent, name, newparent, newname, flags, now, host);
    if t.at(ino, parent, name@) {
        lemmas::lemma_child(t, ino, parent, name@);
    }
    if t.at(existing, newparent, newname@) {
        lemmas::lemma_child(t, existing, newparent, newname@);
    }
}

/// Any other entry is moved, with all that it has and is, to the new name. What
/// stood there is gone; all else stays but for the times of the directories.
pub proof fn rename_moves<'a>(
    fs: CofferFS,
    t: Tables,
    parent: u64,
    name: &'a str,
    newparent: u64,
    newname: &'a str,
    flags: RenameFlags,
    ino: u64,
    now: Stamp,
    host: Option<HostSpace>,
) -> (after: Tables)
    requires
        t.well_formed(),
        !fs.read_only,
        !flags.exchange && !flags.whiteout,
        t.at(ino, parent, name@),
        t.inodes.contains_key(parent),
        t.inodes.contains_key(newparent),
        ino != newparent,
        forall|e: u64| #[trigger]
            t.at(e, newparent, newname@) ==> !flags.noreplace && (e == ino || (e != parent && e
                != newparent && (t.inodes[e].row.kind == 0 ==> forall|c: u64|
                !t.is_child(c, e)))),
    ensures
        operation::answers::<Rename>(
            Rename::start(fs, parent, Some(name), newparent, Some(newname), flags),
            t,
            now,
            host,
            Reply::Done,
            after,
        ),
        after.inodes.contains_key(ino),
        after.inodes[ino].parent == newparent,
        after.inodes[ino].name == newname@,
        after.inodes[ino].row == t.inodes[ino].row,
        same_belongings(t, after, ino),
        only_touched(t, after, parent, now),
        only_touched(t, after, newparent, now),
        forall|other: u64|
            other != ino && t.at(other, newparent, newname@) ==> !#[trigger] after.inodes.contains_key(
                other,
            ) && (forall|b: i64| !after.data.contains_key((other, b))) && (forall|x: Seq<char>|
                !after.xattrs.contains_key((other, x))),
        forall|other: u64|
            other != ino && other != parent && other != newparent && !t.at(
                other,
                newparent,
                newname@,
            ) ==> #[trigger] same_inode(t, after, other),
        forall|other: u64|
            other != ino && !t.at(other, newparent, newname@) ==> #[trigger] same_belongings(
                t,
                after,
                other,
            ),
        after.last_ino == t.last_ino,
{
    rename::rename_answers(fs, t, parent, name, newparent, newname, flags, now, host);
    lemmas::lemma_child(t, ino, parent, name@);
    lemmas::lemma_not_own_parent(t, ino);
    let after = rename::rename_result(t, parent, name@, newparent, newname@, flags, now).1;
    let target = t.child(newparent, newname@);
    if target is Some {
        lemmas::lemma_child_found(t, newparent, newname@);
    }
    assert forall|other: u64| t.at(other, newparent, newname@) implies target == Some(other) by {
        lemmas::lemma_child(t, other, newparent, newname@);
    }
    assert forall|other: u64|
        other != ino && other != parent && other != newparent && !t.at(
            other,
            newparent,
            newname@,
        ) implies #[trigger] same_inode(t, after, other) by {}
    assert forall|other: u64|
        other != ino && !t.at(other, newparent, newname@) implies #[trigger] same_belongings(
        t,
        after,
        other,
    ) by {}
    after
}

/// Whether a name can be that of an attribute: it is not empty, and at most 255
/// bytes long.
pub open spec fn attribute_name(name: Seq<char>) -> bool {
    name.len() > 0 && vstd::utf8::encode_utf8(name).len() <= 255
}

/// What `setxattr` refuses, in this order: a container without attributes, a
/// name that is none, a value of more than 65536 bytes, an inode that is not
/// there; then what exists where it is to be created, and what does not where it
/// is to be replaced.
pub proof fn setxattr_refuses<'a>(
    fs: CofferFS,
    t: Tables,
    ino: u64,
    name: &'a str,
    value: &'a [u8],
    flags: i32,
    now: Stamp,
    host: Option<HostSpace>,
)
    requires
        !fs.read_only,
        vstd::utf8::encode_utf8(name@).len() <= usize::MAX,
    ensures
        ({
            let op = Setxattr::start(fs, ino, Some(name), value, flags);
            let fits = value@.len() <= 65536;
            let owned = t.inodes.contains_key(ino);
            let exists = t.xattrs.contains_key((ino, name@));
            &&& !fs.has_xattrs ==> operation::answers::<Setxattr>(
                op,
                t,
                now,
                host,
                Reply::Error(Errno::ENOTSUP),
                t,
            )
            &&& fs.has_xattrs && !attribute_name(name@) ==> operation::answers::<Setxattr>(
                op,
                t,
                now,
                host,
                Reply::Error(Errno::ERANGE),
                t,
            )
            &&& fs.has_xattrs && attribute_name(name@) && !fits ==> operation::answers::<Setxattr>(
                op,
                t,
                now,
                host,
                Reply::Error(Errno::E2BIG),
                t,
            )
            &&& fs.has_xattrs && attribute_name(name@) && fits && !owned
                ==> operation::answers::<Setxattr>(
                op,
                t,
                now,
                host,
                Reply::Error(Errno::ENOENT),
                t,
            )
            &&& fs.has_xattrs && attribute_name(name@) && fits && owned && exists && flags & 1 != 0
                ==> operation::answers::<Setxattr>(
                op,
                t,
                now,
                host,
                Reply::Error(Errno::EEXIST),
                t,
            )
            &&& fs.has_xattrs && attribute_name(name@) && fits && owned && !exists && flags & 2 != 0
                ==> operation::answers::<Setxattr>(
                op,
                t,
                now,
                host,
                Reply::Error(Errno::ENODATA),
                t,
            )
        }),
{
    xattr::setxattr_answers(fs, t, ino, Some(name), value, flags, now, host);
}

/// Any other attribute is set to the value. All else stays, but that the inode
/// changed at that time.
pub proof fn setxattr_sets<'a>(
    fs: CofferFS,
    t: Tables,
    ino: u64,
    name: &'a str,
    value: &'a [u8],
    flags: i32,
    now: Stamp,
    host: Option<HostSpace>,
) -> (after: Tables)
    requires
        !fs.read_only,
        fs.has_xattrs,
        attribute_name(name@),
        value@.len() <= 65536,
        t.inodes.contains_key(ino),
        t.xattrs.contains_key((ino, name@)) ==> flags & 1 == 0,
        !t.xattrs.contains_key((ino, name@)) ==> flags & 2 == 0,
    ensures
        operation::answers::<Setxattr>(
            Setxattr::start(fs, ino, Some(name), value, flags),
            t,
            now,
            host,
            Reply::Done,
            after,
        ),
        forall|i: u64, x: Seq<char>| #[trigger]
            after.xattr(i, x) == (if i == ino && x == name@ {
                Some(value@)
            } else {
                t.xattr(i, x)
            }),
        only_changed(t, after, ino, now),
{
    xattr::setxattr_answers(fs, t, ino, Some(name), value, flags, now, host);
    let op = Setxattr::start(fs, ino, Some(name), value, flags);
    let after = xattr::setxattr_result(op, t, now).1;
    assert forall|other: u64| other != ino implies #[trigger] same_inode(t, after, other) by {}
    after
}

/// Whether two containers hold the same files, but that the inode `ino` changed
/// at `now`; attributes do not count.
pub open spec fn only_changed(t: Tables, after: Tables, ino: u64, now: Stamp) -> bool {
    &&& after.data == t.data
    &&& after.last_ino == t.last_ino
    &&& forall|other: u64| other != ino ==> #[trigger] same_inode(t, after, other)
    &&& t.inodes.contains_key(ino) ==> {
        let old = t.inodes[ino];
        let new = after.inodes[ino];
        &&& after.inodes.contains_key(ino)
        &&& new.parent == old.parent
        &&& new.name == old.name
        &&& new.row.kind == old.row.kind
        &&& new.row.mode == old.row.mode
        &&& new.row.uid == old.row.uid
        &&& new.row.gid == old.row.gid
        &&& new.row.size == old.row.size
        &&& new.row.symlink_target == old.row.symlink_target
        &&& new.row.atime == old.row.atime
        &&& new.row.mtime == old.row.mtime
        &&& new.row.ctime == now
    }
}

/// An attribute that is there can be taken away, and one that is not cannot. All
/// else stays, but that the inode changed at that time.
pub proof fn removexattr_takes_away<'a>(
    fs: CofferFS,
    t: Tables,
    ino: u64,
    name: &'a str,
    now: Stamp,
    host: Option<HostSpace>,
) -> (after: Tables)
    requires
        !fs.read_only,
    ensures
        ({
            let op = Removexattr::start(fs, ino, Some(name));
            let there = fs.has_xattrs && t.xattrs.contains_key((ino, name@));
            &&& !there ==> after == t && operation::answers::<Removexattr>(
                op,
                t,
                now,
                host,
                Reply::Error(Errno::ENODATA),
                after,
            )
            &&& there ==> operation::answers::<Removexattr>(
                op,
                t,
                now,
                host,
                Reply::Done,
                after,
            ) && only_changed(t, after, ino, now) && forall|i: u64, x: Seq<char>| #[trigger]
                after.xattr(i, x) == (if i == ino && x == name@ {
                    None
                } else {
                    t.xattr(i, x)
                })
        }),
{
    xattr::removexattr_answers(fs, t, ino, Some(name), now, host);
    let op = Removexattr::start(fs, ino, Some(name));
    let after = xattr::removexattr_result(op, t, now).1;
    assert forall|other: u64| other != ino implies #[trigger] same_inode(t, after, other) by {}
    after
}

/// And only there: a write, a change of length, a new file or link that is
/// refused for want of space would have taken the sizes of all files past the
/// ceiling, and there is one. A new file would at least have met it.
pub proof fn no_space_means_the_ceiling<'a>(
    fs: CofferFS,
    t: Tables,
    ino: u64,
    offset: u64,
    data: &'a [u8],
    kill: bool,
    changes: Changes,
    parent: u64,
    name: &'a str,
    what: NewEntry<'a>,
    now: Stamp,
    host: Option<HostSpace>,
    after: Tables,
)
    requires
        t.well_formed(),
        t.total() <= 0x7fff_ffff_ffff_ffff,
        t.last_ino < 0x7fff_ffff_ffff_ffff,
        !fs.read_only,
        t.inodes.contains_key(ino),
        offset + data@.len() <= 0x7fff_ffff_ffff_ffff,
        data@.len() <= u32::MAX,
        changes.size is Some,
        changes.size->Some_0 <= 0x7fff_ffff_ffff_ffff,
        t.is_dir(parent),
        !(what matches NewEntry::Link { target: None }),
        added_bytes(what) <= usize::MAX,
    ensures
        ({
            let refused = Reply::Error(Errno::ENOSPC);
            let size = t.inodes[ino].row.size;
            &&& operation::answers::<Write>(
                Write::start(fs, ino, offset, data, kill),
                t,
                now,
                host,
                refused,
                after,
            ) ==> fs.max_size > 0 && t.total() + (offset + data@.len() - size) > fs.max_size
            &&& operation::answers::<Setattr>(
                Setattr::start(fs, ino, changes),
                t,
                now,
                host,
                refused,
                after,
            ) ==> fs.max_size > 0 && t.total() + (changes.size->Some_0 - size) > fs.max_size
            &&& operation::answers::<Make>(
                Make::start(fs, parent, Some(name), what),
                t,
                now,
                host,
                refused,
                after,
            ) ==> fs.max_size > 0 && !(what is Dir) && t.total() + added_bytes(what)
                >= fs.max_size && (what is Link ==> t.total() + added_bytes(what) > fs.max_size)
        }),
{
    let refused = Reply::Error(Errno::ENOSPC);
    let size = t.inodes[ino].row.size;
    let write = Write::start(fs, ino, offset, data, kill);
    if operation::answers::<Write>(write, t, now, host, refused, after) && room_for(
        fs.max_size,
        t,
        offset + data@.len() - size,
    ) {
        let done = write_stores(fs, t, ino, offset, data, kill, now, host);
        let n = choose|n: u32|
            n == data@.len() && #[trigger] operation::answers::<Write>(
                write,
                t,
                now,
                host,
                Reply::Written(n),
                done,
            );
        operation::answer_is_unique::<Write>(
            write,
            t,
            now,
            host,
            refused,
            after,
            Reply::Written(n),
            done,
        );
    }
    let set = Setattr::start(fs, ino, changes);
    if operation::answers::<Setattr>(set, t, now, host, refused, after) && room_for(
        fs.max_size,
        t,
        changes.size->Some_0 - size,
    ) {
        let (attr, done) = setattr_changes(fs, t, ino, changes, now, host);
        operation::answer_is_unique::<Setattr>(
            set,
            t,
            now,
            host,
            refused,
            after,
            Reply::Attr(attr),
            done,
        );
    }
    let make = Make::start(fs, parent, Some(name), what);
    if operation::answers::<Make>(make, t, now, host, refused, after) {
        if exists|i: u64| t.at(i, parent, name@) {
            let i = choose|i: u64| t.at(i, parent, name@);
            make_refuses(fs, t, parent, name, what, i, now, host);
            operation::answer_is_unique::<Make>(
                make,
                t,
                now,
                host,
                refused,
                after,
                Reply::Error(Errno::EEXIST),
                t,
            );
        } else if room_for_entry(fs.max_size, t, what) {
            let (attr, done) = make_adds(fs, t, parent, name, what, now, host);
            if what is File {
                operation::answer_is_unique::<Make>(
                    make,
                    t,
                    now,
                    host,
                    refused,
                    after,
                    Reply::Created { attr, handle: attr.ino },
                    done,
                );
            } else {
                operation::answer_is_unique::<Make>(
                    make,
                    t,
                    now,
                    host,
                    refused,
                    after,
                    Reply::Entry(attr),
                    done,
                );
            }
        }
    }
}

} // verus!
