//! What the calls that only ask tell of the container.
use vstd::prelude::*;

use crate::fs::coffer::CofferFS;
use crate::fs::coffer;
use crate::fs::laws::listing;
use crate::fs::laws::query;
use crate::fs::laws::read;
use crate::fs::lemmas;
use crate::fs::operation;
use crate::fs::query::{Ask, Lookup, Question, Stat};
use crate::fs::read::{Read, ReadView};
use crate::fs::readdir::Readdir;
use crate::fs::readdir;
use crate::fs::tables::{Tables, World};
use crate::fs::tables;
use crate::fs::types::{
    Attr, DirEntry, Errno, Event, FileType, HostSpace, Reply, RowView, Stamp, Statfs,
};
use crate::fs::xattr::{Getxattr, Listxattr};
use crate::fs::xattr;

verus! {

/// Whether a file of this type has a row of this kind.
pub open spec fn of_kind(file_type: FileType, kind: i64) -> bool {
    &&& file_type is Directory <==> kind == 0
    &&& file_type is Symlink <==> kind == 2
    &&& file_type is RegularFile <==> kind != 0 && kind != 2
}

/// Whether some attributes are those of the inode `ino` with this row. Its size
/// takes up whole units of 512 bytes, the last of which may not be full.
pub open spec fn describes(a: Attr, ino: u64, row: RowView) -> bool {
    &&& a.ino == ino
    &&& a.size == row.size
    &&& row.size <= 512 * a.blocks < row.size + 512
    &&& a.atime == row.atime
    &&& a.mtime == row.mtime
    &&& a.ctime == row.ctime
    &&& a.crtime == row.ctime
    &&& of_kind(a.kind, row.kind)
    &&& a.perm as i64 == row.mode & 0o7777
    &&& row.kind == 0 ==> a.nlink == 2
    &&& row.kind != 0 ==> a.nlink == 1
    &&& a.uid == row.uid
    &&& a.gid == row.gid
    &&& a.rdev == 0
    &&& a.blksize == 4096
    &&& a.flags == 0
}

pub(crate) proof fn lemma_describes(ino: u64, row: RowView)
    ensures
        describes(coffer::attr_of(ino, row), ino, row),
{
    let mode = row.mode;
    assert(0 <= mode & 0o7777 <= 0o7777) by (bit_vector);
}

/// `getattr` tells what the row of the inode holds.
pub proof fn getattr_describes(t: Tables, ino: u64, now: Stamp, host: Option<HostSpace>) -> (a: Attr)
    requires
        t.inodes.contains_key(ino),
    ensures
        operation::answers::<Ask>(
            Ask::start(ino, Question::Attributes),
            t,
            now,
            host,
            Reply::Attr(a),
            t,
        ),
        describes(a, ino, t.inodes[ino].row),
{
    query::ask_answers(t, ino, Question::Attributes, now, host);
    lemma_describes(ino, t.inodes[ino].row);
    coffer::attr_of(ino, t.inodes[ino].row)
}

/// `lookup` of an entry tells what the row of its inode holds.
pub proof fn lookup_describes<'a>(
    t: Tables,
    parent: u64,
    name: &'a str,
    ino: u64,
    now: Stamp,
    host: Option<HostSpace>,
) -> (a: Attr)
    requires
        t.names_unique(),
        t.at(ino, parent, name@),
    ensures
        operation::answers::<Lookup>(
            Lookup::start(parent, Some(name)),
            t,
            now,
            host,
            Reply::Entry(a),
            t,
        ),
        describes(a, ino, t.inodes[ino].row),
{
    lemmas::lemma_child(t, ino, parent, name@);
    query::lookup_answers(t, parent, name, now, host);
    lemma_describes(ino, t.inodes[ino].row);
    coffer::attr_of(ino, t.inodes[ino].row)
}

/// What is not there is not found, by its name or by its number.
pub proof fn absent_is_not_found<'a>(
    t: Tables,
    parent: u64,
    name: &'a str,
    ino: u64,
    question: Question,
    offset: u64,
    size: u32,
    now: Stamp,
    host: Option<HostSpace>,
)
    requires
        t.well_formed(),
        forall|i: u64| !t.at(i, parent, name@),
        !t.inodes.contains_key(ino),
    ensures
        operation::answers::<Lookup>(
            Lookup::start(parent, Some(name)),
            t,
            now,
            host,
            Reply::Error(Errno::ENOENT),
            t,
        ),
        operation::answers::<Ask>(
            Ask::start(ino, question),
            t,
            now,
            host,
            Reply::Error(Errno::ENOENT),
            t,
        ),
        operation::answers::<Read<Vec<u8>>>(
            ReadView::start(ino, offset, size),
            t,
            now,
            host,
            Reply::Error(Errno::ENOENT),
            t,
        ),
        operation::answers::<Readdir>(
            Readdir::start(ino, offset),
            t,
            now,
            host,
            Reply::Error(Errno::ENOENT),
            t,
        ),
{
    query::lookup_answers(t, parent, name, now, host);
    query::ask_answers(t, ino, question, now, host);
    read::read_answers(t, ino, offset, size, now, host);
    let world = World::at_rest(t, now, host);
    operation::lemma_step::<Readdir>(Readdir::start(ino, offset), Event::Start, world, 1);
    assert(operation::ends_after::<Readdir>(
        Readdir::start(ino, offset),
        world,
        1,
        Reply::Error(Errno::ENOENT),
        t,
    ));
}

/// `readlink` gives the bytes of the target, and none for what is no link.
pub proof fn readlink_tells_target(t: Tables, ino: u64, now: Stamp, host: Option<HostSpace>)
    requires
        t.inodes.contains_key(ino),
    ensures
        t.inodes[ino].row.symlink_target matches Some(target) ==> operation::answers::<Ask>(
            Ask::start(ino, Question::Target),
            t,
            now,
            host,
            Reply::Data(vstd::utf8::encode_utf8(target)),
            t,
        ),
        t.inodes[ino].row.symlink_target is None ==> operation::answers::<Ask>(
            Ask::start(ino, Question::Target),
            t,
            now,
            host,
            Reply::Data(Seq::empty()),
            t,
        ),
{
    query::ask_answers(t, ino, Question::Target, now, host);
}

/// `read` gives the bytes of the file from the offset on: as many as were asked
/// for, or as many as there are.
pub proof fn read_gives_bytes(
    t: Tables,
    ino: u64,
    offset: u64,
    size: u32,
    now: Stamp,
    host: Option<HostSpace>,
) -> (out: Seq<u8>)
    requires
        t.sizes_fit(),
        t.inodes.contains_key(ino),
    ensures
        operation::answers::<Read<Vec<u8>>>(
            ReadView::start(ino, offset, size),
            t,
            now,
            host,
            Reply::Data(out),
            t,
        ),
        out.len() <= size,
        offset + out.len() <= t.inodes[ino].row.size || out.len() == 0,
        out.len() < size ==> offset + out.len() >= t.inodes[ino].row.size,
        forall|i: int| 0 <= i < out.len() ==> #[trigger] out[i] == t.content(ino)[offset + i],
{
    read::read_answers(t, ino, offset, size, now, host);
    read::slice(t.content(ino), offset, size)
}

/// The byte at a place of a file lies in the block that the place falls into,
/// 131072 bytes to a block; where that block does not reach, it is zero.
pub proof fn content_lies_in_blocks(t: Tables, ino: u64, pos: int, block_no: i64, off: int)
    requires
        t.inodes.contains_key(ino),
        0 <= pos < t.inodes[ino].row.size,
        0 <= off < 131072,
        pos == block_no * 131072 + off,
    ensures
        t.content(ino).len() == t.inodes[ino].row.size,
        t.data.contains_key((ino, block_no)) && off < t.data[(ino, block_no)].len() ==> t.content(
            ino,
        )[pos] == t.data[(ino, block_no)][off],
        !(t.data.contains_key((ino, block_no)) && off < t.data[(ino, block_no)].len())
            ==> t.content(ino)[pos] == 0,
{
    assert(pos / 131072 == block_no && pos % 131072 == off) by (nonlinear_arith)
        requires
            0 <= off < 131072,
            pos == block_no * 131072 + off,
    ;
}

/// Whether an entry stands at its place in the listing of a directory: first
/// the directory itself, then the one that it is in, then its children, each
/// with the type that its row has. Reading goes on at the next place.
pub open spec fn stands_at(t: Tables, ino: u64, e: DirEntry<Seq<char>>, place: int) -> bool {
    &&& e.next_offset == place + 1
    &&& place == 0 ==> e.ino == ino && e.kind is Directory && e.name == "."@
    &&& place == 1 ==> e.kind is Directory && e.name == ".."@ && e.ino == (if ino == 1 {
        1
    } else {
        t.inodes[ino].parent
    })
    &&& place >= 2 ==> {
        &&& t.inodes.contains_key(e.ino)
        &&& t.inodes[e.ino].parent == ino
        &&& e.name == t.inodes[e.ino].name
        &&& of_kind(e.kind, t.inodes[e.ino].row.kind)
    }
}

/// `readdir` lists the directory, its parent and every child once, in the order
/// of their numbers and with the type and name that each has.
pub proof fn readdir_lists_all(t: Tables, ino: u64, offset: u64, now: Stamp, host: Option<HostSpace>) -> (list:
    Seq<DirEntry<Seq<char>>>)
    requires
        t.well_formed(),
        t.inodes.contains_key(ino),
    ensures
        operation::answers::<Readdir>(
            Readdir::start(ino, offset),
            t,
            now,
            host,
            Reply::Dir(list),
            t,
        ),
        forall|k: int| 0 <= k < list.len() ==> stands_at(t, ino, #[trigger] list[k], offset + k),
        forall|i: int, j: int|
            0 <= i < j < list.len() && offset + i >= 2 ==> (#[trigger] list[i]).ino < (
            #[trigger] list[j]).ino,
        offset < 2 ==> list.len() >= 2 - offset,
        offset <= 2 ==> forall|c: u64| #[trigger]
            t.inodes.contains_key(c) && t.inodes[c].parent == ino ==> exists|k: int|
                0 <= k < list.len() && offset + k >= 2 && (#[trigger] list[k]).ino == c,
{
    let children = tables::children_of(t, ino);
    listing::children_have_one_order(t, ino);
    listing::lemma_children_bounded(t, ino, children);
    query::readdir_answers(t, ino, offset, now, host, children);
    let parent = if ino == 1 {
        1
    } else {
        t.inodes[ino].parent
    };
    let list = readdir::listing(ino, parent, children, offset);
    assert forall|k: int| 0 <= k < list.len() implies stands_at(
        t,
        ino,
        #[trigger] list[k],
        offset + k,
    ) by {
        if offset + k >= 2 {
            assert(t.is_child(children[offset + k - 2].ino, ino));
        }
    }
    assert forall|i: int, j: int| 0 <= i < j < list.len() && offset + i >= 2 implies (
    #[trigger] list[i]).ino < (#[trigger] list[j]).ino by {
        assert(children[offset + i - 2].ino < children[offset + j - 2].ino);
    }
    if offset <= 2 {
        assert forall|c: u64| #[trigger]
            t.inodes.contains_key(c) && t.inodes[c].parent == ino implies exists|k: int|
            0 <= k < list.len() && offset + k >= 2 && (#[trigger] list[k]).ino == c by {
            assert(t.is_child(c, ino));
            let i = choose|i: int| 0 <= i < children.len() && #[trigger] children[i].ino == c;
            assert(list[i + 2 - offset].ino == c);
        }
    }
    list
}

/// A listing from any place on is the rest of the whole listing.
pub proof fn readdir_from_anywhere(
    t: Tables,
    ino: u64,
    offset: u64,
    now: Stamp,
    host: Option<HostSpace>,
    whole: Seq<DirEntry<Seq<char>>>,
    list: Seq<DirEntry<Seq<char>>>,
)
    requires
        t.well_formed(),
        t.inodes.contains_key(ino),
        operation::answers::<Readdir>(
            Readdir::start(ino, 0),
            t,
            now,
            host,
            Reply::Dir(whole),
            t,
        ),
        operation::answers::<Readdir>(
            Readdir::start(ino, offset),
            t,
            now,
            host,
            Reply::Dir(list),
            t,
        ),
    ensures
        offset <= whole.len() ==> list == whole.skip(offset as int),
        offset > whole.len() ==> list.len() == 0,
{
    let children = tables::children_of(t, ino);
    listing::children_have_one_order(t, ino);
    listing::lemma_children_bounded(t, ino, children);
    query::readdir_answers(t, ino, 0, now, host, children);
    query::readdir_answers(t, ino, offset, now, host, children);
    let parent = if ino == 1 {
        1
    } else {
        t.inodes[ino].parent
    };
    let a = readdir::listing(ino, parent, children, 0);
    let b = readdir::listing(ino, parent, children, offset);
    operation::answer_is_unique::<Readdir>(
        Readdir::start(ino, 0),
        t,
        now,
        host,
        Reply::Dir(whole),
        t,
        Reply::Dir(a),
        t,
    );
    operation::answer_is_unique::<Readdir>(
        Readdir::start(ino, offset),
        t,
        now,
        host,
        Reply::Dir(list),
        t,
        Reply::Dir(b),
        t,
    );
    if offset <= a.len() {
        assert(b =~= a.skip(offset as int));
    }
}

/// An entry of a listing has the type that `getattr` tells of its inode and
/// that `lookup` tells of its name.
pub proof fn listed_as_reported<'a>(
    t: Tables,
    ino: u64,
    offset: u64,
    now: Stamp,
    host: Option<HostSpace>,
    list: Seq<DirEntry<Seq<char>>>,
    k: int,
    name: &'a str,
    asked: Attr,
    found: Attr,
)
    requires
        t.well_formed(),
        t.inodes.contains_key(ino),
        operation::answers::<Readdir>(
            Readdir::start(ino, offset),
            t,
            now,
            host,
            Reply::Dir(list),
            t,
        ),
        0 <= k < list.len(),
        offset + k >= 2,
        list[k].name == name@,
        operation::answers::<Ask>(
            Ask::start(list[k].ino, Question::Attributes),
            t,
            now,
            host,
            Reply::Attr(asked),
            t,
        ),
        operation::answers::<Lookup>(
            Lookup::start(ino, Some(name)),
            t,
            now,
            host,
            Reply::Entry(found),
            t,
        ),
    ensures
        asked == found,
        list[k].ino == asked.ino,
        list[k].kind == asked.kind,
{
    let same = readdir_lists_all(t, ino, offset, now, host);
    operation::answer_is_unique::<Readdir>(
        Readdir::start(ino, offset),
        t,
        now,
        host,
        Reply::Dir(list),
        t,
        Reply::Dir(same),
        t,
    );
    let child = list[k].ino;
    assert(stands_at(t, ino, list[k], offset + k));
    assert(t.at(child, ino, name@));
    lemmas::lemma_child(t, child, ino, name@);
    query::lookup_answers(t, ino, name, now, host);
    query::ask_answers(t, child, Question::Attributes, now, host);
    let attr = coffer::attr_of(child, t.inodes[child].row);
    lemma_describes(child, t.inodes[child].row);
    operation::answer_is_unique::<Ask>(
        Ask::start(child, Question::Attributes),
        t,
        now,
        host,
        Reply::Attr(asked),
        t,
        Reply::Attr(attr),
        t,
    );
    operation::answer_is_unique::<Lookup>(
        Lookup::start(ino, Some(name)),
        t,
        now,
        host,
        Reply::Entry(found),
        t,
        Reply::Entry(attr),
        t,
    );
}

/// Under a ceiling `statfs` tells its size and what is left under it, in whole
/// blocks of 4096 bytes; without one it tells what the host has.
pub proof fn statfs_tells_space(fs: CofferFS, t: Tables, now: Stamp, host: Option<HostSpace>) -> (s: Statfs)
    requires
        0 <= t.total() <= 0x7fff_ffff_ffff_ffff,
    ensures
        operation::answers::<Stat>(Stat::start(fs), t, now, host, Reply::Statfs(s), t),
        s.bsize == 4096,
        s.frsize == 4096,
        s.namelen == 255,
        s.files == 0,
        s.ffree == 1_000_000,
        s.bavail == s.bfree || fs.max_size == 0,
        fs.max_size != 0 ==> {
            &&& 4096 * s.blocks <= fs.max_size < 4096 * s.blocks + 4096
            &&& t.total() <= fs.max_size ==> 4096 * s.bfree <= fs.max_size - t.total() < 4096
                * s.bfree + 4096
            &&& t.total() >= fs.max_size ==> s.bfree == 0
        },
        fs.max_size == 0 ==> match host {
            Some(space) => s.blocks == space.blocks && s.bfree == space.bfree && s.bavail
                == space.bavail,
            None => s.blocks == 0 && s.bfree == 0 && s.bavail == 0,
        },
{
    query::stat_answers(fs, t, now, host);
    crate::fs::query::statfs_of(
        if fs.max_size > 0 {
            crate::fs::query::space_under(fs.max_size, t.total() as u64)
        } else {
            host.unwrap_or(HostSpace { blocks: 0, bfree: 0, bavail: 0 })
        },
    )
}

/// `getxattr` gives the value, or how long it is where no room was offered. What
/// does not fit is refused, and what is not there is said so.
pub proof fn getxattr_gives_value<'a>(
    fs: CofferFS,
    t: Tables,
    ino: u64,
    name: &'a str,
    size: u32,
    now: Stamp,
    host: Option<HostSpace>,
)
    requires
        fs.has_xattrs,
        t.xattrs.contains_key((ino, name@)) ==> t.xattrs[(ino, name@)].len() <= u32::MAX,
    ensures
        ({
            let op = Getxattr::start(fs, ino, Some(name), size);
            let value = t.xattrs[(ino, name@)];
            &&& !t.xattrs.contains_key((ino, name@)) ==> operation::answers::<Getxattr>(
                op,
                t,
                now,
                host,
                Reply::Error(Errno::ENODATA),
                t,
            )
            &&& t.xattrs.contains_key((ino, name@)) && size == 0 ==> exists|n: u32|
                n == value.len() && #[trigger] operation::answers::<Getxattr>(
                    op,
                    t,
                    now,
                    host,
                    Reply::XattrSize(n),
                    t,
                )
            &&& t.xattrs.contains_key((ino, name@)) && 0 < size < value.len()
                ==> operation::answers::<Getxattr>(
                op,
                t,
                now,
                host,
                Reply::Error(Errno::ERANGE),
                t,
            )
            &&& t.xattrs.contains_key((ino, name@)) && size > 0 && value.len() <= size
                ==> operation::answers::<Getxattr>(op, t, now, host, Reply::Data(value), t)
        }),
{
    query::getxattr_answers(fs, t, ino, name, size, now, host);
    let value = t.xattrs[(ino, name@)];
    if t.xattrs.contains_key((ino, name@)) && size == 0 {
        let n = value.len() as u32;
        assert(operation::answers::<Getxattr>(
            Getxattr::start(fs, ino, Some(name), size),
            t,
            now,
            host,
            Reply::XattrSize(n),
            t,
        ));
    }
}

/// The bytes that `listxattr` gives are the names one after the other, each
/// with a zero byte behind it; with no room offered it tells how many they are,
/// and with too little it refuses.
pub proof fn listxattr_gives_names(
    fs: CofferFS,
    t: Tables,
    ino: u64,
    size: u32,
    now: Stamp,
    host: Option<HostSpace>,
    names: Seq<Seq<char>>,
) -> (bytes: Seq<u8>)
    requires
        t.well_formed(),
        fs.has_xattrs,
        tables::lists_xattrs(t, ino, names),
    ensures
        ({
            let op = Listxattr::start(fs, ino, size);
            &&& size > 0 && bytes.len() <= size ==> operation::answers::<Listxattr>(
                op,
                t,
                now,
                host,
                Reply::Data(bytes),
                t,
            )
            &&& 0 < size < bytes.len() ==> operation::answers::<Listxattr>(
                op,
                t,
                now,
                host,
                Reply::Error(Errno::ERANGE),
                t,
            )
            &&& size == 0 && bytes.len() <= u32::MAX ==> exists|n: u32|
                n == bytes.len() && #[trigger] operation::answers::<Listxattr>(
                    op,
                    t,
                    now,
                    host,
                    Reply::XattrSize(n),
                    t,
                )
        }),
        names.len() == 0 ==> bytes.len() == 0,
        forall|k: int|
            0 <= k < names.len() ==> name_within(bytes, #[trigger] names[k]),
        bytes.len() == byte_count(names),
{
    query::listxattr_answers(fs, t, ino, size, now, host, names);
    let bytes = xattr::joined_names(names);
    lemma_names_joined(names);
    if size == 0 && bytes.len() <= u32::MAX {
        let n = bytes.len() as u32;
        assert(operation::answers::<Listxattr>(
            Listxattr::start(fs, ino, size),
            t,
            now,
            host,
            Reply::XattrSize(n),
            t,
        ));
    }
    bytes
}

/// Whether a name stands in some bytes at a place where a name begins, a zero
/// byte behind it.
pub open spec fn name_at(bytes: Seq<u8>, at: int, name: Seq<char>) -> bool {
    let own = vstd::utf8::encode_utf8(name);
    &&& 0 <= at
    &&& at + own.len() < bytes.len()
    &&& at == 0 || bytes[at - 1] == 0
    &&& bytes.subrange(at, at + own.len() + 1) == own.push(0)
}

pub open spec fn name_within(bytes: Seq<u8>, name: Seq<char>) -> bool {
    exists|at: int| name_at(bytes, at, name)
}

/// How many bytes some names take, with one more byte for each.
pub open spec fn byte_count(names: Seq<Seq<char>>) -> nat
    decreases names.len(),
{
    if names.len() == 0 {
        0
    } else {
        vstd::utf8::encode_utf8(names[0]).len() + 1 + byte_count(names.skip(1))
    }
}

proof fn lemma_byte_count(names: Seq<Seq<char>>)
    requires
        names.len() > 0,
    ensures
        byte_count(names) == byte_count(names.drop_last()) + vstd::utf8::encode_utf8(
            names.last(),
        ).len() + 1,
    decreases names.len(),
{
    if names.len() > 1 {
        lemma_byte_count(names.skip(1));
        assert(names.skip(1).drop_last() =~= names.drop_last().skip(1));
        assert(names.skip(1).last() == names.last());
        assert(names.drop_last()[0] == names[0]);
    } else {
        assert(names.skip(1) =~= Seq::empty());
        assert(names.drop_last() =~= Seq::empty());
        assert(names[0] == names.last());
        assert(byte_count(Seq::empty()) == 0);
    }
}

proof fn lemma_names_joined(names: Seq<Seq<char>>)
    ensures
        xattr::joined_names(names).len() == byte_count(names),
        names.len() > 0 ==> xattr::joined_names(names).last() == 0,
        forall|k: int|
            0 <= k < names.len() ==> name_within(
                xattr::joined_names(names),
                #[trigger] names[k],
            ),
    decreases names.len(),
{
    if names.len() > 0 {
        let front = names.drop_last();
        lemma_names_joined(front);
        lemma_byte_count(names);
        let few = xattr::joined_names(front);
        assert(xattr::joined_names(names) =~= few + vstd::utf8::encode_utf8(names.last()).push(0));
        assert forall|k: int| 0 <= k < names.len() implies name_within(
            xattr::joined_names(names),
            #[trigger] names[k],
        ) by {
            if k < front.len() {
                assert(front[k] == names[k]);
                lemma_name_stays(few, vstd::utf8::encode_utf8(names.last()).push(0), names[k]);
            } else {
                lemma_name_added(few, names[k]);
            }
        }
    }
}

proof fn lemma_name_stays(few: Seq<u8>, more: Seq<u8>, name: Seq<char>)
    requires
        name_within(few, name),
    ensures
        name_within(few + more, name),
{
    let own = vstd::utf8::encode_utf8(name);
    let at = choose|at: int| name_at(few, at, name);
    assert((few + more).subrange(at, at + own.len() + 1) =~= few.subrange(at, at + own.len() + 1));
    assert(name_at(few + more, at, name));
}

proof fn lemma_name_added(few: Seq<u8>, name: Seq<char>)
    requires
        few.len() == 0 || few.last() == 0,
    ensures
        name_within(few + vstd::utf8::encode_utf8(name).push(0), name),
{
    let own = vstd::utf8::encode_utf8(name);
    let all = few + own.push(0);
    let at = few.len() as int;
    assert(all.subrange(at, at + own.len() + 1) =~= own.push(0));
    assert(name_at(all, at, name));
}

} // verus!
