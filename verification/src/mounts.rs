//! The mount table: which of the mounts in it are coffer's own.
use vstd::prelude::*;
use vstd::slice::slice_subrange;

use crate::paths::{file_name_of, join, parent_dir};
use crate::paths;
use crate::text::{
    chars_of, find, has_prefix, is_text, lines_of, parse_number, same_text, split_at_each,
    string_of,
};
use crate::text;

verus! {

/// One of coffer's own mounts. The number is that of its FUSE connection.
#[derive(Debug, PartialEq, Eq)]
pub struct Mount {
    pub mountpoint: String,
    pub connection: u32,
}

pub struct MountView {
    pub mountpoint: Seq<char>,
    pub connection: u32,
}

impl View for Mount {
    type V = MountView;

    open spec fn view(&self) -> MountView {
        MountView { mountpoint: self.mountpoint@, connection: self.connection }
    }
}

pub open spec fn mounts_view(list: Seq<Mount>) -> Seq<MountView> {
    Seq::new(list.len(), |i: int| list[i]@)
}

/// The text that `String::from_utf8_lossy` makes of some bytes.
pub uninterp spec fn lossy_text(bytes: Seq<u8>) -> Seq<char>;

/// `String::from_utf8_lossy`: bytes that are valid UTF-8 are the text that they
/// encode; what else becomes of the bytes is left to its name.
#[verifier::external_body]
fn from_utf8_lossy(bytes: &Vec<u8>) -> (s: String)
    ensures
        s@ == lossy_text(bytes@),
        vstd::utf8::valid_utf8(bytes@) ==> s@ == vstd::utf8::decode_utf8(bytes@),
{
    String::from_utf8_lossy(bytes).into_owned()
}

/// The text of some bytes: what they encode where they are valid UTF-8.
pub open spec fn text_of_bytes(bytes: Seq<u8>) -> Seq<char> {
    if vstd::utf8::valid_utf8(bytes) {
        vstd::utf8::decode_utf8(bytes)
    } else {
        lossy_text(bytes)
    }
}

/// An octal digit.
pub open spec fn octal(b: u8) -> bool {
    48 <= b <= 55
}

/// Whether an escape stands at the start: a backslash and three octal digits.
pub open spec fn escape_at(s: Seq<u8>) -> bool {
    s.len() >= 4 && s[0] == 92 && octal(s[1]) && octal(s[2]) && octal(s[3])
}

/// The bytes that an escaped path stands for.
pub open spec fn unescaped(s: Seq<u8>) -> Seq<u8>
    decreases s.len(),
{
    if s.len() == 0 {
        Seq::empty()
    } else if escape_at(s) {
        seq![(((s[1] - 48) * 64 + (s[2] - 48) * 8 + (s[3] - 48)) % 256) as u8] + unescaped(
            s.skip(4),
        )
    } else {
        seq![s[0]] + unescaped(s.skip(1))
    }
}

fn unescape_bytes(bytes: &[u8]) -> (out: Vec<u8>)
    ensures
        out@ == unescaped(bytes@),
{
    let n: usize = bytes.len();
    let mut out: Vec<u8> = Vec::new();
    let mut i: usize = 0;
    assert(bytes@.skip(0) =~= bytes@);
    assert(out@ + unescaped(bytes@) =~= unescaped(bytes@));
    while i < n
        invariant
            i <= n == bytes@.len(),
            out@ + unescaped(bytes@.skip(i as int)) == unescaped(bytes@),
        decreases n - i,
    {
        let ghost rest = bytes@.skip(i as int);
        let ghost before = out@;
        if bytes[i] == 92 && n - i > 3 && 48 <= bytes[i + 1] && bytes[i + 1] <= 55 && 48
            <= bytes[i + 2] && bytes[i + 2] <= 55 && 48 <= bytes[i + 3] && bytes[i + 3] <= 55 {
            let a: u32 = (bytes[i + 1] - 48) as u32;
            let b: u32 = (bytes[i + 2] - 48) as u32;
            let c: u32 = (bytes[i + 3] - 48) as u32;
            let code: u32 = (a * 64 + b * 8 + c) % 256;
            out.push(code as u8);
            assert(rest.skip(4) =~= bytes@.skip(i + 4));
            i += 4;
        } else {
            out.push(bytes[i]);
            assert(rest.skip(1) =~= bytes@.skip(i + 1));
            i += 1;
        }
        assert(out@ + unescaped(bytes@.skip(i as int)) =~= before + unescaped(rest));
    }
    assert(bytes@.skip(n as int) =~= Seq::empty());
    assert(out@ + unescaped(Seq::<u8>::empty()) =~= out@);
    out
}

/// The path that a field of the mount table stands for.
pub open spec fn path_in(field: Seq<char>) -> Seq<char> {
    text_of_bytes(unescaped(vstd::utf8::encode_utf8(field)))
}

/// A path as the mount table writes it, with its escapes undone.
pub fn unescape_mountinfo(field: &str) -> (s: String)
    ensures
        s@ == path_in(field@),
{
    let bytes = unescape_bytes(field.as_bytes());
    from_utf8_lossy(&bytes)
}

/// The place of the first ` - ` at or after `from`, or the length.
pub open spec fn dash_place(s: Seq<char>, from: int) -> int
    decreases s.len() - from,
{
    if from + 3 > s.len() {
        s.len() as int
    } else if s[from] == ' ' && s[from + 1] == '-' && s[from + 2] == ' ' {
        from
    } else {
        dash_place(s, from + 1)
    }
}

/// What stands between the first ` - ` and the next, or the end.
pub open spec fn after_dash(line: Seq<char>) -> Option<Seq<char>> {
    let i = dash_place(line, 0);
    if i < line.len() {
        let rest = line.skip(i + 3);
        Some(rest.take(dash_place(rest, 0)))
    } else {
        None
    }
}

fn find_dash(s: &[char], from: usize) -> (r: usize)
    requires
        from <= s@.len(),
    ensures
        r == dash_place(s@, from as int),
        r < s@.len() ==> from <= r && r + 3 <= s@.len(),
        r <= s@.len(),
{
    let n: usize = s.len();
    let mut i: usize = from;
    while n - i >= 3
        invariant
            from <= i <= n == s@.len(),
            dash_place(s@, i as int) == dash_place(s@, from as int),
        decreases n - i,
    {
        if s[i] == ' ' && s[i + 1] == '-' && s[i + 2] == ' ' {
            return i;
        }
        i += 1;
    }
    n
}

/// The number behind the first colon of `major:minor`.
pub open spec fn minor_of(devnum: Seq<char>) -> Option<u32> {
    let pieces = text::split(devnum, ':');
    if pieces.len() > 1 {
        match text::number(pieces[1], u32::MAX as nat) {
            Some(n) => Some(n as u32),
            None => None,
        }
    } else {
        None
    }
}

/// Whether this type and this source are those of coffer's mounts.
pub open spec fn ours(fstype: Seq<char>, source: Seq<char>) -> bool {
    (fstype == "fuse"@ || "fuse."@.is_prefix_of(fstype)) && source == "coffer"@
}

/// The mount that a line of the table tells of, if it is one of coffer's.
pub open spec fn mount_of(line: Seq<char>) -> Option<MountView> {
    let fields = text::split(line, ' ');
    if fields.len() < 5 || after_dash(line) is None {
        None
    } else {
        let tail = text::split(after_dash(line)->Some_0, ' ');
        if tail.len() < 2 || !ours(tail[0], tail[1]) {
            None
        } else {
            match minor_of(fields[2]) {
                Some(connection) => Some(
                    MountView {
                        mountpoint: path_in(fields[4]),
                        connection,
                    },
                ),
                None => None,
            }
        }
    }
}

/// The mounts that some lines tell of.
pub open spec fn mounts_in(lines: Seq<Seq<char>>) -> Seq<MountView>
    decreases lines.len(),
{
    if lines.len() == 0 {
        Seq::empty()
    } else {
        match mount_of(lines.last()) {
            Some(m) => mounts_in(lines.drop_last()).push(m),
            None => mounts_in(lines.drop_last()),
        }
    }
}

fn read_mount(line: &[char]) -> (r: Option<Mount>)
    ensures
        r is Some <==> mount_of(line@) is Some,
        r is Some ==> r->Some_0@ == mount_of(line@)->Some_0,
{
    let fields = split_at_each(line, ' ');
    if fields.len() < 5 {
        return None;
    }
    let n: usize = line.len();
    let i: usize = find_dash(line, 0);
    if i >= n {
        return None;
    }
    let rest = slice_subrange(line, i + 3, n);
    assert(rest@ =~= line@.skip(i + 3));
    let j: usize = find_dash(rest, 0);
    let part = slice_subrange(rest, 0, j);
    assert(part@ =~= rest@.take(j as int));
    let tail = split_at_each(part, ' ');
    if tail.len() < 2 {
        return None;
    }
    let fuse = chars_of("fuse.");
    let ours = (is_text(tail[0], "fuse") || has_prefix(tail[0], fuse.as_slice())) && is_text(
        tail[1],
        "coffer",
    );
    if !ours {
        return None;
    }
    let numbers = split_at_each(fields[2], ':');
    if numbers.len() < 2 {
        return None;
    }
    match parse_number(numbers[1], u32::MAX as u64) {
        Some(minor) => {
            let field = string_of(fields[4]);
            Some(
                Mount {
                    mountpoint: unescape_mountinfo(field.as_str()),
                    connection: minor as u32,
                },
            )
        },
        None => None,
    }
}

/// Every one of coffer's own mounts in a mount table, in its order: for a path
/// that was mounted over, the last one is the one that is seen there.
pub fn coffer_mounts(mountinfo: &str) -> (list: Vec<Mount>)
    ensures
        mounts_view(list@) == mounts_in(text::lines(mountinfo@)),
{
    let chars = chars_of(mountinfo);
    let lines = lines_of(chars.as_slice());
    let ghost all = text::lines(mountinfo@);
    let mut found: Vec<Mount> = Vec::new();
    let n: usize = lines.len();
    let mut i: usize = 0;
    assert(all.take(0) =~= Seq::empty());
    assert(mounts_view(found@) =~= Seq::empty());
    while i < n
        invariant
            i <= n == lines@.len() == all.len(),
            forall|k: int| 0 <= k < lines@.len() ==> #[trigger] lines@[k]@ == all[k],
            mounts_view(found@) == mounts_in(all.take(i as int)),
        decreases n - i,
    {
        assert(all.take(i + 1).drop_last() =~= all.take(i as int));
        assert(all.take(i + 1).last() == lines@[i as int]@);
        if let Some(m) = read_mount(lines[i]) {
            let ghost before = mounts_view(found@);
            found.push(m);
            assert(mounts_view(found@) =~= before.push(m@));
        }
        i += 1;
    }
    assert(all.take(n as int) =~= all);
    found
}

/// The directory of a mountpoint and its name in it.
pub open spec fn parts_for(mountpoint: Seq<char>) -> Option<(Seq<char>, Seq<char>)> {
    match paths::file_name(mountpoint) {
        Some(name) => Some((paths::parent_or_here(mountpoint), name)),
        None => None,
    }
}

/// The directory whose symbolic links are to be resolved to find a mountpoint
/// in the table, and the name behind it. The mountpoint itself is not looked
/// at: that would be a request to a daemon that may not answer.
pub fn mount_parts(mountpoint: &str) -> (r: Option<(String, String)>)
    ensures
        r is Some <==> paths::file_name(mountpoint@) is Some,
        r is Some ==> r->Some_0.0@ == paths::parent_or_here(mountpoint@) && r->Some_0.1@
            == paths::file_name(mountpoint@)->Some_0,
        match parts_for(mountpoint@) {
            Some(parts) => r is Some && r->Some_0.0@ == parts.0 && r->Some_0.1@ == parts.1,
            None => r is None,
        },
{
    match file_name_of(mountpoint) {
        Some(name) => Some((parent_dir(mountpoint), name)),
        None => None,
    }
}

/// The form that a mountpoint takes in the mount table. `resolved` is the
/// directory of [`mount_parts`] without symbolic links, where that exists.
pub open spec fn key_of(mountpoint: Seq<char>, resolved: Option<Seq<char>>) -> Option<Seq<char>> {
    match (paths::file_name(mountpoint), resolved) {
        (Some(name), Some(dir)) => Some(paths::joined(dir, name)),
        _ => None,
    }
}

pub fn mount_key(mountpoint: &str, resolved: Option<&str>) -> (r: Option<String>)
    ensures
        r is Some <==> key_of(mountpoint@, paths::opt_view(resolved)) is Some,
        r is Some ==> r->Some_0@ == key_of(mountpoint@, paths::opt_view(resolved))->Some_0,
{
    match (file_name_of(mountpoint), resolved) {
        (Some(name), Some(dir)) => Some(join(dir, name.as_str())),
        _ => None,
    }
}

/// Whether a mount stands at `key`.
pub open spec fn mounted_at(mounts: Seq<MountView>, key: Seq<char>) -> bool {
    exists|i: int| 0 <= i < mounts.len() && (#[trigger] mounts[i]).mountpoint == key
}

/// The connection of the last mount at `key`.
pub open spec fn connection_at(mounts: Seq<MountView>, key: Seq<char>) -> Option<u32>
    decreases mounts.len(),
{
    if mounts.len() == 0 {
        None
    } else if mounts.last().mountpoint == key {
        Some(mounts.last().connection)
    } else {
        connection_at(mounts.drop_last(), key)
    }
}

/// The connection of the mount that is seen at a mountpoint.
pub open spec fn connection_of(
    mountpoint: Seq<char>,
    resolved: Option<Seq<char>>,
    mounts: Seq<MountView>,
) -> Option<u32> {
    match key_of(mountpoint, resolved) {
        Some(key) => connection_at(mounts, key),
        None => None,
    }
}

/// The FUSE connection behind one of coffer's own mounts.
pub fn fuse_connection_id(mountpoint: &str, resolved: Option<&str>, mounts: &Vec<Mount>) -> (r: Option<
    u32,
>)
    ensures
        r == (match key_of(mountpoint@, paths::opt_view(resolved)) {
            Some(key) => connection_at(mounts_view(mounts@), key),
            None => None,
        }),
        r == connection_of(mountpoint@, paths::opt_view(resolved), mounts_view(mounts@)),
{
    match mount_key(mountpoint, resolved) {
        Some(key) => {
            let ghost all = mounts_view(mounts@);
            let mut i: usize = mounts.len();
            assert(all.take(i as int) =~= all);
            while i > 0
                invariant
                    i <= mounts@.len(),
                    all == mounts_view(mounts@),
                    connection_at(all.take(i as int), key@) == connection_at(all, key@),
                    key_of(mountpoint@, paths::opt_view(resolved)) == Some(key@),
                decreases i,
            {
                assert(all.take(i as int).drop_last() =~= all.take(i - 1));
                assert(all.take(i as int).last() == mounts@[i - 1]@);
                if same_text(mounts[i - 1].mountpoint.as_str(), key.as_str()) {
                    return Some(mounts[i - 1].connection);
                }
                i -= 1;
            }
            assert(all.take(0) =~= Seq::empty());
            None
        },
        None => None,
    }
}

/// Whether coffer has something mounted at a mountpoint.
pub open spec fn shows_mounted(
    mountpoint: Seq<char>,
    resolved: Option<Seq<char>>,
    mounts: Seq<MountView>,
) -> bool {
    key_of(mountpoint, resolved) matches Some(key) && mounted_at(mounts, key)
}

pub fn is_mounted(mountpoint: &str, resolved: Option<&str>, mounts: &Vec<Mount>) -> (r: bool)
    ensures
        r == shows_mounted(mountpoint@, paths::opt_view(resolved), mounts_view(mounts@)),
{
    match mount_key(mountpoint, resolved) {
        Some(key) => {
            let ghost all = mounts_view(mounts@);
            let n: usize = mounts.len();
            let mut i: usize = 0;
            while i < n
                invariant
                    i <= n == mounts@.len(),
                    all == mounts_view(mounts@),
                    forall|k: int| 0 <= k < i ==> (#[trigger] all[k]).mountpoint != key@,
                    key_of(mountpoint@, paths::opt_view(resolved)) == Some(key@),
                decreases n - i,
            {
                if same_text(mounts[i].mountpoint.as_str(), key.as_str()) {
                    assert(all[i as int].mountpoint == key@);
                    return true;
                }
                i += 1;
            }
            false
        },
        None => false,
    }
}

/// There is a connection exactly where something is mounted.
pub proof fn mounted_has_connection(mounts: Seq<MountView>, key: Seq<char>)
    ensures
        mounted_at(mounts, key) <==> connection_at(mounts, key) is Some,
    decreases mounts.len(),
{
    if mounts.len() > 0 {
        let front = mounts.drop_last();
        mounted_has_connection(front, key);
        if mounted_at(mounts, key) && mounts.last().mountpoint != key {
            let i = choose|i: int| 0 <= i < mounts.len() && (#[trigger] mounts[i]).mountpoint == key;
            assert(front[i].mountpoint == key);
        }
        if mounted_at(front, key) {
            let i = choose|i: int| 0 <= i < front.len() && (#[trigger] front[i]).mountpoint == key;
            assert(mounts[i].mountpoint == key);
        }
        if mounts.last().mountpoint == key {
            assert(mounts[mounts.len() - 1].mountpoint == key);
        }
    }
}

/// A mount of somebody else is never taken for one of coffer's.
pub proof fn others_are_left_alone(line: Seq<char>)
    requires
        mount_of(line) is Some,
    ensures
        after_dash(line) is Some,
        ({
            let tail = text::split(after_dash(line)->Some_0, ' ');
            &&& tail.len() >= 2
            &&& tail[1] == "coffer"@
        }),
{
}

/// A path without a backslash is written as it is.
pub proof fn plain_path_is_kept(s: Seq<u8>)
    requires
        forall|i: int| 0 <= i < s.len() ==> #[trigger] s[i] != 92,
    ensures
        unescaped(s) == s,
    decreases s.len(),
{
    if s.len() > 0 {
        let rest = s.skip(1);
        assert forall|i: int| 0 <= i < rest.len() implies #[trigger] rest[i] != 92 by {
            assert(rest[i] == s[i + 1]);
        }
        plain_path_is_kept(rest);
        assert(s[0] != 92);
        assert(seq![s[0]] + rest =~= s);
    } else {
        assert(unescaped(s) =~= s);
    }
}

/// How the mount table writes a byte: space, tab, line feed and backslash as a
/// backslash and three octal digits.
pub open spec fn escaped_byte(b: u8) -> Seq<u8> {
    if b == 32 {
        seq![92u8, 48, 52, 48]
    } else if b == 9 {
        seq![92u8, 48, 49, 49]
    } else if b == 10 {
        seq![92u8, 48, 49, 50]
    } else if b == 92 {
        seq![92u8, 49, 51, 52]
    } else {
        seq![b]
    }
}

pub open spec fn escaped(s: Seq<u8>) -> Seq<u8>
    decreases s.len(),
{
    if s.len() == 0 {
        Seq::empty()
    } else {
        escaped_byte(s[0]) + escaped(s.skip(1))
    }
}

/// Whatever path was mounted, undoing the escapes of the mount table gives it
/// back.
pub proof fn escapes_are_undone(s: Seq<u8>)
    ensures
        unescaped(escaped(s)) == s,
    decreases s.len(),
{
    if s.len() > 0 {
        let b = s[0];
        let rest = escaped(s.skip(1));
        let e = escaped(s);
        escapes_are_undone(s.skip(1));
        if b == 32 || b == 9 || b == 10 || b == 92 {
            assert(e[0] == 92 && e.len() >= 4);
            assert(e[1] == escaped_byte(b)[1]);
            assert(e[2] == escaped_byte(b)[2]);
            assert(e[3] == escaped_byte(b)[3]);
            assert(e.skip(4) =~= rest);
        } else {
            assert(e[0] == b);
            assert(e.skip(1) =~= rest);
        }
        assert(seq![b] + s.skip(1) =~= s);
    } else {
        assert(unescaped(escaped(s)) =~= s);
    }
}

/// A mountpoint is read from the mount table as the text that it is, whatever
/// had to be escaped in it.
pub proof fn mountpoint_reads_back(mountpoint: Seq<char>, field: Seq<char>)
    requires
        vstd::utf8::encode_utf8(field) == escaped(vstd::utf8::encode_utf8(mountpoint)),
    ensures
        path_in(field) == mountpoint,
{
    escapes_are_undone(vstd::utf8::encode_utf8(mountpoint));
    vstd::utf8::encode_utf8_valid_utf8(mountpoint);
    vstd::utf8::encode_utf8_decode_utf8(mountpoint);
}

/// A line that tells of one of coffer's mounts gives its mountpoint as the text
/// that it is.
pub proof fn mount_reads_back(line: Seq<char>, mountpoint: Seq<char>)
    requires
        mount_of(line) is Some,
        vstd::utf8::encode_utf8(text::split(line, ' ')[4]) == escaped(
            vstd::utf8::encode_utf8(mountpoint),
        ),
    ensures
        mount_of(line)->Some_0.mountpoint == mountpoint,
{
    mountpoint_reads_back(mountpoint, text::split(line, ' ')[4]);
}

/// Where a path is mounted over, the last mount is the one that is seen. Where
/// nothing is mounted there is no connection.
pub proof fn last_mount_is_seen(mounts: Seq<MountView>, key: Seq<char>, i: int)
    ensures
        0 <= i < mounts.len() && mounts[i].mountpoint == key && (forall|k: int|
            i < k < mounts.len() ==> (#[trigger] mounts[k]).mountpoint != key) ==> connection_at(
            mounts,
            key,
        ) == Some(mounts[i].connection),
        (forall|k: int| 0 <= k < mounts.len() ==> (#[trigger] mounts[k]).mountpoint != key)
            ==> connection_at(mounts, key) is None,
    decreases mounts.len(),
{
    if mounts.len() > 0 {
        let front = mounts.drop_last();
        let n = mounts.len() - 1;
        last_mount_is_seen(front, key, i);
        assert(mounts.last() == mounts[n]);
        if 0 <= i < n && forall|k: int|
            i < k < mounts.len() ==> (#[trigger] mounts[k]).mountpoint != key {
            assert forall|k: int| i < k < front.len() implies (#[trigger] front[k]).mountpoint
                != key by {
                assert(front[k] == mounts[k]);
            }
        }
        if forall|k: int| 0 <= k < mounts.len() ==> (#[trigger] mounts[k]).mountpoint != key {
            assert forall|k: int| 0 <= k < front.len() implies (#[trigger] front[k]).mountpoint
                != key by {
                assert(front[k] == mounts[k]);
            }
        }
    }
}

/// A mountpoint is looked up as its name behind the directory without symbolic
/// links; without such a directory, or without a name, it is not found at all.
pub proof fn looked_up_in_its_directory(
    dir: Seq<char>,
    name: Seq<char>,
    resolved: Seq<char>,
    mounts: Seq<MountView>,
)
    requires
        paths::ends_with_part(dir),
        paths::is_name(name),
        resolved.len() > 0,
        resolved.last() != '/',
    ensures
        ({
            let mountpoint = dir + "/"@ + name;
            let key = resolved + "/"@ + name;
            &&& name != ".."@ ==> key_of(mountpoint, Some(resolved)) == Some(key)
            &&& name == ".."@ ==> key_of(mountpoint, Some(resolved)) is None
            &&& key_of(mountpoint, None) is None
            &&& name != ".."@ ==> (shows_mounted(mountpoint, Some(resolved), mounts)
                <==> exists|i: int|
                0 <= i < mounts.len() && (#[trigger] mounts[i]).mountpoint == key)
            &&& name != ".."@ ==> connection_of(mountpoint, Some(resolved), mounts)
                == connection_at(mounts, key)
            &&& !shows_mounted(mountpoint, None, mounts)
            &&& connection_of(mountpoint, None, mounts) is None
        }),
{
    paths::directory_and_name(dir, name);
    paths::joined_with_a_slash(resolved, name);
    assert(name[0] != '/');
}

/// Whether ` - ` stands at a place.
pub open spec fn dash_at(s: Seq<char>, i: int) -> bool {
    &&& 0 <= i <= i + 3 <= s.len()
    &&& s[i] == ' '
    &&& s[i + 1] == '-'
    &&& s[i + 2] == ' '
}

proof fn lemma_dash(s: Seq<char>, from: int)
    requires
        0 <= from <= s.len(),
    ensures
        from <= dash_place(s, from) <= s.len(),
        dash_place(s, from) < s.len() ==> dash_at(s, dash_place(s, from)),
        forall|i: int| from <= i < dash_place(s, from) ==> !(#[trigger] dash_at(s, i)),
    decreases s.len() - from,
{
    if from + 3 <= s.len() && !dash_at(s, from) {
        lemma_dash(s, from + 1);
    }
}

/// What stands behind the first ` - ` of a line, up to the next one.
pub proof fn dash_parts_a_line(line: Seq<char>, i: int, j: int)
    requires
        forall|k: int| 0 <= k < i ==> !(#[trigger] dash_at(line, k)),
    ensures
        i >= line.len() ==> after_dash(line) is None,
        dash_at(line, i) && dash_at(line, j) && i + 3 <= j && (forall|k: int|
            i + 3 <= k < j ==> !(#[trigger] dash_at(line, k))) ==> after_dash(line) == Some(
            line.subrange(i + 3, j),
        ),
        dash_at(line, i) && (forall|k: int|
            i + 3 <= k < line.len() ==> !(#[trigger] dash_at(line, k))) ==> after_dash(line) == Some(line.skip(i + 3)),
{
    lemma_dash(line, 0);
    let p = dash_place(line, 0);
    if i >= line.len() && p < line.len() {
        assert(!dash_at(line, p));
    }
    if dash_at(line, i) {
        assert(p == i) by {
            if p < i {
                assert(!dash_at(line, p));
            } else if p > i {
                assert(!dash_at(line, i));
            }
        }
        let rest = line.skip(i + 3);
        lemma_dash(rest, 0);
        let q = dash_place(rest, 0);
        assert forall|k: int| 0 <= k < rest.len() implies (#[trigger] dash_at(rest, k) <==> dash_at(
            line,
            k + i + 3,
        )) by {
        }
        if dash_at(line, j) && i + 3 <= j && forall|k: int|
            i + 3 <= k < j ==> !(#[trigger] dash_at(line, k)) {
            let m = j - i - 3;
            assert(dash_at(rest, m));
            assert(q == m) by {
                if q < m {
                    assert(!dash_at(line, q + i + 3));
                } else if q > m {
                    assert(!dash_at(rest, m));
                }
            }
            assert(rest.take(m) =~= line.subrange(i + 3, j));
        }
        if forall|k: int| i + 3 <= k < line.len() ==> !(#[trigger] dash_at(line, k)) {
            assert(q == rest.len()) by {
                if q < rest.len() {
                    assert(!dash_at(line, q + i + 3));
                }
            }
            assert(rest.take(q) =~= rest);
        }
    }
}

/// What makes a line one of coffer's mounts: five fields at least, and behind
/// the dash a type that is `fuse` or starts with `fuse.` and a source that is
/// `coffer`, and a number behind the colon of the third field. That number is the
/// connection, and the fifth field the mountpoint.
pub proof fn mounts_are_told_apart(line: Seq<char>)
    ensures
        ({
            let fields = text::split(line, ' ');
            let tail = text::split(after_dash(line)->Some_0, ' ');
            let kind = tail[0];
            let numbers = text::split(fields[2], ':');
            let minor = text::number(numbers[1], 4294967295);
            let is_ours = fields.len() >= 5 && after_dash(line) is Some && tail.len() >= 2 && (kind
                == "fuse"@ || kind.len() >= 5 && kind.take(5) == "fuse."@) && tail[1] == "coffer"@
                && numbers.len() >= 2 && minor is Some;
            &&& mount_of(line) is Some <==> is_ours
            &&& is_ours ==> mount_of(line)->Some_0.connection == minor->Some_0
                && mount_of(line)->Some_0.mountpoint == path_in(fields[4])
        }),
{
    reveal_strlit("fuse.");
    if after_dash(line) is Some {
        let kind = text::split(after_dash(line)->Some_0, ' ')[0];
        if "fuse."@.is_prefix_of(kind) {
            assert(kind.take(5) =~= "fuse."@);
        }
        if kind.len() >= 5 && kind.take(5) == "fuse."@ {
            assert("fuse."@ =~= kind.subrange(0, 5));
            assert("fuse."@.is_prefix_of(kind));
        }
    }
    text::numbers_are_decimal(text::split(text::split(line, ' ')[2], ':')[1], '0', 4294967295);
}

/// The mounts of a table are those of its lines that tell of one, in their
/// order, and no others.
pub proof fn every_mount_is_listed(lines: Seq<Seq<char>>) -> (places: Seq<int>)
    ensures
        places.len() == mounts_in(lines).len(),
        forall|k: int|
            0 <= k < places.len() ==> 0 <= #[trigger] places[k] < lines.len() && mount_of(
                lines[places[k]],
            ) == Some(mounts_in(lines)[k]),
        forall|j: int, k: int| 0 <= j < k < places.len() ==> places[j] < places[k],
        forall|i: int|
            0 <= i < lines.len() && mount_of(#[trigger] lines[i]) is Some ==> places.contains(i),
    decreases lines.len(),
{
    if lines.len() == 0 {
        Seq::empty()
    } else {
        let n = lines.len() - 1;
        let front = lines.drop_last();
        let few = every_mount_is_listed(front);
        let places = if mount_of(lines[n]) is Some {
            few.push(n)
        } else {
            few
        };
        assert forall|k: int| 0 <= k < places.len() implies 0 <= #[trigger] places[k] < lines.len()
            && mount_of(lines[places[k]]) == Some(mounts_in(lines)[k]) by {
            if k < few.len() {
                assert(few[k] == places[k]);
                assert(front[few[k]] == lines[few[k]]);
            }
        }
        assert forall|i: int|
            0 <= i < lines.len() && mount_of(#[trigger] lines[i]) is Some implies places.contains(
            i,
        ) by {
            if i < n {
                assert(front[i] == lines[i]);
                assert(few.contains(i));
                let k = choose|k: int| 0 <= k < few.len() && few[k] == i;
                assert(places[k] == i);
            } else {
                assert(places[few.len() as int] == n);
            }
        }
        places
    }
}

/// A backslash with three octal digits behind it stands for the byte of that
/// number, and any other byte for itself.
pub proof fn escapes_are_octal(a: u8, b: u8, c: u8, rest: Seq<u8>)
    ensures
        a < 4 && b < 8 && c < 8 ==> unescaped(
            seq![0x5cu8, (0x30 + a) as u8, (0x30 + b) as u8, (0x30 + c) as u8] + rest,
        ) == seq![(a * 64 + b * 8 + c) as u8] + unescaped(rest),
        a != 0x5c ==> unescaped(seq![a] + rest) == seq![a] + unescaped(rest),
        rest.len() < 3 || rest[0] < 0x30 || rest[0] > 0x37 || rest[1] < 0x30 || rest[1] > 0x37
            || rest[2] < 0x30 || rest[2] > 0x37 ==> unescaped(seq![0x5cu8] + rest) == seq![0x5cu8]
            + unescaped(rest),
{
    let short = seq![a] + rest;
    assert(short.skip(1) =~= rest);
    let lone = seq![0x5cu8] + rest;
    assert(lone.skip(1) =~= rest);
    if rest.len() >= 3 {
        assert(lone[1] == rest[0] && lone[2] == rest[1] && lone[3] == rest[2]);
    }
    if a < 4 && b < 8 && c < 8 {
        let long = seq![0x5cu8, (0x30 + a) as u8, (0x30 + b) as u8, (0x30 + c) as u8] + rest;
        assert(long.skip(4) =~= rest);
        assert(long[1] == 0x30 + a && long[2] == 0x30 + b && long[3] == 0x30 + c);
        assert(escape_at(long));
        assert(0 <= a * 64 + b * 8 + c < 256);
    }
}

/// A mountpoint is taken apart at its last slash; one without a directory is in
/// the current one.
pub proof fn mountpoint_has_two_parts(dir: Seq<char>, name: Seq<char>)
    requires
        paths::ends_with_part(dir),
        paths::is_name(name),
        name != ".."@,
    ensures
        parts_for(dir + "/"@ + name) == Some((dir, name)),
        parts_for(name) == Some(("."@, name)),
        parts_for("/"@ + name) == Some(("/"@, name)),
        parts_for("/"@) is None,
        parts_for(dir + "/.."@) is None,
{
    reveal_strlit("/");
    reveal_strlit("..");
    reveal_strlit("/..");
    reveal_strlit(".");
    paths::directory_and_name(dir, name);
    paths::directory_of_a_name(name);
    assert(".."@.len() != "."@.len());
    assert(paths::is_name(".."@));
    paths::directory_and_name(dir, ".."@);
    assert(dir + "/"@ + ".."@ =~= dir + "/.."@);
}

} // verus!
