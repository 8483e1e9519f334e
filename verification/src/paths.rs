//! Paths as text: `~`, the directory a file is in, and the place of the
//! registry.
use vstd::prelude::*;
use vstd::slice::slice_subrange;
use vstd::string::StringExecFns;

use crate::text::{chars_of, find, is_text, same, string_of};
use crate::text;

verus! {

/// The home directory, where `$HOME` names one.
pub open spec fn home_of(home: Option<Seq<char>>) -> Option<Seq<char>> {
    match home {
        Some(h) => if h.len() > 0 {
            Some(h)
        } else {
            None
        },
        None => None,
    }
}

/// The view of an optional text.
pub open spec fn opt_view(s: Option<&str>) -> Option<Seq<char>> {
    match s {
        Some(t) => Some(t@),
        None => None,
    }
}

pub fn home_dir<'a>(home: Option<&'a str>) -> (r: Option<&'a str>)
    ensures
        opt_view(r) == home_of(opt_view(home)),
{
    match home {
        Some(h) => if h.is_empty() {
            None
        } else {
            Some(h)
        },
        None => None,
    }
}

/// A path behind another: an absolute one replaces it.
pub open spec fn joined(base: Seq<char>, rest: Seq<char>) -> Seq<char> {
    if rest.len() > 0 && rest.first() == '/' {
        rest
    } else if base.len() > 0 && base.last() != '/' {
        base.push('/') + rest
    } else {
        base + rest
    }
}

pub fn join(base: &str, rest: &str) -> (r: String)
    ensures
        r@ == joined(base@, rest@),
{
    let b = chars_of(base);
    let s = chars_of(rest);
    if s.len() > 0 && s[0] == '/' {
        return rest.to_owned();
    }
    let mut out = base.to_owned();
    if b.len() > 0 && b[b.len() - 1] != '/' {
        out.push('/');
    }
    out.append(rest);
    out
}

/// Where the registry is: `$COFFER_CONFIG`, or `.coffer/config` in the home
/// directory. Without either it cannot be found.
pub open spec fn config_path_of(
    coffer_config: Option<Seq<char>>,
    home: Option<Seq<char>>,
) -> Option<Seq<char>> {
    if coffer_config is Some && coffer_config->Some_0.len() > 0 {
        coffer_config
    } else {
        match home_of(home) {
            Some(h) => Some(joined(joined(h, ".coffer"@), "config"@)),
            None => None,
        }
    }
}

pub fn config_path(coffer_config: Option<&str>, home: Option<&str>) -> (r: Option<String>)
    ensures
        r is Some <==> config_path_of(opt_view(coffer_config), opt_view(home)) is Some,
        r is Some ==> r->Some_0@ == config_path_of(
            opt_view(coffer_config),
            opt_view(home),
        )->Some_0,
{
    if let Some(p) = coffer_config {
        if !p.is_empty() {
            return Some(p.to_owned());
        }
    }
    match home_dir(home) {
        Some(h) => {
            let dir = join(h, ".coffer");
            Some(join(dir.as_str(), "config"))
        },
        None => None,
    }
}

/// A text without the slashes at its start.
pub open spec fn without_slashes(s: Seq<char>) -> Seq<char>
    decreases s.len(),
{
    if s.len() > 0 && s.first() == '/' {
        without_slashes(s.drop_first())
    } else {
        s
    }
}

/// `~` and `~/...` mean the home directory; anything else is taken as it is.
pub open spec fn expanded(s: Seq<char>, home: Option<Seq<char>>) -> Seq<char> {
    if s.len() > 0 && s.first() == '~' && (s.len() == 1 || s[1] == '/') && home_of(home) is Some {
        joined(home_of(home)->Some_0, without_slashes(s.drop_first()))
    } else {
        s
    }
}

pub fn expand_tilde(s: &str, home: Option<&str>) -> (r: String)
    ensures
        r@ == expanded(s@, opt_view(home)),
{
    let chars = chars_of(s);
    let n: usize = chars.len();
    if n > 0 && chars[0] == '~' && (n == 1 || chars[1] == '/') {
        if let Some(h) = home_dir(home) {
            let mut i: usize = 1;
            assert(s@.skip(1) =~= s@.drop_first());
            while i < n && chars[i] == '/'
                invariant
                    1 <= i <= n == s@.len(),
                    chars@ == s@,
                    without_slashes(s@.skip(i as int)) == without_slashes(s@.drop_first()),
                decreases n - i,
            {
                assert(s@.skip(i as int).drop_first() =~= s@.skip(i + 1));
                i += 1;
            }
            let rest = string_of(slice_subrange(chars.as_slice(), i, n));
            assert(rest@ =~= s@.skip(i as int));
            return join(h, rest.as_str());
        }
    }
    s.to_owned()
}

/// Whether a path starts at the root.
pub open spec fn rooted(s: Seq<char>) -> bool {
    s.len() > 0 && s.first() == '/'
}

/// Whether the piece from `i` to `j` is a component: a lone dot is one at the
/// very start of a path only.
pub open spec fn counts(s: Seq<char>, i: int, j: int) -> bool {
    !(j == i + 1 && s[i] == '.' && i != 0)
}

/// The components of a path from `i` on, each by its two ends.
pub open spec fn parts_from(s: Seq<char>, i: int) -> Seq<(int, int)>
    decreases s.len() - i,
{
    if i < 0 || i >= s.len() {
        Seq::empty()
    } else if s[i] == '/' {
        parts_from(s, i + 1)
    } else {
        proof {
            text::lemma_place(s, '/', i);
        }
        let j = text::place_of(s, '/', i);
        if counts(s, i, j) {
            seq![(i, j)] + parts_from(s, j)
        } else {
            parts_from(s, j)
        }
    }
}

/// The components of a path.
pub open spec fn parts(s: Seq<char>) -> Seq<(int, int)> {
    parts_from(s, 0)
}

/// The text of a component.
pub open spec fn part_text(s: Seq<char>, part: (int, int)) -> Seq<char> {
    s.subrange(part.0, part.1)
}

proof fn lemma_parts_in_range(s: Seq<char>, i: int)
    requires
        0 <= i <= s.len(),
    ensures
        forall|k: int|
            0 <= k < parts_from(s, i).len() ==> i <= (#[trigger] parts_from(s, i)[k]).0
                < parts_from(s, i)[k].1 <= s.len(),
    decreases s.len() - i,
{
    if i < s.len() {
        if s[i] == '/' {
            lemma_parts_in_range(s, i + 1);
            assert(parts_from(s, i) == parts_from(s, i + 1));
        } else {
            text::lemma_place(s, '/', i);
            let j = text::place_of(s, '/', i);
            lemma_parts_in_range(s, j);
            if counts(s, i, j) {
                let all = parts_from(s, i);
                let rest = parts_from(s, j);
                assert forall|k: int| 0 <= k < all.len() implies i <= (#[trigger] all[k]).0
                    < all[k].1 <= s.len() by {
                    if k > 0 {
                        assert(all[k] == rest[k - 1]);
                    }
                }
            } else {
                assert(parts_from(s, i) == parts_from(s, j));
            }
        }
    }
}

/// The components of a path, each by its two ends.
pub fn parts_of(s: &[char]) -> (list: Vec<(usize, usize)>)
    ensures
        list@.len() == parts(s@).len(),
        forall|k: int|
            0 <= k < list@.len() ==> (#[trigger] list@[k]).0 == parts(s@)[k].0 && list@[k].1
                == parts(s@)[k].1 && list@[k].0 < list@[k].1 <= s@.len(),
{
    let n: usize = s.len();
    let mut list: Vec<(usize, usize)> = Vec::new();
    let mut i: usize = 0;
    proof {
        lemma_parts_in_range(s@, 0);
    }
    while i < n
        invariant
            i <= n == s@.len(),
            list@.len() + parts_from(s@, i as int).len() == parts(s@).len(),
            forall|k: int|
                0 <= k < list@.len() ==> (#[trigger] list@[k]).0 == parts(s@)[k].0 && list@[k].1
                    == parts(s@)[k].1,
            forall|k: int|
                0 <= k < parts_from(s@, i as int).len() ==> #[trigger] parts_from(s@, i as int)[k]
                    == parts(s@)[list@.len() + k],
            forall|k: int|
                0 <= k < parts(s@).len() ==> (#[trigger] parts(s@)[k]).0 < parts(s@)[k].1
                    <= s@.len(),
        decreases n - i,
    {
        if s[i] == '/' {
            i += 1;
        } else {
            let j: usize = find(s, '/', i);
            let ghost now = parts_from(s@, i as int);
            let ghost later = parts_from(s@, j as int);
            proof {
                text::lemma_place(s@, '/', i as int);
            }
            if !(j == i + 1 && s[i] == '.' && i != 0) {
                proof {
                    assert(now == seq![(i as int, j as int)] + later);
                    assert(now[0] == (i as int, j as int));
                    assert forall|k: int| 0 <= k < later.len() implies #[trigger] later[k]
                        == parts(s@)[list@.len() + 1 + k] by {
                        assert(now[k + 1] == later[k]);
                    }
                }
                list.push((i, j));
            }
            i = j;
        }
    }
    list
}

/// Whether `path` is `dir` or below it.
pub open spec fn below(path: Seq<char>, dir: Seq<char>) -> bool {
    &&& rooted(path) == rooted(dir)
    &&& parts(dir).len() <= parts(path).len()
    &&& forall|k: int|
        0 <= k < parts(dir).len() ==> #[trigger] part_text(dir, parts(dir)[k]) == part_text(
            path,
            parts(path)[k],
        )
}

/// What of `path` lies below a directory of `n` components.
pub open spec fn rest_after(path: Seq<char>, n: int) -> Seq<char> {
    if n < parts(path).len() {
        path.subrange(parts(path)[n].0, parts(path).last().1)
    } else {
        Seq::empty()
    }
}

/// A path for display: below the home directory it starts with `~`.
pub open spec fn abbreviated(path: Seq<char>, home: Option<Seq<char>>) -> Seq<char> {
    match home_of(home) {
        Some(h) => if below(path, h) {
            let rest = rest_after(path, parts(h).len() as int);
            if rest.len() == 0 {
                "~"@
            } else {
                "~/"@ + rest
            }
        } else {
            path
        },
        None => path,
    }
}

fn is_below(path: &[char], dir: &[char]) -> (r: bool)
    ensures
        r == below(path@, dir@),
{
    let path_rooted = path.len() > 0 && path[0] == '/';
    let dir_rooted = dir.len() > 0 && dir[0] == '/';
    if path_rooted != dir_rooted {
        return false;
    }
    let p = parts_of(path);
    let d = parts_of(dir);
    if d.len() > p.len() {
        return false;
    }
    let n: usize = d.len();
    let mut k: usize = 0;
    while k < n
        invariant
            k <= n == d@.len() == parts(dir@).len(),
            n <= p@.len() == parts(path@).len(),
            rooted(path@) == rooted(dir@),
            forall|i: int|
                0 <= i < d@.len() ==> (#[trigger] d@[i]).0 == parts(dir@)[i].0 && d@[i].1 == parts(
                    dir@,
                )[i].1 && d@[i].0 < d@[i].1 <= dir@.len(),
            forall|i: int|
                0 <= i < p@.len() ==> (#[trigger] p@[i]).0 == parts(path@)[i].0 && p@[i].1 == parts(
                    path@,
                )[i].1 && p@[i].0 < p@[i].1 <= path@.len(),
            forall|i: int|
                0 <= i < k ==> #[trigger] part_text(dir@, parts(dir@)[i]) == part_text(
                    path@,
                    parts(path@)[i],
                ),
        decreases n - k,
    {
        let a = slice_subrange(dir, d[k].0, d[k].1);
        let b = slice_subrange(path, p[k].0, p[k].1);
        assert(a@ == part_text(dir@, parts(dir@)[k as int]));
        assert(b@ == part_text(path@, parts(path@)[k as int]));
        if !same(a, b) {
            return false;
        }
        k += 1;
    }
    true
}

pub fn abbreviate_home(path: &str, home: Option<&str>) -> (r: String)
    ensures
        r@ == abbreviated(path@, opt_view(home)),
{
    if let Some(h) = home_dir(home) {
        let p = chars_of(path);
        let d = chars_of(h);
        if is_below(p.as_slice(), d.as_slice()) {
            let all = parts_of(p.as_slice());
            let n: usize = parts_of(d.as_slice()).len();
            if n < all.len() {
                proof {
                    lemma_parts_ordered(path@, 0);
                }
                let from: usize = all[n].0;
                let to: usize = all[all.len() - 1].1;
                assert(parts(path@).last().1 == to);
                assert(from < to);
                let mut out = "~/".to_owned();
                let rest = string_of(slice_subrange(p.as_slice(), from, to));
                out.append(rest.as_str());
                return out;
            }
            return "~".to_owned();
        }
    }
    path.to_owned()
}

proof fn lemma_parts_ordered(s: Seq<char>, i: int)
    requires
        0 <= i <= s.len(),
    ensures
        forall|a: int, b: int|
            0 <= a < b < parts_from(s, i).len() ==> (#[trigger] parts_from(s, i)[a]).1
                <= (#[trigger] parts_from(s, i)[b]).0,
    decreases s.len() - i,
{
    if i < s.len() {
        if s[i] == '/' {
            lemma_parts_ordered(s, i + 1);
            assert(parts_from(s, i) == parts_from(s, i + 1));
        } else {
            text::lemma_place(s, '/', i);
            let j = text::place_of(s, '/', i);
            lemma_parts_ordered(s, j);
            lemma_parts_in_range(s, j);
            let all = parts_from(s, i);
            let rest = parts_from(s, j);
            if counts(s, i, j) {
                assert forall|a: int, b: int| 0 <= a < b < all.len() implies (#[trigger] all[a]).1
                    <= (#[trigger] all[b]).0 by {
                    assert(all[b] == rest[b - 1]);
                    if a > 0 {
                        assert(all[a] == rest[a - 1]);
                    }
                }
            } else {
                assert(all == rest);
            }
        }
    }
}

/// The directory that the last component of a path is in: empty where it is
/// the current one.
pub open spec fn parent(s: Seq<char>) -> Seq<char> {
    let rest = parts(s).drop_last();
    if parts(s).len() == 0 {
        Seq::empty()
    } else if rest.len() == 0 {
        if rooted(s) {
            "/"@
        } else {
            Seq::empty()
        }
    } else {
        s.take(rest.last().1)
    }
}

/// The same, with a dot for the current directory.
pub open spec fn parent_or_here(s: Seq<char>) -> Seq<char> {
    if parent(s).len() == 0 {
        "."@
    } else {
        parent(s)
    }
}

pub fn parent_of(path: &str) -> (r: Option<String>)
    ensures
        r is Some <==> parent(path@).len() > 0,
        r is Some ==> r->Some_0@ == parent(path@),
{
    let s = chars_of(path);
    let all = parts_of(s.as_slice());
    let n: usize = all.len();
    proof {
        reveal_strlit("/");
        lemma_parts_in_range(path@, 0);
    }
    if n == 0 {
        None
    } else if n == 1 {
        if s[0] == '/' {
            Some("/".to_owned())
        } else {
            None
        }
    } else {
        let to: usize = all[n - 2].1;
        assert(parts(path@).drop_last().last() == parts(path@)[n - 2]);
        assert(parts(path@)[n - 2].1 == to);
        Some(string_of(slice_subrange(s.as_slice(), 0, to)))
    }
}

pub fn parent_dir(path: &str) -> (r: String)
    ensures
        r@ == parent_or_here(path@),
{
    match parent_of(path) {
        Some(dir) => dir,
        None => ".".to_owned(),
    }
}

/// The name of a path's last component, unless that is `..` or the current
/// directory.
pub open spec fn file_name(s: Seq<char>) -> Option<Seq<char>> {
    if parts(s).len() == 0 {
        None
    } else {
        let name = part_text(s, parts(s).last());
        if name == ".."@ || name == "."@ {
            None
        } else {
            Some(name)
        }
    }
}

pub fn file_name_of(path: &str) -> (r: Option<String>)
    ensures
        r is Some <==> file_name(path@) is Some,
        r is Some ==> r->Some_0@ == file_name(path@)->Some_0,
{
    let s = chars_of(path);
    let all = parts_of(s.as_slice());
    let n: usize = all.len();
    if n == 0 {
        return None;
    }
    let name = slice_subrange(s.as_slice(), all[n - 1].0, all[n - 1].1);
    assert(name@ == part_text(path@, parts(path@).last()));
    if is_text(name, "..") || is_text(name, ".") {
        None
    } else {
        Some(string_of(name))
    }
}

/// A tilde stands for the home directory, and what follows is below it.
pub proof fn tilde_is_home(home: Seq<char>, rest: Seq<char>)
    requires
        home.len() > 0,
        rest.len() == 0 || rest.first() != '/',
    ensures
        expanded("~/"@ + rest, Some(home)) == joined(home, rest),
        expanded("~"@, Some(home)) == joined(home, Seq::empty()),
{
    reveal_strlit("~/");
    reveal_strlit("~");
    let s = "~/"@ + rest;
    assert(s.first() == '~' && s[1] == '/');
    assert(s.drop_first().first() == '/');
    assert(s.drop_first().drop_first() =~= rest);
    assert(without_slashes(rest) == rest);
    assert(without_slashes(s.drop_first()) == rest);
    assert("~"@.drop_first() =~= Seq::empty());
}

/// Only a leading tilde means the home directory: any other text is left as
/// it is.
pub proof fn other_text_is_kept(s: Seq<char>, home: Option<Seq<char>>)
    requires
        s.len() == 0 || s.first() != '~' || (s.len() > 1 && s[1] != '/'),
    ensures
        expanded(s, home) == s,
{
}

/// Whether two paths name the same: both start at the root or neither does, and
/// they have the same components. Slashes at the end or in a row do not
/// matter, nor does a lone dot.
pub open spec fn same_path(a: Seq<char>, b: Seq<char>) -> bool {
    &&& rooted(a) == rooted(b)
    &&& parts(a).len() == parts(b).len()
    &&& forall|k: int|
        0 <= k < parts(a).len() ==> #[trigger] part_text(a, parts(a)[k]) == part_text(
            b,
            parts(b)[k],
        )
}

/// A slash at the end adds no component.
proof fn lemma_parts_slash(s: Seq<char>, i: int)
    requires
        0 <= i <= s.len(),
    ensures
        parts_from(s.push('/'), i) == parts_from(s, i),
    decreases s.len() - i,
{
    let t = s.push('/');
    if i < s.len() {
        if s[i] == '/' {
            lemma_parts_slash(s, i + 1);
        } else {
            text::lemma_place(s, '/', i);
            text::lemma_place(t, '/', i);
            let j = text::place_of(s, '/', i);
            assert(t[j] == '/');
            assert(text::place_of(t, '/', i) == j);
            lemma_parts_slash(s, j);
        }
    } else {
        assert(parts_from(t, i + 1) == Seq::<(int, int)>::empty());
    }
}

/// What stands before a slash and what stands behind it have their components
/// each.
proof fn lemma_parts_concat(base: Seq<char>, rest: Seq<char>, i: int)
    requires
        0 <= i <= base.len(),
        base.len() > 0,
        base.last() == '/',
    ensures
        parts_from(base + rest, i) == parts_from(base, i) + parts_from(
            base + rest,
            base.len() as int,
        ),
    decreases base.len() - i,
{
    let all = base + rest;
    let tail = parts_from(all, base.len() as int);
    if i == base.len() {
        assert(parts_from(base, i) + tail =~= tail);
    } else if base[i] == '/' {
        assert(all[i] == '/');
        lemma_parts_concat(base, rest, i + 1);
    } else {
        text::lemma_place(base, '/', i);
        text::lemma_place(all, '/', i);
        let j = text::place_of(base, '/', i);
        assert(base[base.len() - 1] == '/');
        assert(j < base.len());
        assert(all[j] == '/');
        assert(text::place_of(all, '/', i) == j) by {
            let k = text::place_of(all, '/', i);
            if k < j {
                assert(all[k] == base[k]);
            }
        }
        lemma_parts_concat(base, rest, j);
        assert(all[i] == base[i]);
        assert(parts_from(all, i) =~= parts_from(base, i) + tail);
    }
}

/// The components of two paths that go on alike, away from their starts.
proof fn lemma_parts_alike(a: Seq<char>, i: int, b: Seq<char>, j: int)
    requires
        0 < i <= a.len(),
        0 < j <= b.len(),
        a.skip(i) == b.skip(j),
    ensures
        parts_from(a, i).len() == parts_from(b, j).len(),
        forall|k: int|
            0 <= k < parts_from(a, i).len() ==> #[trigger] part_text(a, parts_from(a, i)[k])
                == part_text(b, parts_from(b, j)[k]),
    decreases a.len() - i,
{
    assert(a.skip(i).len() == a.len() - i);
    assert(b.skip(j).len() == b.len() - j);
    if i < a.len() {
        assert(a.skip(i)[0] == a[i]);
        assert(b.skip(j)[0] == b[j]);
        if a[i] == '/' {
            assert(a.skip(i).skip(1) =~= a.skip(i + 1));
            assert(b.skip(j).skip(1) =~= b.skip(j + 1));
            lemma_parts_alike(a, i + 1, b, j + 1);
            assert(parts_from(a, i) == parts_from(a, i + 1));
            assert(parts_from(b, j) == parts_from(b, j + 1));
        } else {
            text::lemma_place(a, '/', i);
            text::lemma_place(b, '/', j);
            text::lemma_place_shift(a, '/', i, i);
            text::lemma_place_shift(b, '/', j, j);
            let p = text::place_of(a, '/', i);
            let q = text::place_of(b, '/', j);
            assert(p - i == q - j);
            assert(a.skip(i).skip(p - i) =~= a.skip(p));
            assert(b.skip(j).skip(q - j) =~= b.skip(q));
            lemma_parts_alike(a, p, b, q);
            let x = parts_from(a, i);
            let y = parts_from(b, j);
            let x2 = parts_from(a, p);
            let y2 = parts_from(b, q);
            if counts(a, i, p) {
                assert(x == seq![(i, p)] + x2);
                assert(y == seq![(j, q)] + y2);
                assert(a.subrange(i, p) =~= a.skip(i).take(p - i));
                assert(b.subrange(j, q) =~= b.skip(j).take(q - j));
                assert forall|k: int| 0 <= k < x.len() implies #[trigger] part_text(a, x[k])
                    == part_text(b, y[k]) by {
                    if k > 0 {
                        assert(x[k] == x2[k - 1]);
                        assert(y[k] == y2[k - 1]);
                        assert(part_text(a, x2[k - 1]) == part_text(b, y2[k - 1]));
                    }
                }
            } else {
                assert(x == x2);
                assert(y == y2);
            }
        }
    } else {
        assert(parts_from(a, i) == Seq::<(int, int)>::empty());
        assert(parts_from(b, j) == Seq::<(int, int)>::empty());
    }
}

/// The components from the `n`th on are those from its start on.
proof fn lemma_parts_later(s: Seq<char>, i: int, n: int)
    requires
        0 <= i <= s.len(),
        0 <= n < parts_from(s, i).len(),
    ensures
        ({
            let at = parts_from(s, i)[n].0;
            &&& i <= at < s.len()
            &&& s[at] != '/'
            &&& parts_from(s, at) == parts_from(s, i).skip(n)
        }),
    decreases s.len() - i,
{
    if s[i] == '/' {
        lemma_parts_later(s, i + 1, n);
    } else {
        text::lemma_place(s, '/', i);
        let j = text::place_of(s, '/', i);
        let all = parts_from(s, i);
        let rest = parts_from(s, j);
        if counts(s, i, j) {
            assert(all == seq![(i, j)] + rest);
            if n > 0 {
                assert(all[n] == rest[n - 1]);
                lemma_parts_later(s, j, n - 1);
                assert(all.skip(n) =~= rest.skip(n - 1));
            } else {
                assert(all.skip(0) =~= all);
            }
        } else {
            lemma_parts_later(s, j, n);
        }
    }
}

/// Nothing that counts stands behind the last component.
proof fn lemma_parts_cut(s: Seq<char>, i: int, e: int)
    requires
        0 <= i <= e <= s.len(),
        e == s.len() || s[e] == '/',
        parts_from(s, e).len() == 0,
    ensures
        parts_from(s.take(e), i) == parts_from(s, i),
    decreases e - i,
{
    let t = s.take(e);
    if i < e {
        if s[i] == '/' {
            lemma_parts_cut(s, i + 1, e);
        } else {
            text::lemma_place(s, '/', i);
            text::lemma_place(t, '/', i);
            let j = text::place_of(s, '/', i);
            let k = text::place_of(t, '/', i);
            assert(j == k) by {
                if k < e {
                    assert(s[k] == '/');
                    if j < k {
                        assert(t[j] == '/');
                    }
                } else if j < e {
                    assert(t[j] == '/');
                }
            }
            lemma_parts_cut(s, j, e);
        }
    } else {
        assert(parts_from(t, i) =~= parts_from(s, i));
    }
}

/// A component ends at a slash or at the end, and the next ones come behind it.
proof fn lemma_part_ends(s: Seq<char>, i: int)
    requires
        0 <= i <= s.len(),
        parts_from(s, i).len() > 0,
    ensures
        ({
            let e = parts_from(s, i).last().1;
            &&& i <= e <= s.len()
            &&& e == s.len() || s[e] == '/'
            &&& parts_from(s, e).len() == 0
        }),
    decreases s.len() - i,
{
    if s[i] == '/' {
        lemma_part_ends(s, i + 1);
    } else {
        text::lemma_place(s, '/', i);
        let j = text::place_of(s, '/', i);
        let all = parts_from(s, i);
        let rest = parts_from(s, j);
        if counts(s, i, j) {
            assert(all == seq![(i, j)] + rest);
            if rest.len() > 0 {
                assert(all.last() == rest.last());
                lemma_part_ends(s, j);
            } else {
                assert(all.last() == (i, j));
            }
        } else {
            lemma_part_ends(s, j);
        }
    }
}

/// The abbreviated form of an absolute path expands back to that path.
pub proof fn abbreviated_expands_back(path: Seq<char>, home: Option<Seq<char>>)
    requires
        rooted(path),
    ensures
        same_path(expanded(abbreviated(path, home), home), path),
{
    reveal_strlit("~");
    reveal_strlit("~/");
    let short = abbreviated(path, home);
    if home_of(home) is Some && below(path, home_of(home)->Some_0) {
        let h = home_of(home)->Some_0;
        let n = parts(h).len() as int;
        let all = parts(path);
        let rest = rest_after(path, n);
        let base = if h.last() != '/' {
            h.push('/')
        } else {
            h
        };
        lemma_parts_slash(h, 0);
        lemma_parts_in_range(h, 0);
        lemma_parts_in_range(path, 0);
        assert(parts(base) == parts(h));
        if n < all.len() {
            lemma_parts_ordered(path, 0);
            lemma_parts_later(path, 0, n);
            lemma_part_ends(path, 0);
            let at = all[n].0;
            let e = all.last().1;
            assert(all.last() == all[all.len() - 1]);
            assert(at < e) by {
                if n < all.len() - 1 {
                    assert(all[n].1 <= all[all.len() - 1].0);
                }
            }
            assert(at > 0) by {
                assert(path[0] == '/');
            }
            lemma_parts_cut(path, at, e);
            let cut = path.take(e);
            assert(rest.first() == path[at]);
            tilde_is_home(h, rest);
            assert(short == "~/"@ + rest);
            let long = expanded(short, home);
            assert(long =~= base + rest);
            lemma_parts_concat(base, rest, 0);
            assert(long.skip(base.len() as int) =~= rest);
            assert(cut.skip(at) =~= rest);
            lemma_parts_alike(long, base.len() as int, cut, at);
            let mine = parts(long);
            let tail = parts_from(long, base.len() as int);
            let later = all.skip(n);
            assert(parts_from(cut, at) == later);
            assert(mine == parts(h) + tail);
            assert forall|k: int| 0 <= k < mine.len() implies #[trigger] part_text(long, mine[k])
                == part_text(path, all[k]) by {
                if k < n {
                    assert(mine[k] == parts(h)[k]);
                    assert(part_text(long, mine[k]) =~= part_text(h, parts(h)[k]));
                    assert(part_text(h, parts(h)[k]) == part_text(path, all[k]));
                } else {
                    assert(mine[k] == tail[k - n]);
                    assert(part_text(long, tail[k - n]) == part_text(cut, later[k - n]));
                    assert(later[k - n] == all[k]);
                    assert(all[k].1 <= e) by {
                        if k < all.len() - 1 {
                            assert(all[k].1 <= all[all.len() - 1].0);
                        }
                    }
                    assert(part_text(cut, all[k]) =~= part_text(path, all[k]));
                }
            }
            assert(long[0] == base[0]);
        } else {
            tilde_is_home(h, Seq::empty());
            let long = expanded("~"@, home);
            assert(long =~= base);
            assert(base[0] == h[0]);
            assert forall|k: int| 0 <= k < parts(long).len() implies #[trigger] part_text(
                long,
                parts(long)[k],
            ) == part_text(path, all[k]) by {
                assert(part_text(long, parts(h)[k]) =~= part_text(h, parts(h)[k]));
                assert(part_text(h, parts(h)[k]) == part_text(path, all[k]));
            }
        }
    } else {
        assert(short == path);
        other_text_is_kept(path, home);
    }
}

/// A path is put behind a directory with one slash between them; one that starts
/// at the root takes its place.
pub proof fn joined_with_a_slash(base: Seq<char>, rest: Seq<char>)
    requires
        base.len() > 0,
    ensures
        rest.len() > 0 && rest[0] == '/' ==> joined(base, rest) == rest,
        (rest.len() == 0 || rest[0] != '/') && base.last() != '/' ==> joined(base, rest) == base
            + "/"@ + rest,
        (rest.len() == 0 || rest[0] != '/') && base.last() == '/' ==> joined(base, rest) == base
            + rest,
{
    reveal_strlit("/");
    assert(base.push('/') + rest =~= base + "/"@ + rest);
}

/// The registry is where `$COFFER_CONFIG` says, unless that is empty; else it is
/// `.coffer/config` in the home directory, unless that is empty too. Otherwise
/// there is none.
pub proof fn registry_is_found(coffer_config: Option<Seq<char>>, home: Option<Seq<char>>)
    ensures
        ({
            let told = coffer_config is Some && coffer_config->Some_0.len() > 0;
            let h = home->Some_0;
            let r = config_path_of(coffer_config, home);
            &&& told ==> r == coffer_config
            &&& !told && home is Some && h.len() > 0 && h.last() != '/' ==> r == Some(
                h + "/.coffer/config"@,
            )
            &&& !told && home is Some && h.len() > 0 && h.last() == '/' ==> r == Some(
                h + ".coffer/config"@,
            )
            &&& !told && (home is None || h.len() == 0) ==> r is None
        }),
{
    reveal_strlit(".coffer");
    reveal_strlit("config");
    reveal_strlit("/");
    reveal_strlit("/.coffer/config");
    reveal_strlit(".coffer/config");
    if home is Some && home->Some_0.len() > 0 {
        let h = home->Some_0;
        let dir = joined(h, ".coffer"@);
        joined_with_a_slash(h, ".coffer"@);
        assert(dir.last() == ".coffer"@[6]);
        joined_with_a_slash(dir, "config"@);
        if h.last() != '/' {
            assert(dir + "/"@ + "config"@ =~= h + "/.coffer/config"@);
        } else {
            assert(dir + "/"@ + "config"@ =~= h + ".coffer/config"@);
        }
    }
}

/// A name: one component, and not the current directory.
pub open spec fn is_name(s: Seq<char>) -> bool {
    &&& s.len() > 0
    &&& s != "."@
    &&& forall|i: int| 0 <= i < s.len() ==> #[trigger] s[i] != '/'
}

/// A path that ends with a component: neither with a slash nor with a dot that
/// means the same directory.
pub open spec fn ends_with_part(s: Seq<char>) -> bool {
    &&& s.len() > 0
    &&& s.last() != '/'
    &&& !(s.len() >= 2 && s[s.len() - 1] == '.' && s[s.len() - 2] == '/')
}

proof fn lemma_last_part(s: Seq<char>, i: int)
    requires
        0 <= i < s.len(),
        ends_with_part(s),
        i == 0 || s[i - 1] == '/' || s[i] == '/',
    ensures
        parts_from(s, i).len() > 0,
        parts_from(s, i).last().1 == s.len(),
    decreases s.len() - i,
{
    if s[i] == '/' {
        assert(s.last() == s[s.len() - 1]);
        lemma_last_part(s, i + 1);
    } else {
        text::lemma_place(s, '/', i);
        let j = text::place_of(s, '/', i);
        if j < s.len() {
            lemma_last_part(s, j);
            let rest = parts_from(s, j);
            if counts(s, i, j) {
                assert((seq![(i, j)] + rest).last() == rest.last());
            }
        } else {
            assert(counts(s, i, j));
            assert(parts_from(s, j) =~= Seq::empty());
            assert((seq![(i, j)] + parts_from(s, j)).last() == (i, j));
        }
    }
}

proof fn lemma_name_behind(base: Seq<char>, name: Seq<char>)
    requires
        base.len() > 0,
        base.last() == '/',
        is_name(name),
    ensures
        parts(base + name) == parts(base).push(
            (base.len() as int, (base.len() + name.len()) as int),
        ),
{
    reveal_strlit(".");
    let all = base + name;
    let n = base.len() as int;
    lemma_parts_concat(base, name, 0);
    assert(all[n] == name[0]);
    text::lemma_place(all, '/', n);
    let j = text::place_of(all, '/', n);
    assert(j == all.len()) by {
        if j < all.len() {
            assert(all[j] == name[j - n]);
        }
    }
    assert(counts(all, n, j)) by {
        if j == n + 1 && all[n] == '.' {
            assert(name =~= "."@);
        }
    }
    assert(parts_from(all, j) =~= Seq::empty());
    assert(parts_from(all, n) =~= seq![(n, j)]);
    assert(parts(base) + seq![(n, j)] =~= parts(base).push((n, j)));
}

/// The directory and the name of a path, where the one stands before the last
/// slash and the other behind it. `..` is no name.
pub proof fn directory_and_name(dir: Seq<char>, name: Seq<char>)
    requires
        ends_with_part(dir),
        is_name(name),
    ensures
        parent(dir + "/"@ + name) == dir,
        parent_or_here(dir + "/"@ + name) == dir,
        name != ".."@ ==> file_name(dir + "/"@ + name) == Some(name),
        name == ".."@ ==> file_name(dir + "/"@ + name) is None,
{
    reveal_strlit("/");
    let base = dir.push('/');
    let path = dir + "/"@ + name;
    assert(path =~= base + name);
    lemma_name_behind(base, name);
    lemma_parts_slash(dir, 0);
    assert(parts(base) == parts(dir));
    lemma_last_part(dir, 0);
    let all = parts(path);
    assert(all.drop_last() =~= parts(dir));
    assert(path.take(dir.len() as int) =~= dir);
    assert(all.last() == (base.len() as int, (base.len() + name.len()) as int));
    assert(part_text(path, all.last()) =~= name);
}

/// A name alone is in the current directory, and one with a slash before it in
/// the root. The root itself has no name.
pub proof fn directory_of_a_name(name: Seq<char>)
    requires
        is_name(name),
    ensures
        parent(name).len() == 0,
        parent_or_here(name) == "."@,
        name != ".."@ ==> file_name(name) == Some(name),
        name == ".."@ ==> file_name(name) is None,
        parent("/"@ + name) == "/"@,
        parent_or_here("/"@ + name) == "/"@,
        name != ".."@ ==> file_name("/"@ + name) == Some(name),
        file_name("/"@) is None,
        parent("/"@).len() == 0,
{
    reveal_strlit("/");
    reveal_strlit(".");
    let n = name.len() as int;
    text::lemma_place(name, '/', 0);
    assert(text::place_of(name, '/', 0) == n);
    assert(parts_from(name, n) =~= Seq::empty());
    assert(parts(name) =~= seq![(0int, n)]);
    assert(parts(name).drop_last() =~= Seq::empty());
    assert(part_text(name, parts(name).last()) =~= name);
    lemma_name_behind("/"@, name);
    let path = "/"@ + name;
    assert(parts_from("/"@, 1) =~= Seq::empty());
    assert(parts("/"@) =~= Seq::empty());
    assert(parts(path) =~= seq![(1int, n + 1)]);
    assert(parts(path).drop_last() =~= Seq::empty());
    assert(part_text(path, parts(path).last()) =~= name);
    assert(path[0] == '/');
}

/// The home directory is shown as a tilde, and what is below it with a tilde in
/// its place.
pub proof fn home_is_shown_as_tilde(home: Seq<char>, rest: Seq<char>)
    requires
        home.len() > 0,
        home.last() != '/',
        ends_with_part(rest),
        rest.first() != '/',
        rest != "."@,
        !(rest.len() >= 2 && rest[0] == '.' && rest[1] == '/'),
    ensures
        abbreviated(home, Some(home)) == "~"@,
        abbreviated(home + "/"@ + rest, Some(home)) == "~/"@ + rest,
        abbreviated(home + "/"@ + rest, None) == home + "/"@ + rest,
{
    reveal_strlit("/");
    reveal_strlit(".");
    assert(rest_after(home, parts(home).len() as int) =~= Seq::empty());
    let base = home.push('/');
    let path = home + "/"@ + rest;
    let n = parts(home).len() as int;
    let b = base.len() as int;
    assert(path =~= base + rest);
    lemma_parts_slash(home, 0);
    lemma_parts_in_range(home, 0);
    lemma_parts_concat(base, rest, 0);
    let later = parts_from(path, b);
    assert(parts(path) == parts(home) + later);
    assert(path[0] == home[0]);
    assert forall|k: int| 0 <= k < n implies #[trigger] part_text(home, parts(home)[k])
        == part_text(path, parts(path)[k]) by {
        assert(parts(path)[k] == parts(home)[k]);
        assert(part_text(home, parts(home)[k]) =~= part_text(path, parts(home)[k]));
    }
    assert(path[b] == rest[0]);
    assert(path[b - 1] == '/');
    assert(path.last() == rest.last());
    if rest.len() >= 2 {
        assert(path[path.len() - 2] == rest[rest.len() - 2]);
        assert(path[path.len() - 1] == rest[rest.len() - 1]);
    } else {
        assert(rest[0] != '.') by {
            if rest[0] == '.' {
                assert(rest =~= "."@);
            }
        }
    }
    lemma_last_part(path, b);
    text::lemma_place(path, '/', b);
    let j = text::place_of(path, '/', b);
    assert(counts(path, b, j)) by {
        if j == b + 1 && path[b] == '.' {
            if j < path.len() {
                assert(path[j] == rest[1]);
            }
        }
    }
    assert(later[0] == (b, j));
    assert(parts(path)[n] == later[0]);
    assert(parts(path).last() == later.last());
    assert(path.subrange(b, path.len() as int) =~= rest);
}

/// Slashes in a row are one slash, one at the end means nothing, and neither
/// does a lone dot behind a slash.
pub proof fn dots_and_slashes_do_not_count(dir: Seq<char>, name: Seq<char>)
    requires
        ends_with_part(dir),
        is_name(name),
        name != ".."@,
    ensures
        parent(dir + "//"@ + name) == dir,
        parent(dir + "/./"@ + name) == dir,
        parent(dir + "/"@ + name + "/"@) == dir,
        parent(dir + "/"@ + name + "/."@) == dir,
        file_name(dir + "//"@ + name) == Some(name),
        file_name(dir + "/./"@ + name) == Some(name),
        file_name(dir + "/"@ + name + "/"@) == Some(name),
        file_name(dir + "/"@ + name + "/."@) == Some(name),
{
    reveal_strlit("/");
    reveal_strlit("//");
    reveal_strlit("/./");
    reveal_strlit("/.");
    reveal_strlit("./");
    reveal_strlit(".");
    directory_and_name(dir, name);
    lemma_last_part(dir, 0);
    let n = dir.len() as int;
    let base = dir.push('/');
    lemma_parts_slash(dir, 0);
    let double = base.push('/');
    lemma_parts_slash(base, 0);
    assert(parts(double) == parts(dir));
    assert(double.take(n) =~= dir);
    lemma_inner(dir, double, name);
    assert(double + name =~= dir + "//"@ + name);
    let dotted = base + "./"@;
    lemma_parts_concat(base, "./"@, 0);
    text::lemma_place(dotted, '/', n + 1);
    assert(dotted[n + 1] == '.' && dotted[n + 2] == '/');
    assert(text::place_of(dotted, '/', n + 1) == n + 2);
    assert(parts_from(dotted, n + 3) =~= Seq::empty());
    assert(parts_from(dotted, n + 2) == parts_from(dotted, n + 3));
    assert(parts_from(dotted, n + 1) == parts_from(dotted, n + 2));
    assert(parts(dotted) =~= parts(dir));
    assert(dotted.take(n) =~= dir);
    lemma_inner(dir, dotted, name);
    assert(dotted + name =~= dir + "/./"@ + name);
    let path = dir + "/"@ + name;
    assert(path =~= base + name);
    lemma_name_behind(base, name);
    let all = parts(path);
    assert(all.drop_last() =~= parts(dir));
    let m = path.len() as int;
    assert(all.last() == (n + 1, m));
    let slashed = path.push('/');
    lemma_parts_slash(path, 0);
    assert(slashed =~= path + "/"@);
    assert(slashed.take(n) =~= dir);
    assert(part_text(slashed, (n + 1, m)) =~= name);
    let ended = slashed + "."@;
    lemma_parts_concat(slashed, "."@, 0);
    text::lemma_place(ended, '/', m + 1);
    assert(ended[m + 1] == '.');
    assert(text::place_of(ended, '/', m + 1) == m + 2);
    assert(parts_from(ended, m + 2) =~= Seq::empty());
    assert(parts_from(ended, m + 1) == parts_from(ended, m + 2));
    assert(parts(ended) =~= all);
    assert(ended =~= path + "/."@);
    assert(ended.take(n) =~= dir);
    assert(part_text(ended, (n + 1, m)) =~= name);
}

proof fn lemma_inner(dir: Seq<char>, base: Seq<char>, name: Seq<char>)
    requires
        ends_with_part(dir),
        is_name(name),
        name != ".."@,
        dir.len() < base.len(),
        base.take(dir.len() as int) == dir,
        base.last() == '/',
        parts(base) == parts(dir),
    ensures
        parent(base + name) == dir,
        file_name(base + name) == Some(name),
{
    lemma_last_part(dir, 0);
    lemma_name_behind(base, name);
    let path = base + name;
    let all = parts(path);
    assert(all.drop_last() =~= parts(dir));
    assert(path.take(dir.len() as int) =~= dir);
    assert(part_text(path, all.last()) =~= name);
}

} // verus!
