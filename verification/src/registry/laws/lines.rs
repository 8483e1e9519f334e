//! Lines of a registry, one by one.
use vstd::prelude::*;

use crate::registry::config::ConfigView;
use crate::registry::config;
use crate::registry::vault::SectionView;
use crate::registry::vault;
use crate::text;

verus! {

/// A line that opens no section and is one line only.
pub open spec fn plain_line(line: Seq<char>) -> bool {
    &&& forall|i: int| 0 <= i < line.len() ==> #[trigger] line[i] != '\n'
    &&& text::trimmed(line).len() > 0 ==> text::trimmed(line).first() != '['
}

pub open spec fn plain_lines(lines: Seq<Seq<char>>) -> bool {
    forall|i: int| 0 <= i < lines.len() ==> plain_line(#[trigger] lines[i])
}

/// A text that starts and ends with something else has no white space to trim.
pub(crate) proof fn lemma_untrimmed(s: Seq<char>)
    requires
        s.len() > 0 ==> !text::white(s.first()) && !text::white(s.last()),
    ensures
        text::trimmed(s) == s,
{
}

/// White space at the ends is trimmed.
pub(crate) proof fn lemma_trim_one(s: Seq<char>)
    requires
        s.len() > 0,
        !text::white(s.first()),
        !text::white(s.last()),
    ensures
        text::trimmed(s.push(' ')) == s,
        text::trimmed(seq![' '] + s) == s,
{
    let a = s.push(' ');
    assert(a.drop_last() =~= s);
    assert(text::trimmed_start(a) == a);
    assert(text::trimmed_end(s) == s);
    assert(text::trimmed_end(a) == s);
    let b = seq![' '] + s;
    assert(b.drop_first() =~= s);
    assert(text::trimmed_start(s) == s);
    assert(text::trimmed_start(b) == s);
}

/// One line and no more.
pub open spec fn one_line(s: Seq<char>) -> bool {
    forall|i: int| 0 <= i < s.len() ==> #[trigger] s[i] != '\n'
}

/// An empty line says nothing.
pub(crate) proof fn lemma_empty_line(lines: Seq<Seq<char>>, home: Option<Seq<char>>)
    ensures
        vault::settings_of(lines.push(Seq::empty()), home) == vault::settings_of(lines, home),
{
    assert(lines.push(Seq::empty()).drop_last() =~= lines);
    assert(text::trimmed_start(Seq::empty()) == Seq::<char>::empty());
}

/// Lines that set nothing.
pub open spec fn all_comments(lines: Seq<Seq<char>>) -> bool {
    forall|i: int| 0 <= i < lines.len() ==> vault::comment(#[trigger] lines[i])
}

/// Comments behind some lines change nothing of what those set.
pub(crate) proof fn lemma_comments(
    lines: Seq<Seq<char>>,
    more: Seq<Seq<char>>,
    home: Option<Seq<char>>,
)
    requires
        all_comments(more),
    ensures
        vault::settings_of(lines + more, home) == vault::settings_of(lines, home),
    decreases more.len(),
{
    if more.len() == 0 {
        assert(lines + more =~= lines);
    } else {
        let front = more.drop_last();
        assert forall|i: int| 0 <= i < front.len() implies vault::comment(#[trigger] front[i]) by {
            assert(vault::comment(more[i]));
        }
        lemma_comments(lines, front, home);
        assert((lines + more).drop_last() =~= lines + front);
        assert((lines + more).last() == more[more.len() - 1]);
    }
}

/// A blank line sets nothing.
pub(crate) proof fn lemma_blank_comment(line: Seq<char>)
    requires
        vault::blank(line),
    ensures
        vault::comment(line),
{
    let t = text::trimmed_start(line);
    if t.len() > 0 {
        lemma_start_stops(line);
        lemma_end_kept(t, 0);
    }
}

proof fn lemma_start_stops(s: Seq<char>)
    ensures
        text::trimmed_start(s).len() > 0 ==> !text::white(text::trimmed_start(s)[0]),
    decreases s.len(),
{
    if s.len() > 0 && text::white(s.first()) {
        lemma_start_stops(s.drop_first());
    }
}

pub(crate) proof fn lemma_empty_is_blank()
    ensures
        vault::blank(Seq::empty()),
        vault::comment(Seq::empty()),
        plain_line(Seq::empty()),
{
    assert(text::trimmed(Seq::empty()) == Seq::<char>::empty());
    assert(text::trimmed_start(Seq::empty()) == Seq::<char>::empty());
}

proof fn lemma_unblanked(lines: Seq<Seq<char>>)
    ensures
        vault::unblanked(lines).len() <= lines.len(),
        vault::unblanked(lines) == lines.take(vault::unblanked(lines).len() as int),
        !vault::ends_blank(vault::unblanked(lines)),
    decreases lines.len(),
{
    if vault::ends_blank(lines) {
        lemma_unblanked(lines.drop_last());
        let n = vault::unblanked(lines).len() as int;
        assert(lines.drop_last().take(n) =~= lines.take(n));
    } else {
        assert(lines.take(lines.len() as int) =~= lines);
    }
}

/// What stands behind the settings is the end of the lines, and sets nothing.
proof fn lemma_behind(lines: Seq<Seq<char>>)
    ensures
        vault::behind_settings(lines).len() <= lines.len(),
        vault::behind_settings(lines) == lines.skip(
            lines.len() - vault::behind_settings(lines).len(),
        ),
        all_comments(vault::behind_settings(lines)),
    decreases lines.len(),
{
    if lines.len() > 0 && vault::comment(lines.last()) {
        lemma_behind(lines.drop_last());
        let b = vault::behind_settings(lines.drop_last());
        let all = vault::behind_settings(lines);
        assert(all =~= lines.skip(lines.len() - all.len()));
        assert forall|i: int| 0 <= i < all.len() implies vault::comment(#[trigger] all[i]) by {
            if i < b.len() {
                assert(vault::comment(b[i]));
            }
        }
    } else {
        assert(lines.skip(lines.len() as int) =~= Seq::empty());
    }
}

/// What stays behind the settings is made of lines that were there and of an
/// empty one, and sets nothing.
pub(crate) proof fn lemma_kept_behind(lines: Seq<Seq<char>>)
    ensures
        all_comments(vault::kept_behind(lines)),
        forall|i: int|
            0 <= i < vault::kept_behind(lines).len() ==> (#[trigger] vault::kept_behind(lines)[i]).len()
                == 0 || lines.contains(vault::kept_behind(lines)[i]),
{
    lemma_unblanked(lines);
    lemma_empty_is_blank();
    let upto = vault::unblanked(lines);
    lemma_behind(upto);
    let b = vault::behind_settings(upto);
    let all = vault::kept_behind(lines);
    assert forall|i: int| 0 <= i < all.len() implies vault::comment(#[trigger] all[i]) && (
    all[i].len() == 0 || lines.contains(all[i])) by {
        if i < b.len() {
            assert(all[i] == b[i]);
            assert(b[i] == lines[upto.len() - b.len() + i]);
        } else {
            assert(all[i] == Seq::<char>::empty());
        }
    }
}

/// A line of a section is a line of the registry.
pub(crate) proof fn lemma_line_of_section(sections: Seq<SectionView>, k: int, line: Seq<char>)
    requires
        0 <= k < sections.len(),
        sections[k].lines.contains(line),
    ensures
        config::section_lines(sections).contains(line),
    decreases sections.len(),
{
    let before = config::section_lines(sections.drop_last()).push(
        config::header(sections.last().name),
    );
    let all = config::section_lines(sections);
    if k == sections.len() - 1 {
        let i = choose|i: int| 0 <= i < sections[k].lines.len() && sections[k].lines[i] == line;
        assert(all[before.len() + i] == line);
    } else {
        lemma_line_of_section(sections.drop_last(), k, line);
        let front = config::section_lines(sections.drop_last());
        let i = choose|i: int| 0 <= i < front.len() && front[i] == line;
        assert(all[i] == line);
    }
}

/// So is its header.
pub(crate) proof fn lemma_header_of_section(sections: Seq<SectionView>, k: int)
    requires
        0 <= k < sections.len(),
    ensures
        config::section_lines(sections).contains(config::header(sections[k].name)),
    decreases sections.len(),
{
    let front = config::section_lines(sections.drop_last());
    let all = config::section_lines(sections);
    let head = config::header(sections[k].name);
    if k == sections.len() - 1 {
        assert(all[front.len() as int] == head);
    } else {
        lemma_header_of_section(sections.drop_last(), k);
        let i = choose|i: int| 0 <= i < front.len() && front[i] == head;
        assert(all[i] == head);
    }
}

/// There are no other lines: each is the header of a section, or stands in it.
pub(crate) proof fn lemma_section_of_line(sections: Seq<SectionView>, line: Seq<char>) -> (k: int)
    requires
        config::section_lines(sections).contains(line),
    ensures
        0 <= k < sections.len(),
        line == config::header(sections[k].name) || sections[k].lines.contains(line),
    decreases sections.len(),
{
    let all = config::section_lines(sections);
    let i = choose|i: int| 0 <= i < all.len() && all[i] == line;
    let front = config::section_lines(sections.drop_last());
    let last = sections.last();
    if i < front.len() {
        assert(front[i] == line);
        lemma_section_of_line(sections.drop_last(), line)
    } else {
        if i > front.len() {
            assert(last.lines[i - front.len() - 1] == line);
        }
        sections.len() - 1
    }
}

pub(crate) proof fn lemma_line_of_all(c: ConfigView, line: Seq<char>)
    ensures
        c.preamble.contains(line) || config::section_lines(c.sections).contains(line)
            <==> config::all_lines(c).contains(line),
{
    let all = config::all_lines(c);
    let tail = config::section_lines(c.sections);
    if c.preamble.contains(line) {
        let i = choose|i: int| 0 <= i < c.preamble.len() && c.preamble[i] == line;
        assert(all[i] == line);
    }
    if tail.contains(line) {
        let i = choose|i: int| 0 <= i < tail.len() && tail[i] == line;
        assert(all[c.preamble.len() + i] == line);
    }
    if all.contains(line) {
        let i = choose|i: int| 0 <= i < all.len() && all[i] == line;
        if i < c.preamble.len() {
            assert(c.preamble[i] == line);
        } else {
            assert(tail[i - c.preamble.len()] == line);
        }
    }
}

/// A comment behind the settings is behind them without the blank lines, too.
pub(crate) proof fn lemma_note_behind(lines: Seq<Seq<char>>, line: Seq<char>)
    requires
        vault::note(line),
        vault::behind_settings(lines).contains(line),
    ensures
        vault::behind_settings(vault::unblanked(lines)).contains(line),
    decreases lines.len(),
{
    if vault::ends_blank(lines) {
        lemma_blank_comment(lines.last());
        let b = vault::behind_settings(lines);
        let front = vault::behind_settings(lines.drop_last());
        let i = choose|i: int| 0 <= i < b.len() && b[i] == line;
        assert(i < front.len());
        assert(front[i] == line);
        lemma_note_behind(lines.drop_last(), line);
    }
}

proof fn lemma_end_kept(s: Seq<char>, i: int)
    requires
        0 <= i < s.len(),
        !text::white(s[i]),
    ensures
        text::trimmed_end(s).len() > 0,
    decreases s.len(),
{
    if text::white(s.last()) {
        assert(s.drop_last()[i] == s[i]);
        lemma_end_kept(s.drop_last(), i);
    }
}

/// Comments behind a setting are what stands behind the settings.
proof fn lemma_behind_is(settings: Seq<Seq<char>>, more: Seq<Seq<char>>)
    requires
        settings.len() > 0,
        !vault::comment(settings.last()),
        all_comments(more),
    ensures
        vault::behind_settings(settings + more) == more,
    decreases more.len(),
{
    let all = settings + more;
    if more.len() == 0 {
        assert(all =~= settings);
        assert(more =~= Seq::empty());
    } else {
        let front = more.drop_last();
        assert forall|i: int| 0 <= i < front.len() implies vault::comment(#[trigger] front[i]) by {
            assert(vault::comment(more[i]));
        }
        lemma_behind_is(settings, front);
        assert(all.drop_last() =~= settings + front);
        assert(all.last() == more[more.len() - 1]);
        assert(front.push(more.last()) =~= more);
    }
}

/// What stays behind the settings stays once more.
pub(crate) proof fn lemma_kept_twice(settings: Seq<Seq<char>>, old: Seq<Seq<char>>)
    requires
        settings.len() > 0,
        !vault::comment(settings.last()),
        !vault::blank(settings.last()),
    ensures
        vault::kept_behind(settings + vault::kept_behind(old)) == vault::kept_behind(old),
{
    lemma_unblanked(old);
    lemma_empty_is_blank();
    let upto = vault::unblanked(old);
    lemma_behind(upto);
    let b = vault::behind_settings(upto);
    let body = settings + b;
    let lines = settings + vault::kept_behind(old);
    assert(!vault::ends_blank(body)) by {
        if b.len() > 0 {
            assert(body.last() == b.last());
            assert(b.last() == upto.last());
        } else {
            assert(body =~= settings);
        }
    }
    assert(vault::unblanked(body) == body);
    if vault::ends_blank(old) {
        assert(lines =~= body.push(Seq::empty()));
        assert(lines.drop_last() =~= body);
        assert(lines.last() == Seq::<char>::empty());
        assert(vault::unblanked(lines) == body);
    } else {
        assert(lines =~= body);
    }
    lemma_behind_is(settings, b);
}

/// The comments among some lines are lines of them.
proof fn lemma_notes(lines: Seq<Seq<char>>)
    ensures
        forall|i: int|
            0 <= i < vault::notes(lines).len() ==> vault::note(#[trigger] vault::notes(lines)[i])
                && lines.contains(vault::notes(lines)[i]),
        forall|line: Seq<char>|
            vault::note(line) && #[trigger] lines.contains(line) ==> vault::notes(lines).contains(
                line,
            ),
    decreases lines.len(),
{
    if lines.len() > 0 {
        let front = lines.drop_last();
        let last = lines.last();
        lemma_notes(front);
        let few = vault::notes(front);
        let all = vault::notes(lines);
        assert(lines[lines.len() - 1] == last);
        assert forall|i: int| 0 <= i < all.len() implies vault::note(#[trigger] all[i])
            && lines.contains(all[i]) by {
            if i < few.len() {
                assert(all[i] == few[i]);
                let k = choose|k: int| 0 <= k < front.len() && front[k] == few[i];
                assert(lines[k] == few[i]);
            }
        }
        assert forall|line: Seq<char>| vault::note(line) && #[trigger] lines.contains(
            line,
        ) implies all.contains(line) by {
            let k = choose|k: int| 0 <= k < lines.len() && lines[k] == line;
            if k < front.len() {
                assert(front[k] == line);
                assert(front.contains(line));
                let i = choose|i: int| 0 <= i < few.len() && few[i] == line;
                assert(all[i] == line);
            } else {
                assert(all[few.len() as int] == line);
            }
        }
    }
}

/// What is left of a section is made of its comments and of an empty line.
pub(crate) proof fn lemma_left(lines: Seq<Seq<char>>)
    ensures
        all_comments(vault::left_of(lines)),
        forall|i: int|
            0 <= i < vault::left_of(lines).len() ==> (#[trigger] vault::left_of(lines)[i]).len() == 0
                || lines.contains(vault::left_of(lines)[i]),
        forall|line: Seq<char>|
            vault::note(line) && #[trigger] lines.contains(line) ==> vault::left_of(
                lines,
            ).contains(line),
{
    lemma_notes(lines);
    lemma_empty_is_blank();
    let few = vault::notes(lines);
    let all = vault::left_of(lines);
    assert forall|i: int| 0 <= i < all.len() implies vault::comment(#[trigger] all[i]) && (
    all[i].len() == 0 || lines.contains(all[i])) by {
        if i < few.len() {
            assert(all[i] == few[i]);
        }
    }
    assert forall|line: Seq<char>| vault::note(line) && #[trigger] lines.contains(
        line,
    ) implies all.contains(line) by {
        let i = choose|i: int| 0 <= i < few.len() && few[i] == line;
        assert(all[i] == line);
    }
}

/// No header is a comment.
pub(crate) proof fn lemma_header_no_note(name: Seq<char>)
    ensures
        !vault::note(config::header(name)),
{
    lemma_header_nonempty(name);
    assert(text::trimmed_start(config::header(name)) == config::header(name));
}

/// White space at the end of a line makes no difference to what is in it.
pub(crate) proof fn lemma_white_end(s: Seq<char>, w: char)
    requires
        text::white(w),
    ensures
        text::trimmed_start(s).len() == 0 ==> text::trimmed_start(s.push(w)).len() == 0,
        text::trimmed_start(s).len() > 0 ==> text::trimmed_start(s.push(w))
            == text::trimmed_start(s).push(w),
        text::trimmed(s.push(w)) == text::trimmed(s),
    decreases s.len(),
{
    let t = s.push(w);
    if s.len() == 0 {
        assert(t.drop_first() =~= s);
        assert(text::trimmed_start(t) == text::trimmed_start(s));
    } else if text::white(s.first()) {
        assert(t.drop_first() =~= s.drop_first().push(w));
        lemma_white_end(s.drop_first(), w);
    } else {
        assert(t.drop_last() =~= s);
    }
}

pub(crate) proof fn lemma_header_nonempty(name: Seq<char>)
    ensures
        config::header(name).len() == name.len() + 2,
        config::header(name).first() == '[',
        config::header(name).last() == ']',
        config::header(name).subrange(1, name.len() as int + 1) == name,
{
    reveal_strlit("[");
    reveal_strlit("]");
    assert(config::header(name).subrange(1, name.len() as int + 1) =~= name);
}

/// Lines that stood among plain ones are plain, and so are empty ones.
pub(crate) proof fn lemma_plain_from(lines: Seq<Seq<char>>, some: Seq<Seq<char>>)
    requires
        plain_lines(lines),
        forall|i: int|
            0 <= i < some.len() ==> (#[trigger] some[i]).len() == 0 || lines.contains(some[i]),
    ensures
        plain_lines(some),
{
    lemma_empty_is_blank();
    assert forall|i: int| 0 <= i < some.len() implies plain_line(#[trigger] some[i]) by {
        if some[i].len() == 0 {
            assert(some[i] =~= Seq::empty());
        } else {
            let k = choose|k: int| 0 <= k < lines.len() && lines[k] == some[i];
            assert(plain_line(lines[k]));
        }
    }
}

pub(crate) proof fn lemma_plain_both(a: Seq<Seq<char>>, b: Seq<Seq<char>>)
    requires
        plain_lines(a),
        plain_lines(b),
    ensures
        plain_lines(a + b),
{
    let all = a + b;
    assert forall|i: int| 0 <= i < all.len() implies plain_line(#[trigger] all[i]) by {
        if i < a.len() {
            assert(all[i] == a[i]);
        } else {
            assert(all[i] == b[i - a.len()]);
        }
    }
}

pub(crate) proof fn lemma_end_prefix(s: Seq<char>)
    ensures
        text::trimmed_end(s).len() <= s.len(),
        text::trimmed_end(s).len() > 0 ==> text::trimmed_end(s)[0] == s[0],
    decreases s.len(),
{
    if s.len() > 0 && text::white(s.last()) {
        lemma_end_prefix(s.drop_last());
    }
}

} // verus!
