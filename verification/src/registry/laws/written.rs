//! What a registry reads back as once it was written.
use vstd::prelude::*;

use crate::registry::config::{ConfigView, Read};
use crate::registry::config;
use crate::registry::laws::{form, lines, register, rendered};
use crate::registry::vault::{
    Problem, ProblemView, SectionView, SettingsView, VaultError, VaultErrorView, VaultView,
};
use crate::registry::vault;
use crate::text;

verus! {

/// A text that does not end with a carriage return, which would count as part of
/// the line end when it is read again.
pub open spec fn no_return(line: Seq<char>) -> bool {
    line.len() > 0 ==> line.last() != '\r'
}

/// No line ends with one.
pub open spec fn no_returns(lines: Seq<Seq<char>>) -> bool {
    forall|i: int| 0 <= i < lines.len() ==> no_return(#[trigger] lines[i])
}

spec fn one_liners(lines: Seq<Seq<char>>) -> bool {
    forall|k: int, i: int|
        0 <= k < lines.len() && 0 <= i < lines[k].len() ==> #[trigger] lines[k][i] != '\n'
}

proof fn lemma_ended_front(first: Seq<char>, rest: Seq<Seq<char>>)
    ensures
        config::ended(seq![first] + rest) == first.push('\n') + config::ended(rest),
    decreases rest.len(),
{
    let all = seq![first] + rest;
    if rest.len() == 0 {
        assert(all.drop_last() =~= Seq::empty());
        assert(config::ended(Seq::<Seq<char>>::empty()) == Seq::<char>::empty());
        assert(config::ended(all) =~= first.push('\n') + config::ended(rest));
    } else {
        assert(all.drop_last() =~= seq![first] + rest.drop_last());
        assert(all.last() == rest.last());
        lemma_ended_front(first, rest.drop_last());
        assert(config::ended(all) =~= first.push('\n') + config::ended(rest));
    }
}

/// Some lines without the carriage returns at their ends.
spec fn unreturned(lines: Seq<Seq<char>>) -> Seq<Seq<char>> {
    Seq::new(lines.len(), |i: int| text::without_return(lines[i]))
}

/// Lines that were written out are read back, but for carriage returns.
proof fn lemma_lines_back(lines: Seq<Seq<char>>)
    requires
        one_liners(lines),
    ensures
        text::lines(config::ended(lines)) == unreturned(lines),
    decreases lines.len(),
{
    if lines.len() > 0 {
        let first = lines[0];
        let rest = lines.drop_first();
        assert(seq![first] + rest =~= lines);
        assert forall|k: int, i: int| 0 <= k < rest.len() && 0 <= i < rest[k].len() implies
            #[trigger] rest[k][i] != '\n' by {
            assert(lines[k + 1][i] != '\n');
        }
        lemma_lines_back(rest);
        lemma_ended_front(first, rest);
        let s = config::ended(lines);
        text::lemma_place(s, '\n', 0);
        let p = text::place_of(s, '\n', 0);
        assert(p == first.len()) by {
            assert(s[first.len() as int] == '\n');
            assert forall|i: int| 0 <= i < first.len() implies #[trigger] s[i] != '\n' by {
                assert(lines[0][i] != '\n');
            }
        }
        assert(s.take(p) =~= first);
        assert(s.skip(p + 1) =~= config::ended(rest));
        assert(seq![text::without_return(first)] + unreturned(rest) =~= unreturned(lines));
    } else {
        assert(unreturned(lines) =~= Seq::empty());
    }
}

/// A carriage return at the end of a line makes no difference to what is in it.
proof fn lemma_unreturned_line(line: Seq<char>)
    ensures
        text::trimmed(text::without_return(line)) == text::trimmed(line),
        vault::comment(text::without_return(line)) == vault::comment(line),
        lines::plain_line(line) ==> lines::plain_line(text::without_return(line)),
{
    let bare = text::without_return(line);
    if bare != line {
        assert(line =~= bare.push('\r'));
        lines::lemma_white_end(bare, '\r');
        if lines::plain_line(line) {
            assert forall|i: int| 0 <= i < bare.len() implies #[trigger] bare[i] != '\n' by {
                assert(line[i] != '\n');
            }
        }
    }
}

/// A problem as it is found again when the lines have lost the carriage
/// returns at their ends.
pub open spec fn problem_again(problem: ProblemView) -> ProblemView {
    match problem {
        Problem::NotKeyValue(line) => Problem::NotKeyValue(text::without_return(line)),
        other => other,
    }
}

/// What a section says when it is read again. A vault is the same vault; an
/// error that quotes a line quotes it without the carriage return at its end.
pub open spec fn read_again(r: Result<VaultView, VaultErrorView>) -> Result<
    VaultView,
    VaultErrorView,
> {
    match r {
        Ok(v) => Ok(v),
        Err(e) => Err(VaultError { section: e.section, problem: problem_again(e.problem) }),
    }
}

/// The same of all vaults.
pub open spec fn all_read_again(r: Result<Seq<VaultView>, VaultErrorView>) -> Result<
    Seq<VaultView>,
    VaultErrorView,
> {
    match r {
        Ok(list) => Ok(list),
        Err(e) => Err(VaultError { section: e.section, problem: problem_again(e.problem) }),
    }
}

proof fn lemma_all_read_again(
    sections: Seq<SectionView>,
    again: Seq<SectionView>,
    home: Option<Seq<char>>,
)
    requires
        again.len() == sections.len(),
        forall|i: int|
            0 <= i < sections.len() ==> vault::vault_of(#[trigger] again[i], home) == read_again(
                vault::vault_of(sections[i], home),
            ),
    ensures
        config::vaults_of(again, home) == all_read_again(config::vaults_of(sections, home)),
    decreases sections.len(),
{
    if sections.len() > 0 {
        let n = sections.len() - 1;
        let front = again.drop_last();
        assert forall|i: int| 0 <= i < n implies vault::vault_of(#[trigger] front[i], home)
            == read_again(vault::vault_of(sections.drop_last()[i], home)) by {
            assert(front[i] == again[i]);
        }
        lemma_all_read_again(sections.drop_last(), front, home);
        assert(again.last() == again[n]);
    }
}

proof fn lemma_unreturned_setting(st: SettingsView, line: Seq<char>, home: Option<Seq<char>>)
    ensures
        vault::with_line(st, text::without_return(line), home) == (match vault::with_line(
            st,
            line,
            home,
        ) {
            Ok(st) => Ok::<SettingsView, ProblemView>(st),
            Err(e) => Err(problem_again(e)),
        }),
{
    let bare = text::without_return(line);
    lemma_unreturned_line(line);
    if bare != line {
        text::lemma_place(line, '=', 0);
        text::lemma_place(bare, '=', 0);
        let p = text::place_of(line, '=', 0);
        let q = text::place_of(bare, '=', 0);
        assert(line =~= bare.push('\r'));
        if p < line.len() {
            assert(p < bare.len()) by {
                assert(line[line.len() - 1] == '\r');
            }
            assert(bare[p] == '=');
            assert(q == p) by {
                if q < p {
                    assert(line[q] == bare[q]);
                }
            }
            assert(bare.take(p) =~= line.take(p));
            assert(line.skip(p + 1) =~= bare.skip(p + 1).push('\r'));
            lines::lemma_white_end(bare.skip(p + 1), '\r');
        } else {
            assert(q == bare.len()) by {
                if q < bare.len() {
                    assert(line[q] == bare[q]);
                }
            }
        }
    }
}

proof fn lemma_unreturned_settings(lines: Seq<Seq<char>>, home: Option<Seq<char>>)
    ensures
        vault::settings_of(unreturned(lines), home) == (match vault::settings_of(lines, home) {
            Ok(st) => Ok::<SettingsView, ProblemView>(st),
            Err(e) => Err(problem_again(e)),
        }),
    decreases lines.len(),
{
    if lines.len() > 0 {
        let front = lines.drop_last();
        lemma_unreturned_settings(front, home);
        assert(unreturned(lines).drop_last() =~= unreturned(front));
        assert(unreturned(lines).last() == text::without_return(lines.last()));
        match vault::settings_of(front, home) {
            Ok(st) => {
                lemma_unreturned_setting(st, lines.last(), home);
            },
            Err(e) => {},
        }
    } else {
        assert(unreturned(lines) =~= lines);
    }
}

/// Some sections without the carriage returns at the ends of their lines.
spec fn unreturned_sections(sections: Seq<SectionView>) -> Seq<SectionView> {
    Seq::new(
        sections.len(),
        |i: int| SectionView { name: sections[i].name, lines: unreturned(sections[i].lines) },
    )
}

proof fn lemma_unreturned_lines(sections: Seq<SectionView>)
    ensures
        config::section_lines(unreturned_sections(sections)) == unreturned(
            config::section_lines(sections),
        ),
    decreases sections.len(),
{
    let bare = unreturned_sections(sections);
    if sections.len() > 0 {
        let front = sections.drop_last();
        let last = sections.last();
        lemma_unreturned_lines(front);
        lines::lemma_header_nonempty(last.name);
        assert(bare.drop_last() =~= unreturned_sections(front));
        assert(unreturned(config::section_lines(sections)) =~= unreturned(
            config::section_lines(front),
        ).push(config::header(last.name)) + unreturned(last.lines));
    } else {
        assert(unreturned(config::section_lines(sections)) =~= Seq::empty());
    }
}

proof fn lemma_unreturned_plain(lines: Seq<Seq<char>>)
    requires
        lines::plain_lines(lines),
    ensures
        lines::plain_lines(unreturned(lines)),
{
    assert forall|i: int| 0 <= i < lines.len() implies lines::plain_line(
        #[trigger] unreturned(lines)[i],
    ) by {
        assert(lines::plain_line(lines[i]));
        lemma_unreturned_line(lines[i]);
    }
}

/// Some lines without the empty ones at their end, but for the first line.
spec fn shortened(lines: Seq<Seq<char>>) -> Seq<Seq<char>>
    decreases lines.len(),
{
    if lines.len() >= 2 && lines.last().len() == 0 {
        shortened(lines.drop_last())
    } else {
        lines
    }
}

/// Some lines without any empty ones at their end.
spec fn stripped(lines: Seq<Seq<char>>) -> Seq<Seq<char>>
    decreases lines.len(),
{
    if lines.len() > 0 && lines.last().len() == 0 {
        stripped(lines.drop_last())
    } else {
        lines
    }
}

proof fn lemma_squeezed(lines: Seq<Seq<char>>)
    requires
        one_liners(lines),
    ensures
        config::squeezed(config::ended(lines)) == config::ended(shortened(lines)),
    decreases lines.len(),
{
    if lines.len() > 0 {
        let front = lines.drop_last();
        let last = lines.last();
        let s = config::ended(lines);
        assert(s == config::ended(front) + last.push('\n'));
        assert(s[s.len() - 1] == '\n');
        assert forall|k: int, i: int| 0 <= k < front.len() && 0 <= i < front[k].len() implies
            #[trigger] front[k][i] != '\n' by {
            assert(lines[k][i] != '\n');
        }
        if last.len() > 0 {
            assert(lines[lines.len() - 1][last.len() - 1] != '\n');
            assert(s[s.len() - 2] == last[last.len() - 1]);
        } else if front.len() > 0 {
            let t = config::ended(front);
            assert(t == config::ended(front.drop_last()) + front.last().push('\n'));
            assert(t[t.len() - 1] == '\n');
            assert(s.drop_last() =~= t);
            assert(s[s.len() - 2] == t[t.len() - 1]);
            lemma_squeezed(front);
        } else {
            assert(config::ended(front) == Seq::<char>::empty());
            assert(s.len() == 1);
        }
    }
}

/// Shortened twice is shortened once.
proof fn lemma_shortened_twice(lines: Seq<Seq<char>>)
    ensures
        shortened(shortened(lines)) == shortened(lines),
        shortened(lines).len() <= lines.len(),
        shortened(lines) == lines.take(shortened(lines).len() as int),
    decreases lines.len(),
{
    if lines.len() >= 2 && lines.last().len() == 0 {
        lemma_shortened_twice(lines.drop_last());
        let n = shortened(lines).len() as int;
        assert(lines.drop_last().take(n) =~= lines.take(n));
    } else {
        assert(lines.take(lines.len() as int) =~= lines);
    }
}

/// What stands behind a line that is not empty is stripped.
proof fn lemma_shortened_tail(front: Seq<Seq<char>>, head: Seq<char>, lines: Seq<Seq<char>>)
    requires
        head.len() > 0,
    ensures
        shortened(front.push(head) + lines) == front.push(head) + stripped(lines),
    decreases lines.len(),
{
    let all = front.push(head) + lines;
    if lines.len() == 0 {
        assert(all =~= front.push(head));
        assert(all.last() == head);
        assert(front.push(head) + stripped(lines) =~= all);
    } else {
        assert(all.last() == lines.last());
        if lines.last().len() == 0 {
            lemma_shortened_tail(front, head, lines.drop_last());
            assert(all.drop_last() =~= front.push(head) + lines.drop_last());
        }
    }
}

/// The registry without the empty lines at its end.
spec fn shorter(c: ConfigView) -> ConfigView {
    if c.sections.len() > 0 {
        let last = c.sections.last();
        ConfigView {
            sections: c.sections.drop_last().push(
                SectionView { lines: stripped(last.lines), ..last },
            ),
            ..c
        }
    } else {
        ConfigView { preamble: shortened(c.preamble), ..c }
    }
}

proof fn lemma_shorter_lines(c: ConfigView)
    ensures
        config::all_lines(shorter(c)) == shortened(config::all_lines(c)),
{
    if c.sections.len() > 0 {
        let front = c.sections.drop_last();
        let last = c.sections.last();
        let head = config::header(last.name);
        let before = c.preamble + config::section_lines(front);
        lines::lemma_header_nonempty(last.name);
        lemma_shortened_tail(before, head, last.lines);
        assert(config::all_lines(c) =~= before.push(head) + last.lines);
        let last2 = SectionView { lines: stripped(last.lines), ..last };
        assert(front.push(last2).drop_last() =~= front);
        assert(config::all_lines(shorter(c)) =~= before.push(head) + stripped(last.lines));
    } else {
        assert(config::all_lines(c) =~= c.preamble);
        assert(config::all_lines(shorter(c)) =~= shortened(c.preamble));
    }
}

/// The characters of an alias are no white space.
proof fn lemma_alias_chars(name: Seq<char>)
    requires
        vault::valid_alias(name),
    ensures
        text::trimmed(name) == name,
{
    assert(vault::alias_char(name[0]));
    assert(vault::alias_char(name[name.len() - 1]));
    lines::lemma_untrimmed(name);
}

/// Reading the header of a new section.
proof fn lemma_read_header(lines: Seq<Seq<char>>, read: Read, name: Seq<char>)
    requires
        config::read_lines(lines) == Ok::<Read, config::ParseErrorView>(read),
        vault::valid_alias(name),
        !config::has_section(read.sections, name),
    ensures
        config::read_lines(lines.push(config::header(name))) == Ok::<
            Read,
            config::ParseErrorView,
        >(
            Read {
                sections: read.sections.push(SectionView { name, lines: Seq::empty() }),
                ..read
            },
        ),
{
    let head = config::header(name);
    assert(lines.push(head).drop_last() =~= lines);
    lines::lemma_header_nonempty(name);
    lines::lemma_untrimmed(head);
    lemma_alias_chars(name);
}

/// Reading lines that open no section.
proof fn lemma_read_plain(lines: Seq<Seq<char>>, read: Read, more: Seq<Seq<char>>)
    requires
        config::read_lines(lines) == Ok::<Read, config::ParseErrorView>(read),
        lines::plain_lines(more),
    ensures
        config::read_lines(lines + more) == Ok::<Read, config::ParseErrorView>(
            if read.sections.len() > 0 {
                let last = read.sections.last();
                Read {
                    sections: read.sections.drop_last().push(
                        SectionView { lines: last.lines + more, ..last },
                    ),
                    ..read
                }
            } else {
                Read { preamble: read.preamble + more, ..read }
            },
        ),
    decreases more.len(),
{
    if more.len() == 0 {
        assert(lines + more =~= lines);
        if read.sections.len() > 0 {
            let last = read.sections.last();
            assert(last.lines + more =~= last.lines);
            assert(read.sections.drop_last().push(last) =~= read.sections);
        } else {
            assert(read.preamble + more =~= read.preamble);
        }
    } else {
        let front = more.drop_last();
        let raw = more.last();
        assert forall|i: int| 0 <= i < front.len() implies lines::plain_line(#[trigger] front[i]) by {
            assert(lines::plain_line(more[i]));
        }
        lemma_read_plain(lines, read, front);
        assert((lines + more).drop_last() =~= lines + front);
        assert((lines + more).last() == raw);
        assert(lines::plain_line(more[more.len() - 1]));
        if read.sections.len() > 0 {
            let last = read.sections.last();
            assert((last.lines + front).push(raw) =~= last.lines + more);
            let mid = read.sections.drop_last().push(
                SectionView { lines: last.lines + front, ..last },
            );
            assert(mid.drop_last() =~= read.sections.drop_last());
        } else {
            assert((read.preamble + front).push(raw) =~= read.preamble + more);
        }
    }
}

/// Reading what a well-formed registry holds.
proof fn lemma_read_all(preamble: Seq<Seq<char>>, sections: Seq<SectionView>)
    requires
        lines::plain_lines(preamble),
        form::sections_formed(sections),
    ensures
        config::read_lines(preamble + config::section_lines(sections)) == Ok::<
            Read,
            config::ParseErrorView,
        >(Read { preamble, sections }),
    decreases sections.len(),
{
    if sections.len() == 0 {
        let none = Seq::<Seq<char>>::empty();
        let read = Read { preamble: Seq::empty(), sections: Seq::empty() };
        lemma_read_plain(none, read, preamble);
        assert(none + preamble =~= preamble);
        assert(preamble + config::section_lines(sections) =~= preamble);
        assert(sections =~= Seq::empty());
    } else {
        let front = sections.drop_last();
        let last = sections.last();
        assert(last == sections[sections.len() - 1]);
        assert(form::names_distinct(front)) by {
            assert forall|i: int, j: int| 0 <= i < j < front.len() implies (
            #[trigger] front[i]).name != (#[trigger] front[j]).name by {
                assert(sections[i].name != sections[j].name);
            }
        }
        assert forall|i: int| 0 <= i < front.len() implies vault::valid_alias(
            (#[trigger] front[i]).name,
        ) && lines::plain_lines(front[i].lines) by {
            assert(vault::valid_alias(sections[i].name));
        }
        lemma_read_all(preamble, front);
        let before = preamble + config::section_lines(front);
        let read = Read { preamble, sections: front };
        config::lemma_section_place(front, last.name, 0);
        assert(!config::has_section(front, last.name)) by {
            let p = config::section_place(front, last.name, 0);
            if p < front.len() {
                assert(sections[p].name != sections[sections.len() - 1].name);
            }
        }
        lemma_read_header(before, read, last.name);
        let opened = SectionView { name: last.name, lines: Seq::empty() };
        lemma_read_plain(
            before.push(config::header(last.name)),
            Read { preamble, sections: front.push(opened) },
            last.lines,
        );
        assert(front.push(opened).drop_last() =~= front);
        assert(opened.lines + last.lines =~= last.lines);
        assert(front.push(last) =~= sections);
        assert(preamble + config::section_lines(sections) =~= before.push(
            config::header(last.name),
        ) + last.lines);
    }
}

proof fn lemma_stripped(lines: Seq<Seq<char>>, home: Option<Seq<char>>)
    ensures
        stripped(lines).len() <= lines.len(),
        stripped(lines) == lines.take(stripped(lines).len() as int),
        vault::settings_of(stripped(lines), home) == vault::settings_of(lines, home),
    decreases lines.len(),
{
    if lines.len() > 0 && lines.last().len() == 0 {
        lemma_stripped(lines.drop_last(), home);
        let n = stripped(lines).len() as int;
        assert(lines.drop_last().take(n) =~= lines.take(n));
        assert(lines.last() =~= Seq::empty());
        assert(lines.drop_last().push(Seq::empty()) =~= lines);
        lines::lemma_empty_line(lines.drop_last(), home);
    } else {
        assert(lines.take(lines.len() as int) =~= lines);
    }
}

proof fn lemma_all_one_liners(c: ConfigView)
    requires
        form::well_formed(c),
    ensures
        one_liners(config::all_lines(c)),
{
    lemma_sections_one_liners(c.sections);
    let all = config::all_lines(c);
    let tail = config::section_lines(c.sections);
    assert forall|k: int, i: int| 0 <= k < all.len() && 0 <= i < all[k].len() implies
        #[trigger] all[k][i] != '\n' by {
        if k < c.preamble.len() {
            assert(lines::plain_line(c.preamble[k]));
        } else {
            assert(all[k] == tail[k - c.preamble.len()]);
            assert(tail[k - c.preamble.len()][i] != '\n');
        }
    }
}

proof fn lemma_sections_one_liners(sections: Seq<SectionView>)
    requires
        form::sections_formed(sections),
    ensures
        one_liners(config::section_lines(sections)),
    decreases sections.len(),
{
    if sections.len() > 0 {
        let front = sections.drop_last();
        let last = sections.last();
        assert(last == sections[sections.len() - 1]);
        assert(form::names_distinct(front)) by {
            assert forall|i: int, j: int| 0 <= i < j < front.len() implies (
            #[trigger] front[i]).name != (#[trigger] front[j]).name by {
                assert(sections[i].name != sections[j].name);
            }
        }
        assert forall|i: int| 0 <= i < front.len() implies vault::valid_alias(
            (#[trigger] front[i]).name,
        ) && lines::plain_lines(front[i].lines) by {
            assert(vault::valid_alias(sections[i].name));
        }
        lemma_sections_one_liners(front);
        let head = config::header(last.name);
        let before = config::section_lines(front);
        let all = config::section_lines(sections);
        assert(all == before.push(head) + last.lines);
        lines::lemma_header_nonempty(last.name);
        assert forall|k: int, i: int| 0 <= k < all.len() && 0 <= i < all[k].len() implies
            #[trigger] all[k][i] != '\n' by {
            if k < before.len() {
                assert(all[k] == before[k]);
                assert(before[k][i] != '\n');
            } else if k == before.len() {
                assert(all[k] == head);
                if 0 < i < head.len() - 1 {
                    assert(head.subrange(1, last.name.len() as int + 1)[i - 1] == last.name[i - 1]);
                    assert(vault::alias_char(last.name[i - 1]));
                }
            } else {
                assert(all[k] == last.lines[k - before.len() - 1]);
                assert(lines::plain_line(last.lines[k - before.len() - 1]));
            }
        }
    }
}

/// The shorter registry is well formed too, and says the same.
proof fn lemma_shorter_formed(c: ConfigView, home: Option<Seq<char>>)
    requires
        form::well_formed(c),
    ensures
        form::well_formed(shorter(c)),
        shorter(c).sections.len() == c.sections.len(),
        forall|i: int|
            0 <= i < c.sections.len() ==> (#[trigger] shorter(c).sections[i]).name
                == c.sections[i].name && vault::vault_of(shorter(c).sections[i], home)
                == vault::vault_of(c.sections[i], home),
{
    let c2 = shorter(c);
    if c.sections.len() > 0 {
        let last = c.sections.last();
        assert(last == c.sections[c.sections.len() - 1]);
        lemma_stripped(last.lines, home);
        let n = stripped(last.lines).len() as int;
        assert(lines::plain_lines(stripped(last.lines))) by {
            assert forall|i: int| 0 <= i < n implies lines::plain_line(
                #[trigger] stripped(last.lines)[i],
            ) by {
                assert(lines::plain_line(last.lines[i]));
            }
        }
        assert forall|i: int, j: int| 0 <= i < j < c2.sections.len() implies (
        #[trigger] c2.sections[i]).name != (#[trigger] c2.sections[j]).name by {
            assert(c.sections[i].name != c.sections[j].name);
        }
        assert forall|i: int| 0 <= i < c2.sections.len() implies vault::valid_alias(
            (#[trigger] c2.sections[i]).name,
        ) && lines::plain_lines(c2.sections[i].lines) by {
            assert(vault::valid_alias(c.sections[i].name));
        }
    } else {
        lemma_shortened_twice(c.preamble);
        assert forall|i: int| 0 <= i < c2.preamble.len() implies lines::plain_line(
            #[trigger] c2.preamble[i],
        ) by {
            assert(lines::plain_line(c.preamble[i]));
        }
    }
}

/// What a written registry reads back as.
proof fn lemma_written(c: ConfigView, home: Option<Seq<char>>)
    requires
        form::well_formed(c),
    ensures
        config::parsed(c.path, config::text_of(c)) == Ok::<ConfigView, config::ParseErrorView>(
            ConfigView {
                path: c.path,
                preamble: unreturned(shorter(c).preamble),
                sections: unreturned_sections(shorter(c).sections),
            },
        ),
{
    let all = config::all_lines(c);
    let kept = shortened(all);
    let c2 = shorter(c);
    lemma_all_one_liners(c);
    lemma_squeezed(all);
    lemma_shortened_twice(all);
    lemma_shorter_lines(c);
    assert forall|k: int, i: int| 0 <= k < kept.len() && 0 <= i < kept[k].len() implies
        #[trigger] kept[k][i] != '\n' by {
        assert(all[k][i] != '\n');
    }
    lemma_lines_back(kept);
    lemma_shorter_formed(c, home);
    let sections = unreturned_sections(c2.sections);
    let preamble = unreturned(c2.preamble);
    lemma_unreturned_plain(c2.preamble);
    assert forall|i: int, j: int| 0 <= i < j < sections.len() implies (#[trigger] sections[i]).name
        != (#[trigger] sections[j]).name by {
        assert(c2.sections[i].name != c2.sections[j].name);
    }
    assert forall|i: int| 0 <= i < sections.len() implies vault::valid_alias(
        (#[trigger] sections[i]).name,
    ) && lines::plain_lines(sections[i].lines) by {
        assert(vault::valid_alias(c2.sections[i].name));
        lemma_unreturned_plain(c2.sections[i].lines);
    }
    lemma_read_all(preamble, sections);
    lemma_unreturned_lines(c2.sections);
    assert(preamble + config::section_lines(sections) =~= unreturned(kept));
}

/// A registry that was written reads back: the same sections, which say the
/// same vaults.
pub proof fn written_reads_back(c: ConfigView, home: Option<Seq<char>>)
    requires
        form::well_formed(c),
    ensures
        config::parsed(c.path, config::text_of(c)) is Ok,
        ({
            let again = config::parsed(c.path, config::text_of(c))->Ok_0;
            &&& again.sections.len() == c.sections.len()
            &&& forall|i: int|
                0 <= i < c.sections.len() ==> (#[trigger] again.sections[i]).name
                    == c.sections[i].name && vault::vault_of(again.sections[i], home)
                    == read_again(vault::vault_of(c.sections[i], home))
            &&& config::vaults_of(again.sections, home) == all_read_again(
                config::vaults_of(c.sections, home),
            )
        }),
{
    lemma_written(c, home);
    lemma_shorter_formed(c, home);
    let c2 = shorter(c);
    let sections = unreturned_sections(c2.sections);
    assert forall|i: int| 0 <= i < c.sections.len() implies (#[trigger] sections[i]).name
        == c.sections[i].name && vault::vault_of(sections[i], home) == read_again(
        vault::vault_of(c.sections[i], home),
    ) by {
        assert(c2.sections[i].name == c.sections[i].name);
        lemma_unreturned_settings(c2.sections[i].lines, home);
    }
    lemma_all_read_again(c.sections, sections, home);
}

/// A line that is quoted is one of the lines.
proof fn lemma_quoted_line(lines: Seq<Seq<char>>, home: Option<Seq<char>>)
    requires
        no_returns(lines),
    ensures
        vault::settings_of(lines, home) matches Err(e) ==> problem_again(e) == e,
    decreases lines.len(),
{
    if lines.len() > 0 {
        let front = lines.drop_last();
        assert forall|i: int| 0 <= i < front.len() implies no_return(#[trigger] front[i]) by {
            assert(front[i] == lines[i]);
        }
        lemma_quoted_line(front, home);
        assert(no_return(lines[lines.len() - 1]));
    }
}

proof fn lemma_quoted_section(sections: Seq<SectionView>, home: Option<Seq<char>>)
    requires
        forall|i: int| 0 <= i < sections.len() ==> no_returns((#[trigger] sections[i]).lines),
    ensures
        all_read_again(config::vaults_of(sections, home)) == config::vaults_of(sections, home),
    decreases sections.len(),
{
    if sections.len() > 0 {
        let front = sections.drop_last();
        assert forall|i: int| 0 <= i < front.len() implies no_returns(
            (#[trigger] front[i]).lines,
        ) by {
            assert(front[i] == sections[i]);
        }
        lemma_quoted_section(front, home);
        assert(no_returns(sections[sections.len() - 1].lines));
        lemma_quoted_line(sections.last().lines, home);
    }
}

/// Without carriage returns at the ends of lines, a registry that was written
/// and read holds the same vaults, or has the same error, and is written as the
/// same text again.
pub proof fn written_again(c: ConfigView, home: Option<Seq<char>>)
    requires
        form::well_formed(c),
        no_returns(config::all_lines(c)),
    ensures
        config::parsed(c.path, config::text_of(c)) is Ok,
        config::text_of(config::parsed(c.path, config::text_of(c))->Ok_0) == config::text_of(c),
        config::vaults_of(config::parsed(c.path, config::text_of(c))->Ok_0.sections, home)
            == config::vaults_of(c.sections, home),
{
    written_reads_back(c, home);
    assert forall|k: int| 0 <= k < c.sections.len() implies no_returns(
        (#[trigger] c.sections[k]).lines,
    ) by {
        let some = c.sections[k].lines;
        assert forall|i: int| 0 <= i < some.len() implies no_return(#[trigger] some[i]) by {
            lines::lemma_line_of_section(c.sections, k, some[i]);
            lines::lemma_line_of_all(c, some[i]);
            let all = config::all_lines(c);
            let j = choose|j: int| 0 <= j < all.len() && all[j] == some[i];
            assert(no_return(all[j]));
        }
    }
    lemma_quoted_section(c.sections, home);
    let all = config::all_lines(c);
    let kept = shortened(all);
    lemma_written(c, home);
    lemma_all_one_liners(c);
    lemma_squeezed(all);
    lemma_shortened_twice(all);
    lemma_shorter_lines(c);
    lemma_unreturned_lines(shorter(c).sections);
    let again = config::parsed(c.path, config::text_of(c))->Ok_0;
    assert(unreturned(kept) =~= kept) by {
        assert forall|i: int| 0 <= i < kept.len() implies #[trigger] unreturned(kept)[i]
            == kept[i] by {
            assert(kept[i] == all[i]);
        }
    }
    assert(config::all_lines(again) =~= unreturned(kept));
    assert forall|k: int, i: int| 0 <= k < kept.len() && 0 <= i < kept[k].len() implies
        #[trigger] kept[k][i] != '\n' by {
        assert(all[k][i] != '\n');
    }
    lemma_squeezed(kept);
}

/// A vault that was registered is found when the registry was written and is
/// read again, with every value as it was given.
pub proof fn registered_survives_writing(c: ConfigView, v: VaultView, home: Option<Seq<char>>)
    requires
        form::well_formed(c),
        rendered::storable(v, home),
    ensures
        config::parsed(c.path, config::text_of(config::upserted(c, v))) is Ok,
        config::vault_named(
            config::parsed(c.path, config::text_of(config::upserted(c, v)))->Ok_0,
            v.alias,
            home,
        ) == Ok::<Option<VaultView>, VaultErrorView>(Some(v)),
{
    let c2 = config::upserted(c, v);
    form::registering_keeps_form(c, v);
    register::registered_is_found(c, v, home);
    written_reads_back(c2, home);
    let again = config::parsed(c2.path, config::text_of(c2))->Ok_0;
    config::lemma_section_place(c2.sections, v.alias, 0);
    let i = config::section_place(c2.sections, v.alias, 0);
    assert forall|k: int| 0 <= k < i implies (#[trigger] again.sections[k]).name != v.alias by {
        assert(c2.sections[k].name != v.alias);
    }
    assert(again.sections[i].name == c2.sections[i].name);
    register::lemma_place_is(again.sections, v.alias, 0, i);
}

/// A line that opens a section, and does it plainly: nothing but the name in
/// its brackets.
pub open spec fn plain_header(line: Seq<char>) -> bool {
    line == config::header(text::trimmed(line.subrange(1, line.len() - 1)))
}

/// All lines that open a section do it plainly.
pub open spec fn plain_headers(lines: Seq<Seq<char>>) -> bool {
    forall|k: int|
        0 <= k < lines.len() && text::trimmed(#[trigger] lines[k]).len() > 0 && text::trimmed(
            lines[k],
        ).first() == '[' ==> plain_header(lines[k])
}

/// A text that ends with a line feed, added where it is missing.
pub open spec fn fed(s: Seq<char>) -> Seq<char> {
    if s.len() == 0 || s.last() == '\n' {
        s
    } else {
        s.push('\n')
    }
}

/// No line feed with a carriage return before it.
pub open spec fn no_pairs(s: Seq<char>) -> bool {
    forall|i: int| 0 < i < s.len() && #[trigger] s[i] == '\n' ==> s[i - 1] != '\r'
}

/// Lines that were read are all in the registry.
proof fn lemma_all_read(lines: Seq<Seq<char>>)
    requires
        config::read_lines(lines) is Ok,
        plain_headers(lines),
    ensures
        ({
            let read = config::read_lines(lines)->Ok_0;
            read.preamble + config::section_lines(read.sections) == lines
        }),
    decreases lines.len(),
{
    if lines.len() == 0 {
        let read = config::read_lines(lines)->Ok_0;
        assert(read.preamble + config::section_lines(read.sections) =~= lines);
    } else {
        let front = lines.drop_last();
        let raw = lines.last();
        assert(raw == lines[lines.len() - 1]);
        assert forall|k: int|
            0 <= k < front.len() && text::trimmed(#[trigger] front[k]).len() > 0 && text::trimmed(
                front[k],
            ).first() == '[' implies plain_header(front[k]) by {
            assert(front[k] == lines[k]);
        }
        lemma_all_read(front);
        let read = config::read_lines(front)->Ok_0;
        let all = config::read_lines(lines)->Ok_0;
        let before = config::section_lines(read.sections);
        let after = config::section_lines(all.sections);
        let line = text::trimmed(raw);
        if line.len() > 0 && line.first() == '[' {
            let name = text::trimmed(raw.subrange(1, raw.len() - 1));
            lines::lemma_header_nonempty(name);
            lines::lemma_untrimmed(raw);
            let opened = SectionView { name, lines: Seq::empty() };
            assert(all.sections == read.sections.push(opened));
            assert(all.sections.drop_last() =~= read.sections);
            assert(after =~= before.push(raw));
        } else if read.sections.len() > 0 {
            assert(all.sections.drop_last() =~= read.sections.drop_last());
            assert(after =~= before.push(raw));
        } else {
            assert(all.preamble == read.preamble.push(raw));
            assert(before =~= Seq::empty());
            assert(after =~= Seq::empty());
        }
        assert(all.preamble + after =~= (read.preamble + before).push(raw));
        assert(front.push(raw) =~= lines);
    }
}

/// Lines of a text, written out.
proof fn lemma_text_back(s: Seq<char>)
    requires
        no_pairs(s),
    ensures
        config::ended(text::lines(s)) == fed(s),
    decreases s.len(),
{
    let none = Seq::<Seq<char>>::empty();
    assert(config::ended(none) == Seq::<char>::empty());
    if s.len() == 0 {
        assert(fed(s) =~= Seq::empty());
    } else {
        text::lemma_place(s, '\n', 0);
        let p = text::place_of(s, '\n', 0);
        if p < s.len() {
            let first = s.take(p);
            let rest = s.skip(p + 1);
            assert(text::without_return(first) == first) by {
                if p > 0 {
                    assert(s[p] == '\n');
                    assert(first.last() == s[p - 1]);
                }
            }
            assert forall|i: int| 0 < i < rest.len() && #[trigger] rest[i] == '\n' implies rest[i
                - 1] != '\r' by {
                assert(s[i + p + 1] == '\n');
            }
            lemma_text_back(rest);
            lemma_ended_front(first, text::lines(rest));
            assert(first.push('\n') + rest =~= s);
            assert(first.push('\n') + fed(rest) =~= fed(s));
        } else {
            lemma_ended_front(s, none);
            assert(seq![s] + none =~= seq![s]);
            assert(s.last() == s[s.len() - 1]);
            assert(config::ended(seq![s]) =~= s.push('\n'));
        }
    }
}

/// A text whose headers are plain is kept as it is, letter by letter, when it
/// is read and written, but for its end: the line feeds there become one.
pub proof fn text_is_kept(path: Seq<char>, s: Seq<char>)
    requires
        config::parsed(path, s) is Ok,
        plain_headers(text::lines(s)),
        no_pairs(s),
    ensures
        config::text_of(config::parsed(path, s)->Ok_0) == config::squeezed(fed(s)),
{
    lemma_all_read(text::lines(s));
    lemma_text_back(s);
}

} // verus!
