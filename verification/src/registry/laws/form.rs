//! What every registry holds to that was read, and what keeps it so.
use vstd::prelude::*;

use crate::registry::config::ConfigView;
use crate::registry::config;
use crate::registry::laws::{lines, rendered, remove};
use crate::registry::vault::{SectionView, VaultView};
use crate::registry::vault;
use crate::text;

verus! {

/// No two sections of one name.
pub open spec fn names_distinct(sections: Seq<SectionView>) -> bool {
    forall|i: int, j: int|
        0 <= i < j < sections.len() ==> (#[trigger] sections[i]).name != (
        #[trigger] sections[j]).name
}

/// What every registry that was read holds to.
pub open spec fn well_formed(c: ConfigView) -> bool {
    &&& lines::plain_lines(c.preamble)
    &&& sections_formed(c.sections)
}

pub open spec fn sections_formed(sections: Seq<SectionView>) -> bool {
    &&& names_distinct(sections)
    &&& forall|i: int|
        0 <= i < sections.len() ==> vault::valid_alias((#[trigger] sections[i]).name)
            && lines::plain_lines(sections[i].lines)
}

/// The lines of a text hold no line feed.
proof fn lemma_lines_plain(s: Seq<char>)
    ensures
        forall|k: int, i: int|
            0 <= k < text::lines(s).len() && 0 <= i < text::lines(s)[k].len()
                ==> #[trigger] text::lines(s)[k][i] != '\n',
    decreases s.len(),
{
    if s.len() > 0 {
        let p = text::place_of(s, '\n', 0);
        text::lemma_place(s, '\n', 0);
        if p < s.len() {
            lemma_lines_plain(s.skip(p + 1));
            let all = text::lines(s);
            let rest = text::lines(s.skip(p + 1));
            assert(all == seq![text::without_return(s.take(p))] + rest);
            assert forall|k: int, i: int| 0 <= k < all.len() && 0 <= i < all[k].len() implies
                #[trigger] all[k][i] != '\n' by {
                if k > 0 {
                    assert(all[k] == rest[k - 1]);
                    assert(rest[k - 1][i] != '\n');
                }
            }
        }
    }
}

proof fn lemma_read_formed(lines: Seq<Seq<char>>)
    requires
        config::read_lines(lines) is Ok,
        forall|k: int, i: int|
            0 <= k < lines.len() && 0 <= i < lines[k].len() ==> #[trigger] lines[k][i] != '\n',
    ensures
        lines::plain_lines(config::read_lines(lines)->Ok_0.preamble),
        sections_formed(config::read_lines(lines)->Ok_0.sections),
    decreases lines.len(),
{
    if lines.len() > 0 {
        let front = lines.drop_last();
        let raw = lines.last();
        assert forall|k: int, i: int| 0 <= k < front.len() && 0 <= i < front[k].len() implies
            #[trigger] front[k][i] != '\n' by {
            assert(lines[k][i] != '\n');
        }
        lemma_read_formed(front);
        let read = config::read_lines(front)->Ok_0;
        let read2 = config::read_lines(lines)->Ok_0;
        let line = text::trimmed(raw);
        assert forall|i: int| 0 <= i < raw.len() implies #[trigger] raw[i] != '\n' by {
            assert(lines[lines.len() - 1][i] != '\n');
        }
        if line.len() > 0 && line.first() == '[' {
            let name = text::trimmed(line.subrange(1, line.len() - 1));
            config::lemma_section_place(read.sections, name, 0);
        } else if read.sections.len() > 0 {
            let last = read.sections.last();
            assert(last == read.sections[read.sections.len() - 1]);
            assert(lines::plain_lines(last.lines.push(raw)));
            assert forall|i: int, j: int| 0 <= i < j < read2.sections.len() implies (
            #[trigger] read2.sections[i]).name != (#[trigger] read2.sections[j]).name by {
                assert(read.sections[i].name != read.sections[j].name);
            }
            assert forall|i: int| 0 <= i < read2.sections.len() implies vault::valid_alias(
                (#[trigger] read2.sections[i]).name,
            ) && lines::plain_lines(read2.sections[i].lines) by {
                assert(vault::valid_alias(read.sections[i].name));
            }
        }
    }
}

/// A registry that was read has sections of distinct, valid names, and no line
/// in it opens a section but the headers.
pub proof fn read_is_well_formed(path: Seq<char>, s: Seq<char>)
    requires
        config::parsed(path, s) is Ok,
    ensures
        well_formed(config::parsed(path, s)->Ok_0),
{
    lemma_lines_plain(s);
    lemma_read_formed(text::lines(s));
}

/// Registering a vault keeps the registry well formed.
pub proof fn registering_keeps_form(c: ConfigView, v: VaultView)
    requires
        well_formed(c),
        rendered::one_line_each(v),
    ensures
        well_formed(config::upserted(c, v)),
{
    let c2 = config::upserted(c, v);
    let i = config::section_place(c.sections, v.alias, 0);
    config::lemma_section_place(c.sections, v.alias, 0);
    rendered::lemma_rendered_plain(v);
    lines::lemma_empty_is_blank();
    let lines = vault::rendered(v);
    if i < c.sections.len() {
        let old = c.sections[i].lines;
        let kept = vault::kept_behind(old);
        lines::lemma_kept_behind(old);
        assert(lines::plain_lines(old));
        lines::lemma_plain_from(old, kept);
        assert forall|k: int| 0 <= k < (lines + kept).len() implies lines::plain_line(
            #[trigger] (lines + kept)[k],
        ) by {
            if k < lines.len() {
                assert(lines::plain_line(lines[k]));
            } else {
                assert(lines::plain_line(kept[k - lines.len()]));
            }
        }
        assert forall|a: int, b: int| 0 <= a < b < c2.sections.len() implies (
        #[trigger] c2.sections[a]).name != (#[trigger] c2.sections[b]).name by {
            assert(c.sections[a].name != c.sections[b].name);
        }
        assert forall|a: int| 0 <= a < c2.sections.len() implies vault::valid_alias(
            (#[trigger] c2.sections[a]).name,
        ) && lines::plain_lines(c2.sections[a].lines) by {
            assert(vault::valid_alias(c.sections[a].name));
        }
    } else {
        let n = c.sections.len();
        assert forall|a: int, b: int| 0 <= a < b < c2.sections.len() implies (
        #[trigger] c2.sections[a]).name != (#[trigger] c2.sections[b]).name by {
            assert(c2.sections[a].name == c.sections[a].name);
            if b < n {
                assert(c2.sections[b].name == c.sections[b].name);
                assert(c.sections[a].name != c.sections[b].name);
            } else {
                assert(c.sections[a].name != v.alias);
            }
        }
        assert forall|a: int| 0 <= a < c2.sections.len() implies vault::valid_alias(
            (#[trigger] c2.sections[a]).name,
        ) && lines::plain_lines(c2.sections[a].lines) by {
            if a < n {
                assert(vault::valid_alias(c.sections[a].name));
                assert(lines::plain_lines(c.sections[a].lines));
            }
        }
    }
}

/// So does removing one.
pub proof fn removing_keeps_form(c: ConfigView, alias: Seq<char>)
    requires
        well_formed(c),
    ensures
        well_formed(config::removed(c, alias)),
{
    remove::lemma_without(c.preamble, c.sections, alias);
    lemma_without_plain(c.preamble, c.sections, alias);
    let kept = config::others(c.sections, alias);
    let rest = config::removed(c, alias).sections;
    lemma_others_formed(c.sections, alias);
    assert forall|i: int, j: int| 0 <= i < j < rest.len() implies (#[trigger] rest[i]).name != (
    #[trigger] rest[j]).name by {
        assert(rest[i].name == kept[i].name);
        assert(rest[j].name == kept[j].name);
    }
    assert forall|i: int| 0 <= i < rest.len() implies vault::valid_alias((#[trigger] rest[i]).name)
        && lines::plain_lines(rest[i].lines) by {
        assert(rest[i].name == kept[i].name);
        assert(vault::valid_alias(kept[i].name));
    }
}

proof fn lemma_without_plain(
    preamble: Seq<Seq<char>>,
    sections: Seq<SectionView>,
    alias: Seq<char>,
)
    requires
        lines::plain_lines(preamble),
        forall|i: int| 0 <= i < sections.len() ==> lines::plain_lines((#[trigger] sections[i]).lines),
    ensures
        ({
            let rest = config::without(preamble, sections, alias);
            &&& lines::plain_lines(rest.preamble)
            &&& forall|i: int|
                0 <= i < rest.sections.len() ==> lines::plain_lines((#[trigger] rest.sections[i]).lines)
        }),
    decreases sections.len(),
{
    if sections.len() > 0 {
        let front = sections.drop_last();
        let last = sections.last();
        assert(lines::plain_lines(sections[sections.len() - 1].lines));
        assert forall|i: int| 0 <= i < front.len() implies lines::plain_lines(
            (#[trigger] front[i]).lines,
        ) by {
            assert(lines::plain_lines(sections[i].lines));
        }
        lemma_without_plain(preamble, front, alias);
        let rest = config::without(preamble, front, alias);
        let all = config::without(preamble, sections, alias);
        if last.name == alias {
            let more = vault::left_of(last.lines);
            lines::lemma_left(last.lines);
            lines::lemma_plain_from(last.lines, more);
            if rest.sections.len() > 0 {
                let old = rest.sections.last().lines;
                assert(lines::plain_lines(rest.sections[rest.sections.len() - 1].lines));
                lines::lemma_plain_both(old, more);
            } else {
                lines::lemma_plain_both(rest.preamble, more);
            }
        }
        assert forall|i: int| 0 <= i < all.sections.len() implies lines::plain_lines(
            (#[trigger] all.sections[i]).lines,
        ) by {
            if i < rest.sections.len() {
                assert(lines::plain_lines(rest.sections[i].lines));
            }
        }
    }
}

/// The other sections are formed as all of them are.
proof fn lemma_others_formed(sections: Seq<SectionView>, alias: Seq<char>)
    requires
        sections_formed(sections),
    ensures
        sections_formed(config::others(sections, alias)),
    decreases sections.len(),
{
    if sections.len() > 0 {
        let front = sections.drop_last();
        let last = sections.last();
        assert(last == sections[sections.len() - 1]);
        assert forall|i: int, j: int| 0 <= i < j < front.len() implies (#[trigger] front[i]).name
            != (#[trigger] front[j]).name by {
            assert(sections[i].name != sections[j].name);
        }
        assert forall|i: int| 0 <= i < front.len() implies vault::valid_alias(
            (#[trigger] front[i]).name,
        ) && lines::plain_lines(front[i].lines) by {
            assert(vault::valid_alias(sections[i].name));
        }
        lemma_others_formed(front, alias);
        let rest = config::others(front, alias);
        assert forall|i: int| 0 <= i < rest.len() implies (#[trigger] rest[i]).name != last.name by {
            lemma_others_from(front, alias, i);
            let k = choose|k: int| 0 <= k < front.len() && front[k] == rest[i];
            assert(sections[k].name != sections[sections.len() - 1].name);
        }
    }
}

/// What is left was there before.
proof fn lemma_others_from(sections: Seq<SectionView>, alias: Seq<char>, i: int)
    requires
        0 <= i < config::others(sections, alias).len(),
    ensures
        exists|k: int|
            0 <= k < sections.len() && #[trigger] sections[k] == config::others(sections, alias)[i],
    decreases sections.len(),
{
    let front = sections.drop_last();
    let rest = config::others(front, alias);
    if i < rest.len() {
        lemma_others_from(front, alias, i);
        let k = choose|k: int| 0 <= k < front.len() && #[trigger] front[k] == rest[i];
        assert(sections[k] == rest[i]);
    } else {
        assert(sections[sections.len() - 1] == config::others(sections, alias)[i]);
    }
}

/// A registry that is started afresh is well formed.
pub proof fn fresh_is_well_formed(path: Seq<char>)
    ensures
        well_formed(config::empty_registry(path)),
{
    let header = config::DEFAULT_HEADER@;
    let lines = text::lines(header);
    assert forall|i: int| 0 <= i < header.len() implies #[trigger] header[i] != '[' by {
        reveal_strlit(
            "# coffer vault registry - maintained by `coffer add` / `coffer remove`,\n# shown by `coffer list`. One section per vault; the section name is the\n# alias for `coffer mount <alias>`. Safe to edit by hand: comments on their\n# own line are kept, `~` at the start of a path means $HOME.",
        );
    }
    lemma_lines_plain(header);
    lemma_lines_without(header, '[');
    assert forall|k: int| 0 <= k < lines.len() implies lines::plain_line(#[trigger] lines[k]) by {
        let t = text::trimmed(lines[k]);
        if t.len() > 0 && t.first() == '[' {
            lemma_trimmed_from(lines[k]);
            let i = choose|i: int| 0 <= i < lines[k].len() && lines[k][i] == t[0];
            assert(lines[k][i] != '[');
        }
        assert forall|i: int| 0 <= i < lines[k].len() implies #[trigger] lines[k][i] != '\n' by {}
    }
    lines::lemma_empty_is_blank();
}

/// A character that a text does not hold stands in none of its lines.
pub(crate) proof fn lemma_lines_without(s: Seq<char>, c: char)
    requires
        forall|i: int| 0 <= i < s.len() ==> #[trigger] s[i] != c,
    ensures
        forall|k: int, i: int|
            0 <= k < text::lines(s).len() && 0 <= i < text::lines(s)[k].len()
                ==> #[trigger] text::lines(s)[k][i] != c,
    decreases s.len(),
{
    if s.len() > 0 {
        let p = text::place_of(s, '\n', 0);
        text::lemma_place(s, '\n', 0);
        if p < s.len() {
            let tail = s.skip(p + 1);
            assert forall|i: int| 0 <= i < tail.len() implies #[trigger] tail[i] != c by {
                assert(s[p + 1 + i] != c);
            }
            lemma_lines_without(tail, c);
            let all = text::lines(s);
            let rest = text::lines(tail);
            assert(all == seq![text::without_return(s.take(p))] + rest);
            assert forall|k: int, i: int| 0 <= k < all.len() && 0 <= i < all[k].len() implies
                #[trigger] all[k][i] != c by {
                if k > 0 {
                    assert(all[k] == rest[k - 1]);
                    assert(rest[k - 1][i] != c);
                } else {
                    assert(all[0][i] == s[i]);
                }
            }
        }
    }
}

/// The first character of a trimmed text stands in the text.
proof fn lemma_trimmed_from(s: Seq<char>)
    requires
        text::trimmed(s).len() > 0,
    ensures
        exists|i: int| 0 <= i < s.len() && #[trigger] s[i] == text::trimmed(s)[0],
{
    lemma_start_from(s);
    let t = text::trimmed_start(s);
    lines::lemma_end_prefix(t);
    let i = choose|i: int| 0 <= i <= s.len() && t == s.skip(i);
    assert(s[i] == t[0]);
}

proof fn lemma_start_from(s: Seq<char>)
    ensures
        exists|i: int| 0 <= i <= s.len() && text::trimmed_start(s) == #[trigger] s.skip(i),
    decreases s.len(),
{
    if s.len() > 0 && text::white(s.first()) {
        let rest = s.drop_first();
        lemma_start_from(rest);
        let i = choose|i: int| 0 <= i <= rest.len() && text::trimmed_start(rest) == rest.skip(i);
        assert(rest.skip(i) =~= s.skip(i + 1));
    } else {
        assert(s.skip(0) =~= s);
    }
}

} // verus!
