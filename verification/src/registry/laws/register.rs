//! What registering a vault does, and what it leaves alone.
use vstd::prelude::*;

use crate::registry::config::ConfigView;
use crate::registry::config;
use crate::registry::laws::{lines, rendered};
use crate::registry::vault::{SectionView, VaultErrorView, VaultView};
use crate::registry::vault;
use crate::text;

verus! {

/// A vault that was registered is found under its alias, with every value as
/// it was given.
pub proof fn registered_is_found(c: ConfigView, v: VaultView, home: Option<Seq<char>>)
    requires
        rendered::storable(v, home),
    ensures
        config::vault_named(config::upserted(c, v), v.alias, home) == Ok::<
            Option<VaultView>,
            VaultErrorView,
        >(Some(v)),
{
    let i = config::section_place(c.sections, v.alias, 0);
    let c2 = config::upserted(c, v);
    config::lemma_section_place(c.sections, v.alias, 0);
    config::lemma_section_place(c2.sections, v.alias, 0);
    rendered::rendered_reads_back(v, home);
    let j = config::section_place(c2.sections, v.alias, 0);
    if i < c.sections.len() {
        lines::lemma_kept_behind(c.sections[i].lines);
        lines::lemma_comments(vault::rendered(v), vault::kept_behind(c.sections[i].lines), home);
        assert(c2.sections[i].name == v.alias);
        if j < i {
            assert(c.sections[j].name != v.alias);
        }
        assert(j == i);
    } else {
        let n = c2.sections.len() - 1;
        assert(c2.sections[n].name == v.alias);
        if j < n {
            assert(c2.sections[j].name == c.sections[j].name);
        }
        assert(j == n);
    }
}

/// A place that does not move.
pub(crate) proof fn lemma_place_is(sections: Seq<SectionView>, name: Seq<char>, from: int, i: int)
    requires
        0 <= from <= i <= sections.len(),
        forall|k: int| from <= k < i ==> (#[trigger] sections[k]).name != name,
        i < sections.len() ==> sections[i].name == name,
    ensures
        config::section_place(sections, name, from) == i,
    decreases i - from,
{
    if from < i {
        lemma_place_is(sections, name, from + 1, i);
    }
}

/// Registering a vault changes no other.
pub proof fn registering_keeps_others(
    c: ConfigView,
    v: VaultView,
    other: Seq<char>,
    home: Option<Seq<char>>,
)
    requires
        other != v.alias,
    ensures
        config::vault_named(config::upserted(c, v), other, home) == config::vault_named(
            c,
            other,
            home,
        ),
{
    let i = config::section_place(c.sections, v.alias, 0);
    let j = config::section_place(c.sections, other, 0);
    let c2 = config::upserted(c, v);
    config::lemma_section_place(c.sections, v.alias, 0);
    config::lemma_section_place(c.sections, other, 0);
    let place = if j < c.sections.len() {
        j
    } else {
        c2.sections.len() as int
    };
    assert forall|k: int| 0 <= k < place implies (#[trigger] c2.sections[k]).name != other by {
        if k < c.sections.len() {
            assert(c.sections[k].name != other);
        }
    }
    lemma_place_is(c2.sections, other, 0, place);
    if j < c.sections.len() {
        let last = c.sections.last();
        if i >= c.sections.len() && j == c.sections.len() - 1 {
            lines::lemma_empty_line(last.lines, home);
        }
    }
}

/// Every line of another section stays where it was: at most, a blank line is
/// put behind the section that used to be the last.
pub proof fn registering_keeps_lines(c: ConfigView, v: VaultView, k: int)
    requires
        0 <= k < c.sections.len(),
        c.sections[k].name != v.alias,
    ensures
        ({
            let after = config::upserted(c, v);
            &&& k < after.sections.len()
            &&& after.sections[k].name == c.sections[k].name
            &&& after.sections[k].lines == c.sections[k].lines || after.sections[k].lines
                == c.sections[k].lines.push(Seq::empty())
            &&& c.sections.len() > 0 ==> after.preamble == c.preamble
        }),
{
    config::lemma_section_place(c.sections, v.alias, 0);
}

/// Registering a vault keeps every comment, but for those that stand before a
/// setting of the section that is written anew.
pub proof fn registering_keeps_comments(c: ConfigView, v: VaultView, line: Seq<char>)
    requires
        vault::note(line),
        ({
            let i = config::section_place(c.sections, v.alias, 0);
            ||| c.preamble.contains(line)
            ||| exists|k: int|
                0 <= k < c.sections.len() && k != i && (#[trigger] c.sections[k]).lines.contains(
                    line,
                )
            ||| i < c.sections.len() && vault::behind_settings(c.sections[i].lines).contains(line)
        }),
    ensures
        config::all_lines(config::upserted(c, v)).contains(line),
{
    let i = config::section_place(c.sections, v.alias, 0);
    config::lemma_section_place(c.sections, v.alias, 0);
    let c2 = config::upserted(c, v);
    lines::lemma_line_of_all(c2, line);
    if c.preamble.contains(line) {
        let j = choose|j: int| 0 <= j < c.preamble.len() && c.preamble[j] == line;
        assert(c2.preamble[j] == line);
    } else if exists|k: int|
        0 <= k < c.sections.len() && k != i && (#[trigger] c.sections[k]).lines.contains(line) {
        let k = choose|k: int|
            0 <= k < c.sections.len() && k != i && (#[trigger] c.sections[k]).lines.contains(line);
        let j = choose|j: int| 0 <= j < c.sections[k].lines.len() && c.sections[k].lines[j] == line;
        assert(c2.sections[k].lines[j] == line);
        lines::lemma_line_of_section(c2.sections, k, line);
    } else {
        let old = c.sections[i].lines;
        lines::lemma_note_behind(old, line);
        let b = vault::behind_settings(vault::unblanked(old));
        let j = choose|j: int| 0 <= j < b.len() && b[j] == line;
        let lines = vault::rendered(v) + vault::kept_behind(old);
        assert(lines[vault::rendered(v).len() + j] == line);
        assert(c2.sections[i].lines == lines);
        lines::lemma_line_of_section(c2.sections, i, line);
    }
}

/// Registering a vault puts no line into the registry that was not there, but
/// for its header, the lines that describe it and empty ones.
pub proof fn registering_adds_only_the_vault(c: ConfigView, v: VaultView, line: Seq<char>)
    requires
        config::all_lines(config::upserted(c, v)).contains(line),
        line.len() > 0,
    ensures
        config::all_lines(c).contains(line) || line == config::header(v.alias)
            || vault::rendered(v).contains(line),
{
    let i = config::section_place(c.sections, v.alias, 0);
    config::lemma_section_place(c.sections, v.alias, 0);
    let c2 = config::upserted(c, v);
    let n = c.sections.len();
    lines::lemma_line_of_all(c2, line);
    lines::lemma_line_of_all(c, line);
    if c2.preamble.contains(line) {
        let j = choose|j: int| 0 <= j < c2.preamble.len() && c2.preamble[j] == line;
        assert(c.preamble[j] == line);
    } else {
        let k = lines::lemma_section_of_line(c2.sections, line);
        if k < n {
            lines::lemma_header_of_section(c.sections, k);
            assert(c2.sections[k].name == c.sections[k].name);
            let old = c.sections[k].lines;
            let new = c2.sections[k].lines;
            if new.contains(line) {
                let j = choose|j: int| 0 <= j < new.len() && new[j] == line;
                if k == i {
                    let r = vault::rendered(v);
                    lines::lemma_kept_behind(old);
                    if j < r.len() {
                        assert(r[j] == line);
                    } else {
                        assert(vault::kept_behind(old)[j - r.len()] == line);
                        lines::lemma_line_of_section(c.sections, k, line);
                    }
                } else {
                    assert(old[j] == line);
                    lines::lemma_line_of_section(c.sections, k, line);
                }
            }
        }
    }
}

/// Registering the same vault again changes nothing.
pub proof fn registering_twice(c: ConfigView, v: VaultView)
    ensures
        config::upserted(config::upserted(c, v), v) == config::upserted(c, v),
{
    rendered::lemma_rendered_ends(v);
    let c1 = config::upserted(c, v);
    let i = config::section_place(c.sections, v.alias, 0);
    config::lemma_section_place(c.sections, v.alias, 0);
    assert(text::trimmed(Seq::empty()) == Seq::<char>::empty());
    if i < c.sections.len() {
        assert forall|k: int| 0 <= k < i implies (#[trigger] c1.sections[k]).name != v.alias by {
            assert(c.sections[k].name != v.alias);
        }
        lemma_place_is(c1.sections, v.alias, 0, i);
        lines::lemma_kept_twice(vault::rendered(v), c.sections[i].lines);
        assert(config::upserted(c1, v).sections =~= c1.sections);
    } else {
        let n = c1.sections.len() - 1;
        assert forall|k: int| 0 <= k < n implies (#[trigger] c1.sections[k]).name != v.alias by {
            assert(c.sections[k].name != v.alias);
        }
        lemma_place_is(c1.sections, v.alias, 0, n);
        let r = vault::rendered(v);
        assert(vault::unblanked(r) == r);
        assert(vault::kept_behind(r) =~= Seq::empty());
        assert(r + vault::kept_behind(r) =~= r);
        assert(config::upserted(c1, v).sections =~= c1.sections);
    }
}

} // verus!
