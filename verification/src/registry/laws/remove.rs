//! What removing a vault does, and what it leaves alone.
use vstd::prelude::*;

use crate::registry::config::{ConfigView, Read};
use crate::registry::config;
use crate::registry::laws::{lines, register};
use crate::registry::vault::{SectionView, VaultErrorView, VaultView};
use crate::registry::vault;

verus! {

proof fn lemma_extended_more(old: Seq<Seq<char>>, new: Seq<Seq<char>>, more: Seq<Seq<char>>)
    requires
        config::extended(old, new),
        lines::all_comments(more),
    ensures
        config::extended(old, new + more),
{
    let all = new + more;
    assert forall|i: int| old.len() <= i < all.len() implies vault::comment(#[trigger] all[i]) by {
        if i < new.len() {
            assert(all[i] == new[i]);
        } else {
            assert(all[i] == more[i - new.len()]);
        }
    }
    assert(all.subrange(0, old.len() as int) =~= new.subrange(0, old.len() as int));
}

/// What is left without the sections of a name: all others, in their order,
/// and comments behind them.
pub(crate) proof fn lemma_without(
    preamble: Seq<Seq<char>>,
    sections: Seq<SectionView>,
    alias: Seq<char>,
)
    ensures
        ({
            let rest = config::without(preamble, sections, alias);
            let kept = config::others(sections, alias);
            &&& config::extended(preamble, rest.preamble)
            &&& rest.sections.len() == kept.len()
            &&& forall|i: int|
                0 <= i < kept.len() ==> (#[trigger] rest.sections[i]).name == kept[i].name
                    && config::extended(kept[i].lines, rest.sections[i].lines)
        }),
    decreases sections.len(),
{
    if sections.len() > 0 {
        let front = sections.drop_last();
        let last = sections.last();
        lemma_without(preamble, front, alias);
        let rest = config::without(preamble, front, alias);
        let all = config::without(preamble, sections, alias);
        let kept = config::others(front, alias);
        if last.name == alias {
            let more = vault::left_of(last.lines);
            lines::lemma_left(last.lines);
            if rest.sections.len() > 0 {
                let n = rest.sections.len() - 1;
                assert(rest.sections[n] == rest.sections.last());
                lemma_extended_more(kept[n].lines, rest.sections[n].lines, more);
                assert forall|i: int| 0 <= i < kept.len() implies (#[trigger] all.sections[i]).name
                    == kept[i].name && config::extended(kept[i].lines, all.sections[i].lines) by {
                    if i < n {
                        assert(all.sections[i] == rest.sections[i]);
                    }
                }
            } else {
                lemma_extended_more(preamble, rest.preamble, more);
            }
        } else {
            let more = config::others(sections, alias);
            assert forall|i: int| 0 <= i < more.len() implies (#[trigger] all.sections[i]).name
                == more[i].name && config::extended(more[i].lines, all.sections[i].lines) by {
                if i < kept.len() {
                    assert(all.sections[i] == rest.sections[i]);
                }
            }
        }
    }
}

/// Removing an alias leaves every other section in its place, with all its
/// lines, and the preamble, too. At most, comments come behind them.
pub proof fn removing_keeps_lines(c: ConfigView, alias: Seq<char>)
    ensures
        config::others_kept(c, config::removed(c, alias), alias),
{
    lemma_without(c.preamble, c.sections, alias);
}

/// Lines put behind all others are behind them in the file.
proof fn lemma_behind_lines(read: Read, more: Seq<Seq<char>>)
    ensures
        ({
            let after = config::behind(read, more);
            after.preamble + config::section_lines(after.sections) == read.preamble
                + config::section_lines(read.sections) + more
        }),
{
    let after = config::behind(read, more);
    if read.sections.len() > 0 {
        let front = read.sections.drop_last();
        assert(after.sections.drop_last() =~= front);
        assert(after.preamble + config::section_lines(after.sections) =~= read.preamble
            + config::section_lines(read.sections) + more);
    } else {
        assert(after.preamble + config::section_lines(after.sections) =~= read.preamble
            + config::section_lines(read.sections) + more);
    }
}

proof fn lemma_without_notes(
    preamble: Seq<Seq<char>>,
    sections: Seq<SectionView>,
    alias: Seq<char>,
    line: Seq<char>,
)
    requires
        vault::note(line),
        (preamble + config::section_lines(sections)).contains(line),
    ensures
        ({
            let rest = config::without(preamble, sections, alias);
            (rest.preamble + config::section_lines(rest.sections)).contains(line)
        }),
    decreases sections.len(),
{
    if sections.len() > 0 {
        let front = sections.drop_last();
        let last = sections.last();
        let rest = config::without(preamble, front, alias);
        let all = config::without(preamble, sections, alias);
        let before = preamble + config::section_lines(front);
        let old = preamble + config::section_lines(sections);
        let few = rest.preamble + config::section_lines(rest.sections);
        let new = all.preamble + config::section_lines(all.sections);
        let i = choose|i: int| 0 <= i < old.len() && old[i] == line;
        assert(old =~= before.push(config::header(last.name)) + last.lines);
        lines::lemma_header_no_note(last.name);
        let more = vault::left_of(last.lines);
        if last.name == alias {
            lemma_behind_lines(rest, more);
            assert(new == few + more);
        } else {
            assert(all.sections.drop_last() =~= rest.sections);
            assert(new =~= few.push(config::header(last.name)) + last.lines);
        }
        if i < before.len() {
            assert(before[i] == line);
            lemma_without_notes(preamble, front, alias, line);
            let j = choose|j: int| 0 <= j < few.len() && few[j] == line;
            assert(new[j] == line);
        } else {
            let k = i - before.len() - 1;
            assert(last.lines[k] == line);
            if last.name == alias {
                lines::lemma_left(last.lines);
                assert(last.lines.contains(line));
                let j = choose|j: int| 0 <= j < more.len() && more[j] == line;
                assert(new[few.len() + j] == line);
            } else {
                assert(new[few.len() + 1 + k] == line);
            }
        }
    } else {
        assert(config::section_lines(sections) =~= config::section_lines(Seq::empty()));
    }
}

proof fn lemma_without_new(
    preamble: Seq<Seq<char>>,
    sections: Seq<SectionView>,
    alias: Seq<char>,
    line: Seq<char>,
)
    requires
        ({
            let rest = config::without(preamble, sections, alias);
            (rest.preamble + config::section_lines(rest.sections)).contains(line)
        }),
        line.len() > 0,
    ensures
        (preamble + config::section_lines(sections)).contains(line),
    decreases sections.len(),
{
    if sections.len() > 0 {
        let front = sections.drop_last();
        let last = sections.last();
        let rest = config::without(preamble, front, alias);
        let all = config::without(preamble, sections, alias);
        let before = preamble + config::section_lines(front);
        let old = preamble + config::section_lines(sections);
        let few = rest.preamble + config::section_lines(rest.sections);
        let new = all.preamble + config::section_lines(all.sections);
        let i = choose|i: int| 0 <= i < new.len() && new[i] == line;
        let more = vault::left_of(last.lines);
        assert(old =~= before.push(config::header(last.name)) + last.lines);
        if last.name == alias {
            lemma_behind_lines(rest, more);
            assert(new == few + more);
        } else {
            assert(all.sections.drop_last() =~= rest.sections);
            assert(new =~= few.push(config::header(last.name)) + last.lines);
        }
        if i < few.len() {
            assert(few[i] == line);
            lemma_without_new(preamble, front, alias, line);
            let j = choose|j: int| 0 <= j < before.len() && before[j] == line;
            assert(old[j] == line);
        } else if last.name == alias {
            lines::lemma_left(last.lines);
            assert(more[i - few.len()] == line);
            let j = choose|j: int| 0 <= j < last.lines.len() && last.lines[j] == line;
            assert(old[before.len() + 1 + j] == line);
        } else {
            assert(old[before.len() + (i - few.len())] == line);
        }
    } else {
        assert(config::section_lines(sections) =~= config::section_lines(Seq::empty()));
    }
}

/// Removing an alias puts no line into the registry that was not there, but for
/// empty ones.
pub proof fn removing_adds_nothing(c: ConfigView, alias: Seq<char>, line: Seq<char>)
    requires
        config::all_lines(config::removed(c, alias)).contains(line),
        line.len() > 0,
    ensures
        config::all_lines(c).contains(line),
{
    lemma_without_new(c.preamble, c.sections, alias, line);
}

/// Removing an alias keeps every comment of the registry, those in the removed
/// section among them.
pub proof fn removing_keeps_comments(c: ConfigView, alias: Seq<char>)
    ensures
        config::comments_kept(c, config::removed(c, alias)),
{
    assert forall|line: Seq<char>| vault::note(line) && #[trigger] config::all_lines(c).contains(
        line,
    ) implies config::all_lines(config::removed(c, alias)).contains(line) by {
        lemma_without_notes(c.preamble, c.sections, alias, line);
    }
}

proof fn lemma_others(sections: Seq<SectionView>, alias: Seq<char>)
    ensures
        forall|k: int|
            0 <= k < config::others(sections, alias).len() ==> (#[trigger] config::others(sections, alias)[k]).name
                != alias,
    decreases sections.len(),
{
    if sections.len() > 0 {
        let rest = config::others(sections.drop_last(), alias);
        lemma_others(sections.drop_last(), alias);
        assert forall|k: int| 0 <= k < config::others(sections, alias).len() implies (#[trigger] config::others(
            sections,
            alias,
        )[k]).name != alias by {
            if k < rest.len() {
                assert(rest[k].name != alias);
            }
        }
    }
}

/// An alias that was removed is not found any more.
pub proof fn removed_is_not_found(c: ConfigView, alias: Seq<char>, home: Option<Seq<char>>)
    ensures
        config::vault_named(config::removed(c, alias), alias, home) == Ok::<
            Option<VaultView>,
            VaultErrorView,
        >(None),
{
    let rest = config::removed(c, alias).sections;
    lemma_without(c.preamble, c.sections, alias);
    lemma_others(c.sections, alias);
    assert forall|k: int| 0 <= k < rest.len() implies (#[trigger] rest[k]).name != alias by {
        assert(config::others(c.sections, alias)[k].name != alias);
    }
    register::lemma_place_is(rest, alias, 0, rest.len() as int);
}

/// A lookup in a list that has one more section.
proof fn lemma_place_push(sections: Seq<SectionView>, last: SectionView, name: Seq<char>)
    ensures
        config::section_place(sections.push(last), name, 0) == (if config::has_section(
            sections,
            name,
        ) {
            config::section_place(sections, name, 0)
        } else if last.name == name {
            sections.len() as int
        } else {
            sections.len() as int + 1
        }),
{
    let more = sections.push(last);
    config::lemma_section_place(sections, name, 0);
    let p = config::section_place(sections, name, 0);
    assert forall|k: int| 0 <= k < p implies (#[trigger] more[k]).name != name by {
        assert(sections[k].name != name);
    }
    if p < sections.len() {
        register::lemma_place_is(more, name, 0, p);
    } else if last.name == name {
        register::lemma_place_is(more, name, 0, sections.len() as int);
    } else {
        register::lemma_place_is(more, name, 0, sections.len() as int + 1);
    }
}

/// Removing an alias changes no other.
pub proof fn removing_keeps_others(
    c: ConfigView,
    alias: Seq<char>,
    other: Seq<char>,
    home: Option<Seq<char>>,
)
    requires
        other != alias,
    ensures
        config::vault_named(config::removed(c, alias), other, home) == config::vault_named(
            c,
            other,
            home,
        ),
{
    let kept = config::others(c.sections, alias);
    let rest = config::removed(c, alias).sections;
    lemma_others_found(c, alias, other, home);
    lemma_without(c.preamble, c.sections, alias);
    config::lemma_section_place(kept, other, 0);
    let p = config::section_place(kept, other, 0);
    assert forall|k: int| 0 <= k < p implies (#[trigger] rest[k]).name != other by {
        assert(kept[k].name != other);
    }
    if p < kept.len() {
        assert(rest[p].name == kept[p].name);
    }
    register::lemma_place_is(rest, other, 0, p);
    if p < kept.len() {
        let old = kept[p].lines;
        let new = rest[p].lines;
        let more = new.skip(old.len() as int);
        assert(config::extended(old, new));
        assert forall|i: int| 0 <= i < more.len() implies vault::comment(#[trigger] more[i]) by {
            assert(vault::comment(new[old.len() + i]));
        }
        assert(old + more =~= new) by {
            assert forall|i: int| 0 <= i < old.len() implies #[trigger] old[i] == new[i] by {
                assert(old == new.subrange(0, old.len() as int));
            }
        }
        lines::lemma_comments(old, more, home);
    }
}

/// The other sections are found among themselves.
proof fn lemma_others_found(
    c: ConfigView,
    alias: Seq<char>,
    other: Seq<char>,
    home: Option<Seq<char>>,
)
    requires
        other != alias,
    ensures
        ({
            let after = ConfigView { sections: config::others(c.sections, alias), ..c };
            config::vault_named(after, other, home) == config::vault_named(c, other, home)
        }),
    decreases c.sections.len(),
{
    if c.sections.len() > 0 {
        let front = c.sections.drop_last();
        let last = c.sections.last();
        let c1 = ConfigView { sections: front, ..c };
        lemma_others_found(c1, alias, other, home);
        assert(front.push(last) =~= c.sections);
        lemma_place_push(front, last, other);
        config::lemma_section_place(front, other, 0);
        let rest = config::others(front, alias);
        config::lemma_section_place(rest, other, 0);
        lemma_place_push(rest, last, other);
        // Both lists hold a section of the other name, or neither does.
        lemma_has_other(front, alias, other);
    }
}

proof fn lemma_has_other(sections: Seq<SectionView>, alias: Seq<char>, other: Seq<char>)
    requires
        other != alias,
    ensures
        config::has_section(config::others(sections, alias), other) == config::has_section(
            sections,
            other,
        ),
    decreases sections.len(),
{
    if sections.len() > 0 {
        let front = sections.drop_last();
        let last = sections.last();
        lemma_has_other(front, alias, other);
        assert(front.push(last) =~= sections);
        lemma_place_push(front, last, other);
        config::lemma_section_place(front, other, 0);
        lemma_place_push(config::others(front, alias), last, other);
        config::lemma_section_place(config::others(front, alias), other, 0);
    }
}

} // verus!
