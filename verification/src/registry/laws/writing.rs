//! How a registry is written.
use vstd::prelude::*;

use crate::registry::config::{ConfigView, Read};
use crate::registry::config;
use crate::registry::laws::{form, settings};
use crate::registry::vault::{SectionView, VaultView};
use crate::registry::vault;
use crate::text;

verus! {

/// The lines that describe a vault: one for its file, one for its mountpoint,
/// and one for each other value that it has.
pub proof fn vault_is_written(v: VaultView)
    ensures
        ({
            let list = vault::rendered(v);
            &&& list.len() >= 2
            &&& list[0] == "file = "@ + v.file
            &&& list[1] == "mountpoint = "@ + v.mountpoint
            &&& v.idle_timeout matches Some(x) ==> list.contains("idle_timeout = "@ + x)
            &&& v.compact_on_idle matches Some(x) ==> list.contains("compact_on_idle = "@ + x)
            &&& v.password_file matches Some(x) ==> list.contains("password_file = "@ + x)
            &&& v.password_command matches Some(x) ==> list.contains("password_command = "@ + x)
            &&& v.log_file matches Some(x) ==> list.contains("log_file = "@ + x)
            &&& v.read_only ==> list.last() == "read_only = true"@
            &&& list.len() == 2 + (if v.idle_timeout is Some {
                1int
            } else {
                0
            }) + (if v.compact_on_idle is Some {
                1int
            } else {
                0
            }) + (if v.password_file is Some {
                1int
            } else {
                0
            }) + (if v.password_command is Some {
                1int
            } else {
                0
            }) + (if v.log_file is Some {
                1int
            } else {
                0
            }) + (if v.read_only {
                1int
            } else {
                0
            })
        }),
{
    reveal_strlit(" = ");
    reveal_strlit("file");
    reveal_strlit("file = ");
    reveal_strlit("mountpoint");
    reveal_strlit("mountpoint = ");
    reveal_strlit("idle_timeout");
    reveal_strlit("idle_timeout = ");
    reveal_strlit("compact_on_idle");
    reveal_strlit("compact_on_idle = ");
    reveal_strlit("password_file");
    reveal_strlit("password_file = ");
    reveal_strlit("password_command");
    reveal_strlit("password_command = ");
    reveal_strlit("log_file");
    reveal_strlit("log_file = ");
    reveal_strlit("read_only");
    reveal_strlit("true");
    reveal_strlit("read_only = true");
    assert("file"@ + " = "@ =~= "file = "@);
    assert("mountpoint"@ + " = "@ =~= "mountpoint = "@);
    assert("idle_timeout"@ + " = "@ =~= "idle_timeout = "@);
    assert("compact_on_idle"@ + " = "@ =~= "compact_on_idle = "@);
    assert("password_file"@ + " = "@ =~= "password_file = "@);
    assert("password_command"@ + " = "@ =~= "password_command = "@);
    assert("log_file"@ + " = "@ =~= "log_file = "@);
    assert("read_only"@ + " = "@ + "true"@ =~= "read_only = true"@);
    let list = vault::rendered(v);
    let a0 = 2int;
    let a1 = a0 + vault::line_if("idle_timeout"@, v.idle_timeout).len();
    let a2 = a1 + vault::line_if("compact_on_idle"@, v.compact_on_idle).len();
    let a3 = a2 + vault::line_if("password_file"@, v.password_file).len();
    let a4 = a3 + vault::line_if("password_command"@, v.password_command).len();
    let a5 = a4 + vault::line_if("log_file"@, v.log_file).len();
    if let Some(x) = v.idle_timeout {
        assert(list[a0] == "idle_timeout = "@ + x);
    }
    if let Some(x) = v.compact_on_idle {
        assert(list[a1] == "compact_on_idle = "@ + x);
    }
    if let Some(x) = v.password_file {
        assert(list[a2] == "password_file = "@ + x);
    }
    if let Some(x) = v.password_command {
        assert(list[a3] == "password_command = "@ + x);
    }
    if let Some(x) = v.log_file {
        assert(list[a4] == "log_file = "@ + x);
    }
    if v.read_only {
        assert(list[a5] == "read_only = true"@);
    }
}

/// The lines of a registry: the preamble, and then for each section its name in
/// brackets and its lines.
pub proof fn sections_are_written(c: ConfigView, s: SectionView)
    ensures
        config::all_lines(ConfigView { sections: Seq::empty(), ..c }) == c.preamble,
        config::all_lines(ConfigView { sections: c.sections.push(s), ..c }) == config::all_lines(c)
            + seq![seq!['['] + s.name + seq![']']] + s.lines,
{
    reveal_strlit("[");
    reveal_strlit("]");
    let more = c.sections.push(s);
    assert(more.drop_last() =~= c.sections);
    assert(config::header(s.name) =~= seq!['['] + s.name + seq![']']);
    assert(c.preamble + config::section_lines(Seq::<SectionView>::empty()) =~= c.preamble);
    assert(c.preamble + config::section_lines(more) =~= c.preamble + config::section_lines(
        c.sections,
    ) + seq![config::header(s.name)] + s.lines);
}

proof fn lemma_joined_push(list: Seq<Seq<char>>, line: Seq<char>)
    ensures
        text::lines_joined(list.push(line)) == text::lines_joined(list) + line.push('\n'),
    decreases list.len(),
{
    let more = list.push(line);
    if list.len() == 0 {
        assert(more.skip(1) =~= Seq::empty());
        assert(text::lines_joined(more.skip(1)) == Seq::<char>::empty());
        assert(text::lines_joined(list) == Seq::<char>::empty());
        assert(line.push('\n') + Seq::<char>::empty() =~= Seq::<char>::empty() + line.push('\n'));
    } else {
        lemma_joined_push(list.skip(1), line);
        assert(more.skip(1) =~= list.skip(1).push(line));
        assert(more[0] == list[0]);
        assert(text::lines_joined(more) =~= text::lines_joined(list) + line.push('\n'));
    }
}

proof fn lemma_ended(list: Seq<Seq<char>>)
    ensures
        config::ended(list) == text::lines_joined(list),
    decreases list.len(),
{
    if list.len() > 0 {
        let front = list.drop_last();
        lemma_ended(front);
        lemma_joined_push(front, list.last());
        assert(front.push(list.last()) =~= list);
    }
}

proof fn lemma_squeezed(s: Seq<char>) -> (k: nat)
    ensures
        config::squeezed(s) + Seq::new(k, |i: int| '\n') == s,
        ({
            let r = config::squeezed(s);
            r.len() < 2 || r[r.len() - 1] != '\n' || r[r.len() - 2] != '\n'
        }),
        k > 0 ==> config::squeezed(s).len() > 0 && config::squeezed(s).last() == '\n',
    decreases s.len(),
{
    if s.len() >= 2 && s[s.len() - 1] == '\n' && s[s.len() - 2] == '\n' {
        let front = s.drop_last();
        let k = lemma_squeezed(front);
        let r = config::squeezed(s);
        assert(r + Seq::new(k + 1, |i: int| '\n') =~= (r + Seq::new(k, |i: int| '\n')).push('\n'));
        assert(front.push('\n') =~= s);
        if k == 0 {
            assert(r =~= front);
        }
        k + 1
    } else {
        assert(s + Seq::new(0nat, |i: int| '\n') =~= s);
        0
    }
}

/// The text of a registry is its lines with a line feed behind each, but for
/// line feeds at its end, of which one stays.
pub proof fn text_is_the_lines(c: ConfigView) -> (k: nat)
    ensures
        config::text_of(c) + Seq::new(k, |i: int| '\n') == text::lines_joined(config::all_lines(c)),
        ({
            let s = config::text_of(c);
            &&& s.len() < 2 || s[s.len() - 1] != '\n' || s[s.len() - 2] != '\n'
            &&& k > 0 ==> s.len() > 0 && s.last() == '\n'
        }),
{
    lemma_ended(config::all_lines(c));
    lemma_squeezed(config::ended(config::all_lines(c)))
}

/// A blank line holds nothing but white space.
pub proof fn blank_is_white(line: Seq<char>)
    ensures
        vault::blank(line) <==> (forall|i: int|
            0 <= i < line.len() ==> text::white(#[trigger] line[i])),
{
    let from = text::trimming_takes_white_space(line);
    let t = text::trimmed(line);
    if t.len() > 0 {
        assert(t.first() == line[from]);
    }
}

/// What is left of a section that is removed: every line that says nothing and
/// is not blank, in their order, and behind them an empty line where the section
/// ended with a blank one.
pub proof fn comments_are_left(lines: Seq<Seq<char>>) -> (places: Seq<int>)
    ensures
        ({
            let left = vault::left_of(lines);
            let n = places.len();
            &&& n <= left.len()
            &&& forall|k: int|
                0 <= k < n ==> 0 <= #[trigger] places[k] < lines.len() && left[k]
                    == lines[places[k]]
            &&& forall|j: int, k: int| 0 <= j < k < n ==> places[j] < places[k]
            &&& forall|i: int|
                0 <= i < lines.len() ==> (places.contains(i) <==> settings::silent(
                    #[trigger] lines[i],
                ) && !vault::blank(lines[i]))
            &&& n > 0 && vault::blank(lines.last()) ==> left.len() == n + 1 && left.last().len()
                == 0
            &&& n == 0 || !vault::blank(lines.last()) ==> left.len() == n
        }),
{
    let places = lemma_notes_places(lines);
    assert forall|i: int| 0 <= i < lines.len() implies (places.contains(i) <==> settings::silent(
        #[trigger] lines[i],
    ) && !vault::blank(lines[i])) by {
        settings::comments_are_silent(lines[i]);
        assert(vault::note(lines[i]) <==> places.contains(i));
    }
    places
}

proof fn lemma_notes_places(lines: Seq<Seq<char>>) -> (places: Seq<int>)
    ensures
        places.len() == vault::notes(lines).len(),
        forall|k: int|
            0 <= k < places.len() ==> 0 <= #[trigger] places[k] < lines.len() && vault::notes(
                lines,
            )[k] == lines[places[k]],
        forall|j: int, k: int| 0 <= j < k < places.len() ==> places[j] < places[k],
        forall|i: int|
            0 <= i < lines.len() ==> (places.contains(i) <==> vault::note(#[trigger] lines[i])),
    decreases lines.len(),
{
    if lines.len() == 0 {
        Seq::empty()
    } else {
        let n = lines.len() - 1;
        let front = lines.drop_last();
        let few = lemma_notes_places(front);
        let places = if vault::note(lines[n]) {
            few.push(n)
        } else {
            few
        };
        assert forall|k: int| 0 <= k < places.len() implies 0 <= #[trigger] places[k] < lines.len()
            && vault::notes(lines)[k] == lines[places[k]] by {
            if k < few.len() {
                assert(few[k] == places[k]);
                assert(front[few[k]] == lines[few[k]]);
            }
        }
        assert forall|i: int| 0 <= i < lines.len() implies (places.contains(i) <==> vault::note(
            #[trigger] lines[i],
        )) by {
            if i < n {
                assert(front[i] == lines[i]);
                if few.contains(i) {
                    let k = choose|k: int| 0 <= k < few.len() && few[k] == i;
                    assert(places[k] == i);
                }
                if places.contains(i) {
                    let k = choose|k: int| 0 <= k < places.len() && places[k] == i;
                    assert(few[k] == i);
                }
            } else {
                if vault::note(lines[n]) {
                    assert(places[few.len() as int] == n);
                }
                if places.contains(n) {
                    let k = choose|k: int| 0 <= k < places.len() && places[k] == n;
                    if k < few.len() {
                        assert(few[k] == n);
                    }
                }
            }
        }
        places
    }
}

proof fn lemma_unblanked_end(lines: Seq<Seq<char>>) -> (e: int)
    ensures
        0 <= e <= lines.len(),
        vault::unblanked(lines) == lines.take(e),
        e == 0 || !vault::blank(lines[e - 1]),
        forall|i: int| e <= i < lines.len() ==> vault::blank(#[trigger] lines[i]),
    decreases lines.len(),
{
    if vault::ends_blank(lines) {
        let front = lines.drop_last();
        let e = lemma_unblanked_end(front);
        assert(front.take(e) =~= lines.take(e));
        if e > 0 {
            assert(front[e - 1] == lines[e - 1]);
        }
        assert forall|i: int| e <= i < lines.len() implies vault::blank(#[trigger] lines[i]) by {
            if i < front.len() {
                assert(front[i] == lines[i]);
            }
        }
        e
    } else {
        assert(lines.take(lines.len() as int) =~= lines);
        lines.len() as int
    }
}

proof fn lemma_behind_start(lines: Seq<Seq<char>>) -> (s: int)
    ensures
        0 <= s <= lines.len(),
        vault::behind_settings(lines) == lines.skip(s),
        s == 0 || !vault::comment(lines[s - 1]),
        forall|i: int| s <= i < lines.len() ==> vault::comment(#[trigger] lines[i]),
    decreases lines.len(),
{
    if lines.len() > 0 && vault::comment(lines.last()) {
        let front = lines.drop_last();
        let s = lemma_behind_start(front);
        assert(front.skip(s).push(lines.last()) =~= lines.skip(s));
        if s > 0 {
            assert(front[s - 1] == lines[s - 1]);
        }
        assert forall|i: int| s <= i < lines.len() implies vault::comment(#[trigger] lines[i]) by {
            if i < front.len() {
                assert(front[i] == lines[i]);
            }
        }
        s
    } else {
        assert(lines.skip(lines.len() as int) =~= Seq::empty());
        lines.len() as int
    }
}

/// What a section becomes when its vault is registered again: the lines of the
/// vault, then every line that stood behind the last setting, as far as it is not
/// blank to the end, and an empty line where there were blank ones.
pub proof fn settings_are_written_anew(c: ConfigView, v: VaultView, i: int) -> (ends: (int, int))
    requires
        0 <= i < c.sections.len(),
        c.sections[i].name == v.alias,
        forall|k: int| 0 <= k < i ==> (#[trigger] c.sections[k]).name != v.alias,
    ensures
        ({
            let old = c.sections[i].lines;
            let new = config::upserted(c, v).sections[i];
            let (s, e) = ends;
            &&& 0 <= s <= e <= old.len()
            &&& s == 0 || !settings::silent(old[s - 1])
            &&& forall|k: int| s <= k < e ==> settings::silent(#[trigger] old[k])
            &&& e == 0 || !vault::blank(old[e - 1])
            &&& forall|k: int| e <= k < old.len() ==> vault::blank(#[trigger] old[k])
            &&& new.name == v.alias
            &&& e == old.len() ==> new.lines == vault::rendered(v) + old.subrange(s, e)
            &&& e < old.len() ==> new.lines == (vault::rendered(v) + old.subrange(s, e)).push(
                Seq::empty(),
            )
            &&& config::upserted(c, v).sections.len() == c.sections.len()
        }),
{
    config::lemma_section_place(c.sections, v.alias, 0);
    let old = c.sections[i].lines;
    let e = lemma_unblanked_end(old);
    let upto = old.take(e);
    let s = lemma_behind_start(upto);
    assert(upto.skip(s) =~= old.subrange(s, e));
    if s > 0 {
        assert(upto[s - 1] == old[s - 1]);
        settings::comments_are_silent(old[s - 1]);
    }
    assert forall|k: int| s <= k < e implies settings::silent(#[trigger] old[k]) by {
        assert(upto[k] == old[k]);
        settings::comments_are_silent(old[k]);
    }
    let all = vault::rendered(v);
    let b = old.subrange(s, e);
    if vault::ends_blank(old) {
        assert(e < old.len()) by {
            if e == old.len() {
                assert(old.last() == old[e - 1]);
            }
        }
        assert(all + (b + seq![Seq::<char>::empty()]) =~= (all + b).push(Seq::empty()));
    } else {
        assert(e == old.len()) by {
            if e < old.len() {
                assert(vault::blank(old[old.len() - 1]));
            }
        }
        assert(all + (b + Seq::<Seq<char>>::empty()) =~= all + b);
    }
    (s, e)
}

/// A new vault is the last section of the registry, with a blank line before it
/// where anything stands before it.
pub proof fn new_section_comes_last(c: ConfigView, v: VaultView)
    requires
        forall|k: int| 0 <= k < c.sections.len() ==> (#[trigger] c.sections[k]).name != v.alias,
    ensures
        ({
            let after = config::upserted(c, v);
            let n = c.sections.len() as int;
            let before = if n > 0 {
                c.sections[n - 1].lines
            } else {
                c.preamble
            };
            let now = if n > 0 {
                after.sections[n - 1].lines
            } else {
                after.preamble
            };
            &&& after.sections.len() == n + 1
            &&& after.sections[n].name == v.alias
            &&& after.sections[n].lines == vault::rendered(v)
            &&& before.len() == 0 || vault::blank(before.last()) ==> now == before
            &&& before.len() > 0 && !vault::blank(before.last()) ==> now == before.push(
                Seq::empty(),
            )
            &&& n > 0 ==> after.preamble == c.preamble
            &&& forall|k: int| 0 <= k < n - 1 ==> #[trigger] after.sections[k] == c.sections[k]
        }),
{
    config::lemma_section_place(c.sections, v.alias, 0);
}

proof fn lemma_without_none(preamble: Seq<Seq<char>>, sections: Seq<SectionView>, alias: Seq<char>)
    requires
        forall|k: int| 0 <= k < sections.len() ==> (#[trigger] sections[k]).name != alias,
    ensures
        config::without(preamble, sections, alias) == (Read { preamble, sections }),
    decreases sections.len(),
{
    if sections.len() > 0 {
        let front = sections.drop_last();
        assert forall|k: int| 0 <= k < front.len() implies (#[trigger] front[k]).name != alias by {
            assert(front[k] == sections[k]);
        }
        lemma_without_none(preamble, front, alias);
        assert(sections[sections.len() - 1].name != alias);
        assert(front.push(sections.last()) =~= sections);
    } else {
        assert(sections =~= Seq::empty());
    }
}

proof fn lemma_without_one(
    preamble: Seq<Seq<char>>,
    sections: Seq<SectionView>,
    alias: Seq<char>,
    i: int,
)
    requires
        0 <= i < sections.len(),
        sections[i].name == alias,
        forall|k: int|
            0 <= k < sections.len() && k != i ==> (#[trigger] sections[k]).name != alias,
    ensures
        ({
            let r = config::without(preamble, sections, alias);
            let left = vault::left_of(sections[i].lines);
            &&& r.sections.len() == sections.len() - 1
            &&& i == 0 ==> r.preamble == preamble + left
            &&& i > 0 ==> r.preamble == preamble
            &&& i > 0 ==> r.sections[i - 1].name == sections[i - 1].name
            &&& i > 0 ==> r.sections[i - 1].lines == sections[i - 1].lines + left
            &&& forall|k: int| 0 <= k < i - 1 ==> #[trigger] r.sections[k] == sections[k]
            &&& forall|k: int| i <= k < sections.len() - 1 ==> #[trigger] r.sections[k] == sections[k
                + 1]
        }),
    decreases sections.len(),
{
    let front = sections.drop_last();
    let n = sections.len() - 1;
    if i == n {
        assert forall|k: int| 0 <= k < front.len() implies (#[trigger] front[k]).name != alias by {
            assert(front[k] == sections[k]);
        }
        lemma_without_none(preamble, front, alias);
    } else {
        assert forall|k: int|
            0 <= k < front.len() && k != i implies (#[trigger] front[k]).name != alias by {
            assert(front[k] == sections[k]);
        }
        assert(front[i] == sections[i]);
        lemma_without_one(preamble, front, alias, i);
        assert(sections[n].name != alias);
        let r = config::without(preamble, sections, alias);
        let few = config::without(preamble, front, alias);
        assert(r.sections == few.sections.push(sections[n]));
        if i > 0 {
            assert(r.sections[i - 1] == few.sections[i - 1]);
            assert(front[i - 1] == sections[i - 1]);
        }
        assert forall|k: int| 0 <= k < i - 1 implies #[trigger] r.sections[k] == sections[k] by {
            assert(few.sections[k] == front[k]);
        }
        assert forall|k: int| i <= k < sections.len() - 1 implies #[trigger] r.sections[k]
            == sections[k + 1] by {
            if k < n - 1 {
                assert(few.sections[k] == front[k + 1]);
            }
        }
    }
}

/// Removing an alias takes out its section and nothing else. What is left of it
/// comes behind the section before it, or behind the preamble.
pub proof fn one_section_is_removed(c: ConfigView, alias: Seq<char>, i: int)
    requires
        form::names_distinct(c.sections),
        0 <= i < c.sections.len(),
        c.sections[i].name == alias,
    ensures
        ({
            let after = config::removed(c, alias);
            let left = vault::left_of(c.sections[i].lines);
            &&& after.path == c.path
            &&& after.sections.len() == c.sections.len() - 1
            &&& i == 0 ==> after.preamble == c.preamble + left
            &&& i > 0 ==> after.preamble == c.preamble
            &&& i > 0 ==> after.sections[i - 1].name == c.sections[i - 1].name
            &&& i > 0 ==> after.sections[i - 1].lines == c.sections[i - 1].lines + left
            &&& forall|k: int| 0 <= k < i - 1 ==> #[trigger] after.sections[k] == c.sections[k]
            &&& forall|k: int|
                i <= k < after.sections.len() ==> #[trigger] after.sections[k] == c.sections[k + 1]
        }),
{
    assert forall|k: int| 0 <= k < c.sections.len() && k != i implies (#[trigger] c.sections[k]).name
        != alias by {
        assert(c.sections[i].name == alias);
    }
    lemma_without_one(c.preamble, c.sections, alias, i);
}

} // verus!
