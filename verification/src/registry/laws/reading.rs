//! What the lines of a registry make.
use vstd::prelude::*;

use crate::paths;
use crate::registry::config::{
    ConfigView, ParseError, ParseErrorView, Read, ReadOutcome, SavePlan,
};
use crate::registry::config;
use crate::registry::laws::settings;
use crate::registry::vault::{SectionView, VaultErrorView, VaultView};
use crate::registry::vault;
use crate::text;

verus! {

/// Whether a line is a name in brackets, with white space around it at most and
/// around them.
pub open spec fn heads(line: Seq<char>, outer: int, inner: int, name: Seq<char>) -> bool {
    exists|between: Seq<char>|
        settings::padded(between, inner, name) && #[trigger] settings::padded(
            line,
            outer,
            seq!['['] + between + seq![']'],
        )
}

proof fn lemma_heads(line: Seq<char>, outer: int, inner: int, name: Seq<char>)
    requires
        heads(line, outer, inner, name),
    ensures
        ({
            let t = text::trimmed(line);
            &&& t.len() >= 2
            &&& t.first() == '['
            &&& t.last() == ']'
            &&& text::trimmed(t.subrange(1, t.len() - 1)) == name
        }),
{
    let between = choose|between: Seq<char>|
        settings::padded(between, inner, name) && #[trigger] settings::padded(
            line,
            outer,
            seq!['['] + between + seq![']'],
        );
    let whole = seq!['['] + between + seq![']'];
    settings::lemma_padded(line, outer, whole);
    settings::lemma_padded(between, inner, name);
    assert(whole.subrange(1, whole.len() - 1) =~= between);
}

/// There is a section of a name exactly if one of them has it.
pub proof fn sections_are_found_by_name(sections: Seq<SectionView>, name: Seq<char>)
    ensures
        config::has_section(sections, name) <==> exists|i: int|
            0 <= i < sections.len() && (#[trigger] sections[i]).name == name,
{
    config::lemma_section_place(sections, name, 0);
}

/// A name in brackets opens a section of that name, which has no lines yet. A
/// name that is no alias is refused, and one that was there before.
pub proof fn headers_open_sections(
    front: Seq<Seq<char>>,
    line: Seq<char>,
    outer: int,
    inner: int,
    name: Seq<char>,
)
    requires
        front.len() < usize::MAX,
        config::read_lines(front) is Ok,
        heads(line, outer, inner, name),
    ensures
        ({
            let read = config::read_lines(front)->Ok_0;
            let next = config::read_lines(front.push(line));
            let known = exists|i: int|
                0 <= i < read.sections.len() && (#[trigger] read.sections[i]).name == name;
            let number = (front.len() + 1) as usize;
            &&& !vault::valid_alias(name) ==> next == Err::<Read, ParseErrorView>(
                ParseError::InvalidAlias { line: number, alias: name },
            )
            &&& vault::valid_alias(name) && known ==> next == Err::<Read, ParseErrorView>(
                ParseError::DuplicateSection { line: number, name },
            )
            &&& vault::valid_alias(name) && !known ==> next == Ok::<Read, ParseErrorView>(
                Read {
                    preamble: read.preamble,
                    sections: read.sections.push(SectionView { name, lines: Seq::empty() }),
                },
            )
        }),
{
    let read = config::read_lines(front)->Ok_0;
    assert(front.push(line).drop_last() =~= front);
    lemma_heads(line, outer, inner, name);
    sections_are_found_by_name(read.sections, name);
}

/// A line that starts with a bracket and does not end with one is refused, and
/// told as it stands, with its number.
pub proof fn open_brackets_are_refused(
    front: Seq<Seq<char>>,
    line: Seq<char>,
    from: int,
    bare: Seq<char>,
)
    requires
        front.len() < usize::MAX,
        config::read_lines(front) is Ok,
        settings::padded(line, from, bare),
        bare.len() > 0,
        bare.first() == '[',
        bare.last() != ']',
    ensures
        config::read_lines(front.push(line)) == Err::<Read, ParseErrorView>(
            ParseError::MalformedHeader { line: (front.len() + 1) as usize, raw: line },
        ),
{
    assert(front.push(line).drop_last() =~= front);
    settings::lemma_padded(line, from, bare);
}

/// Any other line belongs to the section that was opened last, as it stands;
/// before the first section it belongs to the preamble.
pub proof fn lines_belong_to_sections(
    front: Seq<Seq<char>>,
    line: Seq<char>,
    from: int,
    bare: Seq<char>,
)
    requires
        config::read_lines(front) is Ok,
        settings::padded(line, from, bare),
        bare.len() == 0 || bare.first() != '[',
    ensures
        ({
            let read = config::read_lines(front)->Ok_0;
            let r = config::read_lines(front.push(line));
            let n = read.sections.len() as int;
            &&& r is Ok
            &&& n == 0 ==> r->Ok_0.preamble == read.preamble.push(line) && r->Ok_0.sections
                == read.sections
            &&& n > 0 ==> {
                &&& r->Ok_0.preamble == read.preamble
                &&& r->Ok_0.sections.len() == n
                &&& r->Ok_0.sections[n - 1].name == read.sections[n - 1].name
                &&& r->Ok_0.sections[n - 1].lines == read.sections[n - 1].lines.push(line)
                &&& forall|i: int|
                    0 <= i < n - 1 ==> #[trigger] r->Ok_0.sections[i] == read.sections[i]
            }
        }),
{
    assert(front.push(line).drop_last() =~= front);
    settings::lemma_padded(line, from, bare);
}

/// The first line that is refused is the error of the whole registry. Nothing at
/// all makes an empty one.
pub proof fn first_refusal_counts(path: Seq<char>, s: Seq<char>, i: int)
    requires
        0 <= i <= text::lines(s).len(),
    ensures
        config::read_lines(Seq::empty()) == Ok::<Read, ParseErrorView>(
            Read { preamble: Seq::empty(), sections: Seq::empty() },
        ),
        config::read_lines(text::lines(s).take(i)) is Err ==> config::parsed(path, s) == Err::<
            ConfigView,
            ParseErrorView,
        >(config::read_lines(text::lines(s).take(i))->Err_0),
        config::read_lines(text::lines(s)) is Ok ==> config::parsed(path, s) == Ok::<
            ConfigView,
            ParseErrorView,
        >(
            ConfigView {
                path,
                preamble: config::read_lines(text::lines(s))->Ok_0.preamble,
                sections: config::read_lines(text::lines(s))->Ok_0.sections,
            },
        ),
{
    if config::read_lines(text::lines(s).take(i)) is Err {
        config::lemma_first_error(text::lines(s), i);
    }
}

/// The vaults of a registry are those of its sections, one for each, in their
/// order. One section that describes none is the error of all, and the first
/// such is.
pub proof fn vaults_are_the_sections(
    sections: Seq<SectionView>,
    home: Option<Seq<char>>,
    i: int,
)
    requires
        0 <= i < sections.len(),
    ensures
        ({
            let r = config::vaults_of(sections, home);
            &&& r is Ok ==> r->Ok_0.len() == sections.len() && vault::vault_of(sections[i], home)
                == Ok::<VaultView, VaultErrorView>(r->Ok_0[i])
            &&& vault::vault_of(sections[i], home) is Err && (forall|k: int|
                0 <= k < i ==> vault::vault_of(#[trigger] sections[k], home) is Ok) ==> r == Err::<
                Seq<VaultView>,
                VaultErrorView,
            >(vault::vault_of(sections[i], home)->Err_0)
            &&& (forall|k: int|
                0 <= k < sections.len() ==> vault::vault_of(#[trigger] sections[k], home) is Ok)
                ==> r is Ok
        }),
    decreases sections.len(),
{
    let front = sections.drop_last();
    let n = sections.len() - 1;
    if n > 0 {
        let k = if i < n {
            i
        } else {
            0
        };
        vaults_are_the_sections(front, home, k);
        assert(front[k] == sections[k]);
        if forall|k: int|
            0 <= k < sections.len() ==> vault::vault_of(#[trigger] sections[k], home) is Ok {
            assert forall|k: int| 0 <= k < front.len() implies vault::vault_of(
                #[trigger] front[k],
                home,
            ) is Ok by {
                assert(front[k] == sections[k]);
            }
            assert(vault::vault_of(sections[n], home) is Ok);
        }
        if forall|k: int| 0 <= k < i ==> vault::vault_of(#[trigger] sections[k], home) is Ok {
            if i < n {
                assert forall|k: int| 0 <= k < i implies vault::vault_of(
                    #[trigger] front[k],
                    home,
                ) is Ok by {
                    assert(front[k] == sections[k]);
                }
            } else {
                assert forall|k: int| 0 <= k < front.len() implies vault::vault_of(
                    #[trigger] front[k],
                    home,
                ) is Ok by {
                    assert(front[k] == sections[k]);
                }
            }
        }
    } else {
        assert(front =~= Seq::empty());
        assert(config::vaults_of(front, home) == Ok::<Seq<VaultView>, VaultErrorView>(
            Seq::empty(),
        ));
        assert(vault::vault_of(sections[0], home) == vault::vault_of(sections.last(), home));
    }
}

/// An alias is looked up among the names of the sections: the first of that name
/// is the vault, and where there is none there is no vault.
pub proof fn vaults_are_found_by_alias(
    c: ConfigView,
    alias: Seq<char>,
    home: Option<Seq<char>>,
    i: int,
)
    ensures
        ({
            let r = config::vault_named(c, alias, home);
            &&& 0 <= i < c.sections.len() && c.sections[i].name == alias && (forall|k: int|
                0 <= k < i ==> (#[trigger] c.sections[k]).name != alias) ==> match vault::vault_of(
                c.sections[i],
                home,
            ) {
                Ok(v) => r == Ok::<Option<VaultView>, VaultErrorView>(Some(v)) && v.alias == alias,
                Err(e) => r == Err::<Option<VaultView>, VaultErrorView>(e),
            }
            &&& (forall|k: int|
                0 <= k < c.sections.len() ==> (#[trigger] c.sections[k]).name != alias) ==> r
                == Ok::<Option<VaultView>, VaultErrorView>(None)
        }),
{
    config::lemma_section_place(c.sections, alias, 0);
}

/// A file that is not there is a registry without sections, whose lines say
/// nothing; one that cannot be read is an error, and any other is what its text
/// says.
pub proof fn missing_file_is_empty(path: Seq<char>, s: String)
    ensures
        ({
            let fresh = config::loaded(path, ReadOutcome::NotFound);
            &&& fresh is Ok
            &&& fresh->Ok_0.path == path
            &&& fresh->Ok_0.sections.len() == 0
            &&& fresh->Ok_0.preamble.len() > 0
            &&& fresh->Ok_0.preamble.last().len() == 0
        }),
        config::loaded(path, ReadOutcome::Failed) == Err::<ConfigView, Option<ParseErrorView>>(
            None,
        ),
        match config::parsed(path, s@) {
            Ok(c) => config::loaded(path, ReadOutcome::Text(s)) == Ok::<
                ConfigView,
                Option<ParseErrorView>,
            >(c),
            Err(e) => config::loaded(path, ReadOutcome::Text(s)) == Err::<
                ConfigView,
                Option<ParseErrorView>,
            >(Some(e)),
        },
{
}

/// The registry is written for its owner alone, beside the file and under another
/// name first, and in the directory of the file.
pub proof fn written_privately(plan: SavePlan, c: ConfigView, dir: Seq<char>, name: Seq<char>)
    requires
        config::saves(plan, c),
        paths::ends_with_part(dir),
        paths::is_name(name),
        c.path == dir + "/"@ + name,
    ensures
        plan.dir@ == dir,
        plan.dir_mode == 0x1c0,
        plan.tmp@ == dir + "/"@ + name + ".tmp"@,
        plan.tmp_mode == 0x180,
        plan.path@ == c.path,
        plan.tmp@ != plan.path@,
        plan.text@ == config::text_of(c),
{
    reveal_strlit(".tmp");
    paths::directory_and_name(dir, name);
    assert(plan.tmp@.len() == c.path.len() + 4);
}

} // verus!
