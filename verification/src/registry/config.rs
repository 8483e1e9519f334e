//! The registry file.
use vstd::prelude::*;
use vstd::slice::slice_subrange;
use vstd::string::StringExecFns;

use crate::paths::{config_path, parent_dir};
use crate::paths;
use crate::registry::laws;
use crate::registry::vault::{
    copy_section, is_blank, left_over, lines_behind, render, vault_from, validate_alias, Section,
    SectionView, Vault, VaultError, VaultErrorView, VaultView,
};
use crate::registry::vault;
use crate::text::{chars_of, lines_of, same_text, string_of, trim};
use crate::text;

verus! {

/// What a registry starts with that was never written before.
pub const DEFAULT_HEADER: &'static str =
    "# coffer vault registry - maintained by `coffer add` / `coffer remove`,\n# shown by `coffer list`. One section per vault; the section name is the\n# alias for `coffer mount <alias>`. Safe to edit by hand: comments on their\n# own line are kept, `~` at the start of a path means $HOME.";

/// A line that cannot stand in a registry; lines are counted from 1.
#[derive(Debug, PartialEq, Eq)]
pub enum ParseError<S> {
    MalformedHeader { line: usize, raw: S },
    InvalidAlias { line: usize, alias: S },
    DuplicateSection { line: usize, name: S },
}

pub type ParseErrorView = ParseError<Seq<char>>;

impl View for ParseError<String> {
    type V = ParseErrorView;

    open spec fn view(&self) -> ParseErrorView {
        match *self {
            ParseError::MalformedHeader { line, raw } =>
                ParseError::MalformedHeader { line, raw: raw@ },
            ParseError::InvalidAlias { line, alias } =>
                ParseError::InvalidAlias { line, alias: alias@ },
            ParseError::DuplicateSection { line, name } =>
                ParseError::DuplicateSection { line, name: name@ },
        }
    }
}

/// What came of reading the registry file.
#[derive(Debug)]
pub enum ReadOutcome {
    Text(String),
    /// There is no such file.
    NotFound,
    Failed,
}

/// Why there is no registry to work with.
#[derive(Debug, PartialEq, Eq)]
pub enum LoadError {
    /// Neither `$COFFER_CONFIG` nor `$HOME` says where it is.
    NoHome,
    /// The file could not be read.
    Unreadable,
    Malformed(ParseError<String>),
}

/// The registry: the lines before the first section, and the sections.
#[derive(Debug)]
pub struct Config {
    pub path: String,
    pub preamble: Vec<String>,
    pub sections: Vec<Section>,
}

#[verifier::ext_equal]
pub struct ConfigView {
    pub path: Seq<char>,
    pub preamble: Seq<Seq<char>>,
    pub sections: Seq<SectionView>,
}

/// The model of a list of sections.
pub open spec fn sections_view(list: Seq<Section>) -> Seq<SectionView> {
    Seq::new(list.len(), |i: int| list[i]@)
}

impl View for Config {
    type V = ConfigView;

    open spec fn view(&self) -> ConfigView {
        ConfigView {
            path: self.path@,
            preamble: vault::texts_view(self.preamble@),
            sections: sections_view(self.sections@),
        }
    }
}

/// The place of the first section of a name at or after `from`, or how many
/// there are.
pub open spec fn section_place(sections: Seq<SectionView>, name: Seq<char>, from: int) -> int
    decreases sections.len() - from,
{
    if from >= sections.len() {
        sections.len() as int
    } else if sections[from].name == name {
        from
    } else {
        section_place(sections, name, from + 1)
    }
}

pub open spec fn has_section(sections: Seq<SectionView>, name: Seq<char>) -> bool {
    section_place(sections, name, 0) < sections.len()
}

/// What the lines read so far make.
#[verifier::ext_equal]
pub struct Read {
    pub preamble: Seq<Seq<char>>,
    pub sections: Seq<SectionView>,
}

/// One more line. A line that starts with a bracket opens a section; any
/// other belongs to the section before it, or to the preamble.
pub open spec fn with_line(read: Read, raw: Seq<char>, number: usize) -> Result<
    Read,
    ParseErrorView,
> {
    let line = text::trimmed(raw);
    if line.len() > 0 && line.first() == '[' {
        let name = text::trimmed(line.subrange(1, line.len() - 1));
        if line.len() < 2 || line.last() != ']' {
            Err(ParseError::MalformedHeader { line: number, raw })
        } else if !vault::valid_alias(name) {
            Err(ParseError::InvalidAlias { line: number, alias: name })
        } else if has_section(read.sections, name) {
            Err(ParseError::DuplicateSection { line: number, name })
        } else {
            Ok(
                Read {
                    sections: read.sections.push(SectionView { name, lines: Seq::empty() }),
                    ..read
                },
            )
        }
    } else if read.sections.len() > 0 {
        let last = read.sections.last();
        Ok(
            Read {
                sections: read.sections.drop_last().push(
                    SectionView { lines: last.lines.push(raw), ..last },
                ),
                ..read
            },
        )
    } else {
        Ok(Read { preamble: read.preamble.push(raw), ..read })
    }
}

/// What some lines make, up to the first that is wrong.
pub open spec fn read_lines(lines: Seq<Seq<char>>) -> Result<Read, ParseErrorView>
    decreases lines.len(),
{
    if lines.len() == 0 {
        Ok(Read { preamble: Seq::empty(), sections: Seq::empty() })
    } else {
        match read_lines(lines.drop_last()) {
            Ok(read) => with_line(read, lines.last(), lines.len() as usize),
            Err(e) => Err(e),
        }
    }
}

/// The registry that a text holds.
pub open spec fn parsed(path: Seq<char>, s: Seq<char>) -> Result<ConfigView, ParseErrorView> {
    match read_lines(text::lines(s)) {
        Ok(read) => Ok(
            ConfigView { path, preamble: read.preamble, sections: read.sections },
        ),
        Err(e) => Err(e),
    }
}

pub open spec fn parse_result(r: Result<Config, ParseError<String>>) -> Result<
    ConfigView,
    ParseErrorView,
> {
    match r {
        Ok(c) => Ok(c@),
        Err(e) => Err(e@),
    }
}

/// A registry that was never written: the header and no section.
pub open spec fn empty_registry(path: Seq<char>) -> ConfigView {
    ConfigView {
        path,
        preamble: text::lines(DEFAULT_HEADER@).push(Seq::empty()),
        sections: Seq::empty(),
    }
}

/// What reading the file at `path` gives.
pub open spec fn loaded(path: Seq<char>, outcome: ReadOutcome) -> Result<
    ConfigView,
    Option<ParseErrorView>,
> {
    match outcome {
        ReadOutcome::Text(s) => match parsed(path, s@) {
            Ok(c) => Ok(c),
            Err(e) => Err(Some(e)),
        },
        ReadOutcome::NotFound => Ok(empty_registry(path)),
        ReadOutcome::Failed => Err(None),
    }
}

/// Whether a result is what `loaded` says.
pub open spec fn loads(
    r: Result<Config, LoadError>,
    wanted: Result<ConfigView, Option<ParseErrorView>>,
) -> bool {
    match r {
        Ok(c) => wanted == Ok::<ConfigView, Option<ParseErrorView>>(c@),
        Err(LoadError::Malformed(e)) => wanted == Err::<ConfigView, Option<ParseErrorView>>(
            Some(e@),
        ),
        Err(LoadError::Unreadable) => wanted == Err::<ConfigView, Option<ParseErrorView>>(None),
        Err(LoadError::NoHome) => false,
    }
}

/// The vaults of some sections, up to the first that describes none.
pub open spec fn vaults_of(sections: Seq<SectionView>, home: Option<Seq<char>>) -> Result<
    Seq<VaultView>,
    VaultErrorView,
>
    decreases sections.len(),
{
    if sections.len() == 0 {
        Ok(Seq::empty())
    } else {
        match vaults_of(sections.drop_last(), home) {
            Ok(list) => match vault::vault_of(sections.last(), home) {
                Ok(v) => Ok(list.push(v)),
                Err(e) => Err(e),
            },
            Err(e) => Err(e),
        }
    }
}

/// The model of a list of vaults.
pub open spec fn vault_views(list: Seq<Vault>) -> Seq<VaultView> {
    Seq::new(list.len(), |i: int| list[i]@)
}

pub open spec fn vaults_result(r: Result<Vec<Vault>, VaultError<String>>) -> Result<
    Seq<VaultView>,
    VaultErrorView,
> {
    match r {
        Ok(list) => Ok(vault_views(list@)),
        Err(e) => Err(e@),
    }
}

/// The vault of an alias, where there is a section of that name.
pub open spec fn vault_named(c: ConfigView, alias: Seq<char>, home: Option<Seq<char>>) -> Result<
    Option<VaultView>,
    VaultErrorView,
> {
    let i = section_place(c.sections, alias, 0);
    if i < c.sections.len() {
        match vault::vault_of(c.sections[i], home) {
            Ok(v) => Ok(Some(v)),
            Err(e) => Err(e),
        }
    } else {
        Ok(None)
    }
}

pub open spec fn get_result(r: Result<Option<Vault>, VaultError<String>>) -> Result<
    Option<VaultView>,
    VaultErrorView,
> {
    match r {
        Ok(Some(v)) => Ok(Some(v@)),
        Ok(None) => Ok(None),
        Err(e) => Err(e@),
    }
}

/// Some lines, with a blank one behind them unless there is one already.
pub open spec fn separated(lines: Seq<Seq<char>>) -> Seq<Seq<char>> {
    if lines.len() > 0 && !vault::blank(lines.last()) {
        lines.push(Seq::empty())
    } else {
        lines
    }
}

/// The section that describes a vault, in place of an older one.
pub open spec fn replacement(v: VaultView, old: SectionView) -> SectionView {
    SectionView { name: old.name, lines: vault::rendered(v) + vault::kept_behind(old.lines) }
}

/// The registry with a vault in it. A section of the same alias is replaced
/// where it stands, and the comments behind its settings stay; else a section
/// is added at the end, a blank line before it. Every other line stays.
pub open spec fn upserted(c: ConfigView, v: VaultView) -> ConfigView {
    let i = section_place(c.sections, v.alias, 0);
    let added = SectionView { name: v.alias, lines: vault::rendered(v) };
    if i < c.sections.len() {
        ConfigView { sections: c.sections.update(i, replacement(v, c.sections[i])), ..c }
    } else if c.sections.len() > 0 {
        let last = c.sections.last();
        let ended = SectionView { lines: separated(last.lines), ..last };
        ConfigView { sections: c.sections.drop_last().push(ended).push(added), ..c }
    } else {
        ConfigView {
            preamble: separated(c.preamble),
            sections: seq![added],
            ..c
        }
    }
}

/// Some lines put behind all others.
pub open spec fn behind(read: Read, more: Seq<Seq<char>>) -> Read {
    if read.sections.len() > 0 {
        let last = read.sections.last();
        Read {
            sections: read.sections.drop_last().push(
                SectionView { lines: last.lines + more, ..last },
            ),
            ..read
        }
    } else {
        Read { preamble: read.preamble + more, ..read }
    }
}

/// What is left without the sections of a name. The comments of such a section
/// stay where they are: behind the section before it, or in the preamble.
pub open spec fn without(
    preamble: Seq<Seq<char>>,
    sections: Seq<SectionView>,
    alias: Seq<char>,
) -> Read
    decreases sections.len(),
{
    if sections.len() == 0 {
        Read { preamble, sections: Seq::empty() }
    } else {
        let rest = without(preamble, sections.drop_last(), alias);
        let last = sections.last();
        if last.name == alias {
            behind(rest, vault::left_of(last.lines))
        } else {
            Read { sections: rest.sections.push(last), ..rest }
        }
    }
}

/// The registry without the vault of an alias.
pub open spec fn removed(c: ConfigView, alias: Seq<char>) -> ConfigView {
    let rest = without(c.preamble, c.sections, alias);
    ConfigView { path: c.path, preamble: rest.preamble, sections: rest.sections }
}

/// The sections of any other name.
pub open spec fn others(sections: Seq<SectionView>, alias: Seq<char>) -> Seq<SectionView>
    decreases sections.len(),
{
    if sections.len() == 0 {
        Seq::empty()
    } else if sections.last().name == alias {
        others(sections.drop_last(), alias)
    } else {
        others(sections.drop_last(), alias).push(sections.last())
    }
}

/// Whether some lines are others with comments behind them, or blank lines.
pub open spec fn extended(old: Seq<Seq<char>>, new: Seq<Seq<char>>) -> bool {
    &&& old.is_prefix_of(new)
    &&& forall|i: int| old.len() <= i < new.len() ==> vault::comment(#[trigger] new[i])
}

/// Whether all lines of one registry but those of an alias stand where they
/// stood in another, with comments behind them at most.
pub open spec fn others_kept(old: ConfigView, new: ConfigView, alias: Seq<char>) -> bool {
    let kept = others(old.sections, alias);
    &&& extended(old.preamble, new.preamble)
    &&& new.sections.len() == kept.len()
    &&& forall|i: int|
        0 <= i < kept.len() ==> (#[trigger] new.sections[i]).name == kept[i].name && extended(
            kept[i].lines,
            new.sections[i].lines,
        )
}

/// Whether every comment of one registry is in another.
pub open spec fn comments_kept(old: ConfigView, new: ConfigView) -> bool {
    forall|line: Seq<char>|
        vault::note(line) && #[trigger] all_lines(old).contains(line) ==> all_lines(new).contains(
            line,
        )
}

/// The line that opens a section.
pub open spec fn header(name: Seq<char>) -> Seq<char> {
    "["@ + name + "]"@
}

/// The lines of some sections.
pub open spec fn section_lines(sections: Seq<SectionView>) -> Seq<Seq<char>>
    decreases sections.len(),
{
    if sections.len() == 0 {
        Seq::empty()
    } else {
        section_lines(sections.drop_last()).push(header(sections.last().name))
            + sections.last().lines
    }
}

/// All lines of a registry.
pub open spec fn all_lines(c: ConfigView) -> Seq<Seq<char>> {
    c.preamble + section_lines(c.sections)
}

/// Some lines, each with a line feed behind it.
pub open spec fn ended(lines: Seq<Seq<char>>) -> Seq<char>
    decreases lines.len(),
{
    if lines.len() == 0 {
        Seq::empty()
    } else {
        ended(lines.drop_last()) + lines.last().push('\n')
    }
}

/// A text that does not end with an empty line: a run of those would grow by
/// one each time the file is written.
pub open spec fn squeezed(s: Seq<char>) -> Seq<char>
    decreases s.len(),
{
    if s.len() >= 2 && s[s.len() - 1] == '\n' && s[s.len() - 2] == '\n' {
        squeezed(s.drop_last())
    } else {
        s
    }
}

/// The text of a registry.
pub open spec fn text_of(c: ConfigView) -> Seq<char> {
    squeezed(ended(all_lines(c)))
}

/// How the registry file is to be written: `text` into `tmp`, which then
/// takes the place of `path`. A crash in between leaves the old file. An entry
/// can name a password file, so nobody else gets to read it.
#[derive(Debug)]
pub struct SavePlan {
    /// The directory of the file, which may have to be made.
    pub dir: String,
    pub dir_mode: u32,
    pub tmp: String,
    pub tmp_mode: u32,
    pub path: String,
    pub text: String,
}

/// What writing the registry takes.
pub open spec fn saves(plan: SavePlan, c: ConfigView) -> bool {
    &&& plan.dir@ == paths::parent_or_here(c.path)
    &&& plan.dir_mode == 0o700
    &&& plan.tmp@ == c.path + ".tmp"@
    &&& plan.tmp_mode == 0o600
    &&& plan.path@ == c.path
    &&& plan.text@ == text_of(c)
}

fn push_line(out: &mut Vec<char>, line: &str)
    ensures
        final(out)@ == old(out)@ + line@.push('\n'),
{
    let ghost before = out@;
    let mut chars = chars_of(line);
    out.append(&mut chars);
    out.push('\n');
    assert(out@ =~= before + line@.push('\n'));
}

impl Config {
    /// Reads the text of a registry.
    pub fn parse(path: String, content: &str) -> (r: Result<Config, ParseError<String>>)
        ensures
            parse_result(r) == parsed(path@, content@),
            r is Ok ==> r->Ok_0.path@ == path@,
    {
        let chars = chars_of(content);
        let list = lines_of(chars.as_slice());
        let ghost all = text::lines(content@);
        let mut preamble: Vec<String> = Vec::new();
        let mut sections: Vec<Section> = Vec::new();
        let n: usize = list.len();
        let mut i: usize = 0;
        assert(all.take(0) =~= Seq::empty());
        assert(vault::texts_view(preamble@) =~= Seq::empty());
        assert(sections_view(sections@) =~= Seq::empty());
        while i < n
            invariant
                i <= n == list@.len() == all.len(),
                forall|k: int| 0 <= k < list@.len() ==> #[trigger] list@[k]@ == all[k],
                read_lines(all.take(i as int)) == Ok::<Read, ParseErrorView>(
                    Read {
                        preamble: vault::texts_view(preamble@),
                        sections: sections_view(sections@),
                    },
                ),
                all == text::lines(content@),
            decreases n - i,
        {
            let raw = list[i];
            let number: usize = i + 1;
            assert(all.take(i + 1).drop_last() =~= all.take(i as int));
            assert(all.take(i + 1).last() == raw@);
            let line = trim(raw);
            let len: usize = line.len();
            if len > 0 && line[0] == '[' {
                if len < 2 || line[len - 1] != ']' {
                    proof {
                        lemma_first_error(all, i + 1);
                    }
                    return Err(ParseError::MalformedHeader { line: number, raw: string_of(raw) });
                }
                let name = string_of(trim(slice_subrange(line, 1, len - 1)));
                if validate_alias(name.as_str()).is_err() {
                    proof {
                        lemma_first_error(all, i + 1);
                    }
                    return Err(ParseError::InvalidAlias { line: number, alias: name });
                }
                if Self::place_in(&sections, name.as_str()) < sections.len() {
                    proof {
                        lemma_first_error(all, i + 1);
                    }
                    return Err(ParseError::DuplicateSection { line: number, name });
                }
                let ghost before = sections_view(sections@);
                let ghost text_name = name@;
                let opened = Section { name, lines: Vec::new() };
                assert(opened@.lines =~= Seq::empty());
                sections.push(opened);
                assert(sections_view(sections@) =~= before.push(
                    SectionView { name: text_name, lines: Seq::empty() },
                ));
            } else {
                let copy = string_of(raw);
                let ghost before = sections_view(sections@);
                match sections.pop() {
                    Some(mut section) => {
                        let ghost was = section@;
                        section.lines.push(copy);
                        assert(section@.lines =~= was.lines.push(raw@));
                        let ghost rest = sections_view(sections@);
                        sections.push(section);
                        assert(sections_view(sections@) =~= rest.push(section@));
                        assert(before.drop_last() =~= rest);
                    },
                    None => {
                        let ghost was = vault::texts_view(preamble@);
                        preamble.push(copy);
                        assert(vault::texts_view(preamble@) =~= was.push(raw@));
                    },
                }
            }
            i += 1;
        }
        assert(all.take(n as int) =~= all);
        Ok(Config { path, preamble, sections })
    }

    /// The place of the first section of a name, or how many there are.
    fn place_in(sections: &Vec<Section>, name: &str) -> (r: usize)
        ensures
            r == section_place(sections_view(sections@), name@, 0),
            r <= sections@.len(),
    {
        let n: usize = sections.len();
        let mut i: usize = 0;
        while i < n && !same_text(sections[i].name.as_str(), name)
            invariant
                i <= n == sections@.len(),
                section_place(sections_view(sections@), name@, i as int) == section_place(
                    sections_view(sections@),
                    name@,
                    0,
                ),
            decreases n - i,
        {
            i += 1;
        }
        i
    }

    /// The registry that reading the file at `path` gives. A file that does
    /// not exist is an empty registry.
    pub fn load_from(path: String, outcome: ReadOutcome) -> (r: Result<Config, LoadError>)
        ensures
            loads(r, loaded(path@, outcome)),
            r is Ok ==> r->Ok_0.path@ == path@,
    {
        match outcome {
            ReadOutcome::Text(content) => match Config::parse(path, content.as_str()) {
                Ok(config) => Ok(config),
                Err(e) => Err(LoadError::Malformed(e)),
            },
            ReadOutcome::NotFound => {
                let chars = chars_of(DEFAULT_HEADER);
                let list = lines_of(chars.as_slice());
                let ghost all = text::lines(DEFAULT_HEADER@);
                let mut preamble: Vec<String> = Vec::new();
                let n: usize = list.len();
                let mut i: usize = 0;
                while i < n
                    invariant
                        i <= n == list@.len() == all.len(),
                        forall|k: int| 0 <= k < list@.len() ==> #[trigger] list@[k]@ == all[k],
                        preamble@.len() == i,
                        forall|k: int| 0 <= k < i ==> #[trigger] preamble@[k]@ == all[k],
                    decreases n - i,
                {
                    preamble.push(string_of(list[i]));
                    i += 1;
                }
                preamble.push(String::new());
                assert(vault::texts_view(preamble@) =~= all.push(Seq::empty()));
                let sections: Vec<Section> = Vec::new();
                assert(sections_view(sections@) =~= Seq::empty());
                Ok(Config { path, preamble, sections })
            },
            ReadOutcome::Failed => Err(LoadError::Unreadable),
        }
    }

    /// The registry of the user: `outcome` is what came of reading the file
    /// at [`config_path`].
    pub fn load(coffer_config: Option<&str>, home: Option<&str>, outcome: ReadOutcome) -> (r: Result<
        Config,
        LoadError,
    >)
        ensures
            match paths::config_path_of(paths::opt_view(coffer_config), paths::opt_view(home)) {
                Some(path) => loads(r, loaded(path, outcome)) && (r is Ok ==> r->Ok_0.path@ == path),
                None => r matches Err(LoadError::NoHome),
            },
    {
        match config_path(coffer_config, home) {
            Some(path) => Config::load_from(path, outcome),
            None => Err(LoadError::NoHome),
        }
    }

    /// All registered vaults, in the order of the file.
    pub fn vaults(&self, home: Option<&str>) -> (r: Result<Vec<Vault>, VaultError<String>>)
        ensures
            vaults_result(r) == vaults_of(self@.sections, paths::opt_view(home)),
    {
        let ghost all = self@.sections;
        let ghost h = paths::opt_view(home);
        let mut list: Vec<Vault> = Vec::new();
        let n: usize = self.sections.len();
        let mut i: usize = 0;
        assert(all.take(0) =~= Seq::empty());
        assert(vault_views(list@) =~= Seq::empty());
        while i < n
            invariant
                i <= n == self.sections@.len(),
                all == self@.sections,
                h == paths::opt_view(home),
                vaults_of(all.take(i as int), h) == Ok::<Seq<VaultView>, VaultErrorView>(
                    vault_views(list@),
                ),
            decreases n - i,
        {
            assert(all.take(i + 1).drop_last() =~= all.take(i as int));
            assert(all.take(i + 1).last() == self.sections@[i as int]@);
            match vault_from(&self.sections[i], home) {
                Ok(v) => {
                    let ghost before = vault_views(list@);
                    list.push(v);
                    assert(vault_views(list@) =~= before.push(v@));
                },
                Err(e) => {
                    proof {
                        lemma_first_bad(all, h, i + 1);
                    }
                    return Err(e);
                },
            }
            i += 1;
        }
        assert(all.take(n as int) =~= all);
        Ok(list)
    }

    /// The vault of an alias, if it is registered.
    pub fn get(&self, alias: &str, home: Option<&str>) -> (r: Result<
        Option<Vault>,
        VaultError<String>,
    >)
        ensures
            get_result(r) == vault_named(self@, alias@, paths::opt_view(home)),
    {
        let i: usize = Self::place_in(&self.sections, alias);
        if i < self.sections.len() {
            match vault_from(&self.sections[i], home) {
                Ok(v) => Ok(Some(v)),
                Err(e) => Err(e),
            }
        } else {
            Ok(None)
        }
    }

    /// Adds a vault, or replaces the section of the same alias. Tells whether
    /// it replaced one.
    pub fn upsert(&mut self, vault: &Vault) -> (replaced: bool)
        ensures
            replaced == has_section(old(self)@.sections, vault@.alias),
            final(self)@ == upserted(old(self)@, vault@),
            final(self).path@ == old(self).path@,
    {
        let ghost before = self@;
        let mut lines = render(vault);
        let i: usize = Self::place_in(&self.sections, vault.alias.as_str());
        if i < self.sections.len() {
            let ghost old_section = self.sections@[i as int]@;
            let mut kept = lines_behind(&self.sections[i].lines);
            let ghost tail = vault::texts_view(kept@);
            lines.append(&mut kept);
            assert(vault::texts_view(lines@) =~= vault::rendered(vault@) + tail);
            let name = self.sections[i].name.clone();
            let section = Section { name, lines };
            assert(section@ == replacement(vault@, old_section));
            self.sections.set(i, section);
            assert(self@.sections =~= before.sections.update(i as int, section@));
            return true;
        }
        let added = Section { name: vault.alias.clone(), lines };
        match self.sections.pop() {
            Some(mut last) => {
                let ghost was = last@;
                let count: usize = last.lines.len();
                if count > 0 && !is_blank(&last.lines[count - 1]) {
                    last.lines.push(String::new());
                    assert(last@.lines =~= was.lines.push(Seq::empty()));
                }
                assert(last@ == SectionView { lines: separated(was.lines), ..was });
                self.sections.push(last);
                self.sections.push(added);
                assert(self@.sections =~= before.sections.drop_last().push(last@).push(added@));
            },
            None => {
                let count: usize = self.preamble.len();
                if count > 0 && !is_blank(&self.preamble[count - 1]) {
                    self.preamble.push(String::new());
                    assert(vault::texts_view(self.preamble@) =~= before.preamble.push(
                        Seq::empty(),
                    ));
                }
                self.sections.push(added);
                assert(self@.sections =~= seq![added@]);
            },
        }
        assert(self@ == upserted(before, vault@));
        false
    }

    /// Forgets an alias, and keeps the comments that stand in its section.
    /// Tells whether there was a section to remove.
    pub fn remove(&mut self, alias: &str) -> (gone: bool)
        ensures
            gone == has_section(old(self)@.sections, alias@),
            final(self)@ == removed(old(self)@, alias@),
            final(self).path@ == old(self).path@,
            comments_kept(old(self)@, final(self)@),
            others_kept(old(self)@, final(self)@, alias@),
    {
        let ghost before = self@;
        let ghost all = self@.sections;
        let mut sections: Vec<Section> = Vec::new();
        std::mem::swap(&mut sections, &mut self.sections);
        let n: usize = sections.len();
        let mut gone = false;
        let mut i: usize = 0;
        assert(all.take(0) =~= Seq::empty());
        assert(self@.sections =~= Seq::empty());
        while i < n
            invariant
                i <= n == sections@.len(),
                all == sections_view(sections@),
                before.path == self@.path,
                (Read { preamble: self@.preamble, sections: self@.sections }) == without(
                    before.preamble,
                    all.take(i as int),
                    alias@,
                ),
                gone <==> exists|k: int| 0 <= k < i && (#[trigger] all[k]).name == alias@,
            decreases n - i,
        {
            assert(all.take(i + 1).drop_last() =~= all.take(i as int));
            assert(all.take(i + 1).last() == all[i as int]);
            let ghost was = self@;
            if same_text(sections[i].name.as_str(), alias) {
                assert(all[i as int].name == alias@);
                gone = true;
                let mut left = left_over(&sections[i].lines);
                self.put_behind(&mut left);
            } else {
                self.sections.push(copy_section(&sections[i]));
                assert(self@.sections =~= was.sections.push(all[i as int]));
            }
            i += 1;
        }
        assert(all.take(n as int) =~= all);
        proof {
            lemma_section_place(all, alias@, 0);
            laws::remove::removing_keeps_comments(before, alias@);
            laws::remove::removing_keeps_lines(before, alias@);
        }
        gone
    }

    /// Puts lines behind all others.
    fn put_behind(&mut self, more: &mut Vec<String>)
        ensures
            (Read { preamble: final(self)@.preamble, sections: final(self)@.sections }) == behind(
                Read { preamble: old(self)@.preamble, sections: old(self)@.sections },
                vault::texts_view(old(more)@),
            ),
            final(self)@.path == old(self)@.path,
    {
        let ghost was = self@;
        let ghost added = vault::texts_view(more@);
        match self.sections.pop() {
            Some(mut last) => {
                let ghost old_last = last@;
                assert(was.sections.last() == old_last);
                last.lines.append(more);
                assert(last@.lines =~= old_last.lines + added);
                self.sections.push(last);
                assert(self@.sections =~= was.sections.drop_last().push(last@));
            },
            None => {
                self.preamble.append(more);
                assert(self@.preamble =~= was.preamble + added);
                assert(self@.sections =~= was.sections);
            },
        }
    }

    /// The text of the registry file.
    pub fn to_text(&self) -> (s: String)
        ensures
            s@ == text_of(self@),
    {
        let ghost c = self@;
        let mut out: Vec<char> = Vec::new();
        let n: usize = self.preamble.len();
        let mut i: usize = 0;
        assert(c.preamble.take(0) =~= Seq::empty());
        while i < n
            invariant
                i <= n == self.preamble@.len(),
                c == self@,
                out@ == ended(c.preamble.take(i as int)),
            decreases n - i,
        {
            push_line(&mut out, self.preamble[i].as_str());
            assert(c.preamble.take(i + 1).drop_last() =~= c.preamble.take(i as int));
            i += 1;
        }
        assert(c.preamble.take(n as int) =~= c.preamble);
        let m: usize = self.sections.len();
        let mut k: usize = 0;
        assert(c.sections.take(0) =~= Seq::empty());
        assert(c.preamble + section_lines(Seq::<SectionView>::empty()) =~= c.preamble);
        while k < m
            invariant
                k <= m == self.sections@.len(),
                c == self@,
                out@ == ended(c.preamble + section_lines(c.sections.take(k as int))),
            decreases m - k,
        {
            let section = &self.sections[k];
            let ghost done = c.preamble + section_lines(c.sections.take(k as int));
            let ghost sv = section@;
            let mut head = "[".to_owned();
            head.append(section.name.as_str());
            head.append("]");
            push_line(&mut out, head.as_str());
            let ghost opened = done.push(header(sv.name));
            assert(opened.drop_last() =~= done);
            assert(out@ == ended(opened));
            let count: usize = section.lines.len();
            let mut j: usize = 0;
            assert(opened + sv.lines.take(0) =~= opened);
            while j < count
                invariant
                    j <= count == section.lines@.len(),
                    sv == section@,
                    out@ == ended(opened + sv.lines.take(j as int)),
                decreases count - j,
            {
                push_line(&mut out, section.lines[j].as_str());
                assert((opened + sv.lines.take(j + 1)).drop_last() =~= opened + sv.lines.take(
                    j as int,
                ));
                assert((opened + sv.lines.take(j + 1)).last() == sv.lines[j as int]);
                j += 1;
            }
            proof {
                assert(sv.lines.take(count as int) =~= sv.lines);
                let upto = c.sections.take(k + 1);
                assert(upto.drop_last() =~= c.sections.take(k as int));
                assert(upto.last() == sv);
                assert(c.preamble + section_lines(upto) =~= opened + sv.lines);
            }
            k += 1;
        }
        assert(c.sections.take(m as int) =~= c.sections);
        let ghost whole = out@;
        while out.len() >= 2 && out[out.len() - 1] == '\n' && out[out.len() - 2] == '\n'
            invariant
                squeezed(out@) == squeezed(whole),
            decreases out@.len(),
        {
            let ghost was = out@;
            out.pop();
            assert(out@ =~= was.drop_last());
        }
        string_of(out.as_slice())
    }

    /// How to write the registry file.
    pub fn save(&self) -> (plan: SavePlan)
        ensures
            plan.dir@ == paths::parent_or_here(self@.path),
            plan.dir_mode == 0o700,
            plan.tmp@ == self@.path + ".tmp"@,
            plan.tmp_mode == 0o600,
            plan.path@ == self@.path,
            plan.text@ == text_of(self@),
            saves(plan, self@),
    {
        let mut tmp = self.path.clone();
        tmp.append(".tmp");
        SavePlan {
            dir: parent_dir(self.path.as_str()),
            dir_mode: 0o700,
            tmp,
            tmp_mode: 0o600,
            path: self.path.clone(),
            text: self.to_text(),
        }
    }
}

/// What the place of a section is.
pub proof fn lemma_section_place(sections: Seq<SectionView>, name: Seq<char>, from: int)
    requires
        0 <= from <= sections.len(),
    ensures
        from <= section_place(sections, name, from) <= sections.len(),
        forall|i: int|
            from <= i < section_place(sections, name, from) ==> (#[trigger] sections[i]).name
                != name,
        section_place(sections, name, from) < sections.len() ==> sections[section_place(
            sections,
            name,
            from,
        )].name == name,
    decreases sections.len() - from,
{
    if from < sections.len() && sections[from].name != name {
        lemma_section_place(sections, name, from + 1);
    }
}

/// An error in the first lines is the error of all.
pub(crate) proof fn lemma_first_error(lines: Seq<Seq<char>>, i: int)
    requires
        0 <= i <= lines.len(),
        read_lines(lines.take(i)) is Err,
    ensures
        read_lines(lines) == read_lines(lines.take(i)),
    decreases lines.len() - i,
{
    if i < lines.len() {
        assert(lines.take(i + 1).drop_last() =~= lines.take(i));
        lemma_first_error(lines, i + 1);
    } else {
        assert(lines.take(i) =~= lines);
    }
}

proof fn lemma_first_bad(sections: Seq<SectionView>, home: Option<Seq<char>>, i: int)
    requires
        0 <= i <= sections.len(),
        vaults_of(sections.take(i), home) is Err,
    ensures
        vaults_of(sections, home) == vaults_of(sections.take(i), home),
    decreases sections.len() - i,
{
    if i < sections.len() {
        assert(sections.take(i + 1).drop_last() =~= sections.take(i));
        lemma_first_bad(sections, home, i + 1);
    } else {
        assert(sections.take(i) =~= sections);
    }
}

} // verus!
