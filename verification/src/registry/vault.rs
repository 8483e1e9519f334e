//! One section of the registry, and the vault that it describes.
use vstd::prelude::*;
use vstd::slice::slice_subrange;
use vstd::string::StringExecFns;

use crate::paths::expand_tilde;
use crate::paths;
use crate::text::{chars_of, find, is_text, string_of, trim, trim_start};
use crate::text;

verus! {

/// A registered vault.
#[derive(Debug, PartialEq, Eq)]
pub struct Vault {
    pub alias: String,
    pub file: String,
    pub mountpoint: String,
    pub idle_timeout: Option<String>,
    pub compact_on_idle: Option<String>,
    pub password_file: Option<String>,
    pub password_command: Option<String>,
    pub log_file: Option<String>,
    pub read_only: bool,
}

/// The model of a vault.
#[verifier::ext_equal]
pub struct VaultView {
    pub alias: Seq<char>,
    pub file: Seq<char>,
    pub mountpoint: Seq<char>,
    pub idle_timeout: Option<Seq<char>>,
    pub compact_on_idle: Option<Seq<char>>,
    pub password_file: Option<Seq<char>>,
    pub password_command: Option<Seq<char>>,
    pub log_file: Option<Seq<char>>,
    pub read_only: bool,
}

/// The model of an optional text.
pub open spec fn text_view(s: Option<String>) -> Option<Seq<char>> {
    match s {
        Some(t) => Some(t@),
        None => None,
    }
}

impl View for Vault {
    type V = VaultView;

    open spec fn view(&self) -> VaultView {
        VaultView {
            alias: self.alias@,
            file: self.file@,
            mountpoint: self.mountpoint@,
            idle_timeout: text_view(self.idle_timeout),
            compact_on_idle: text_view(self.compact_on_idle),
            password_file: text_view(self.password_file),
            password_command: text_view(self.password_command),
            log_file: text_view(self.log_file),
            read_only: self.read_only,
        }
    }
}

pub fn copy_text(s: &Option<String>) -> (r: Option<String>)
    ensures
        r == *s,
{
    match s {
        Some(t) => Some(t.clone()),
        None => None,
    }
}

impl Clone for Vault {
    fn clone(&self) -> (r: Self)
        ensures
            r == *self,
    {
        Vault {
            alias: self.alias.clone(),
            file: self.file.clone(),
            mountpoint: self.mountpoint.clone(),
            idle_timeout: copy_text(&self.idle_timeout),
            compact_on_idle: copy_text(&self.compact_on_idle),
            password_file: copy_text(&self.password_file),
            password_command: copy_text(&self.password_command),
            log_file: copy_text(&self.log_file),
            read_only: self.read_only,
        }
    }
}

/// What is wrong with a section.
#[derive(Debug, PartialEq, Eq)]
pub enum Problem<S> {
    /// A line that is no `key = value`.
    NotKeyValue(S),
    /// A key with nothing behind it.
    NoValue(S),
    /// `read_only` with something other than yes or no.
    BadReadOnly(S),
    UnknownKey(S),
    MissingFile,
    MissingMountpoint,
}

pub type ProblemView = Problem<Seq<char>>;

impl View for Problem<String> {
    type V = ProblemView;

    open spec fn view(&self) -> ProblemView {
        match *self {
            Problem::NotKeyValue(s) => Problem::NotKeyValue(s@),
            Problem::NoValue(s) => Problem::NoValue(s@),
            Problem::BadReadOnly(s) => Problem::BadReadOnly(s@),
            Problem::UnknownKey(s) => Problem::UnknownKey(s@),
            Problem::MissingFile => Problem::MissingFile,
            Problem::MissingMountpoint => Problem::MissingMountpoint,
        }
    }
}

/// A section that describes no vault, and why.
#[derive(Debug, PartialEq, Eq)]
pub struct VaultError<S> {
    pub section: S,
    pub problem: Problem<S>,
}

pub type VaultErrorView = VaultError<Seq<char>>;

impl View for VaultError<String> {
    type V = VaultErrorView;

    open spec fn view(&self) -> VaultErrorView {
        VaultError { section: self.section@, problem: self.problem@ }
    }
}

/// A section of the registry: its name and the lines behind the header.
#[derive(Debug)]
pub struct Section {
    pub name: String,
    pub lines: Vec<String>,
}

#[verifier::ext_equal]
pub struct SectionView {
    pub name: Seq<char>,
    pub lines: Seq<Seq<char>>,
}

/// The model of a list of texts.
pub open spec fn texts_view(list: Seq<String>) -> Seq<Seq<char>> {
    Seq::new(list.len(), |i: int| list[i]@)
}

impl View for Section {
    type V = SectionView;

    open spec fn view(&self) -> SectionView {
        SectionView { name: self.name@, lines: texts_view(self.lines@) }
    }
}

/// An ASCII letter or digit.
pub open spec fn alphanumeric(c: char) -> bool {
    ||| '0' as u32 <= c as u32 <= '9' as u32
    ||| 'A' as u32 <= c as u32 <= 'Z' as u32
    ||| 'a' as u32 <= c as u32 <= 'z' as u32
}

pub open spec fn alias_char(c: char) -> bool {
    alphanumeric(c) || c == '-' || c == '_' || c == '.'
}

/// An alias starts with a letter or digit and holds only letters, digits,
/// `-`, `_` and `.`.
pub open spec fn valid_alias(s: Seq<char>) -> bool {
    &&& s.len() > 0
    &&& alphanumeric(s.first())
    &&& forall|i: int| 0 <= i < s.len() ==> alias_char(#[trigger] s[i])
}

fn is_alphanumeric(c: char) -> (r: bool)
    ensures
        r == alphanumeric(c),
{
    let n: u32 = c as u32;
    (48 <= n && n <= 57) || (65 <= n && n <= 90) || (97 <= n && n <= 122)
}

fn is_alias(s: &[char]) -> (r: bool)
    ensures
        r == valid_alias(s@),
{
    let n: usize = s.len();
    if n == 0 || !is_alphanumeric(s[0]) {
        return false;
    }
    let mut i: usize = 0;
    while i < n
        invariant
            i <= n == s@.len(),
            forall|k: int| 0 <= k < i ==> alias_char(#[trigger] s@[k]),
        decreases n - i,
    {
        let c: char = s[i];
        if !(is_alphanumeric(c) || c == '-' || c == '_' || c == '.') {
            return false;
        }
        i += 1;
    }
    true
}

/// An alias is a section's name and a bare word on the command line: it can be
/// mistaken neither for a path nor for a flag.
pub fn validate_alias(alias: &str) -> (r: Result<(), String>)
    ensures
        r is Ok <==> valid_alias(alias@),
        r is Err ==> r->Err_0@ == alias@,
{
    let s = chars_of(alias);
    if is_alias(s.as_slice()) {
        Ok(())
    } else {
        Err(alias.to_owned())
    }
}

/// Whether a text stands between two quotes of one sort.
pub open spec fn quoted(s: Seq<char>) -> bool {
    s.len() >= 2 && s.first() == s.last() && (s.first() == '"' || s.first() == '\'')
}

/// A value without the white space around it, and without quotes.
pub open spec fn unquoted(s: Seq<char>) -> Seq<char> {
    let v = text::trimmed(s);
    if quoted(v) {
        v.subrange(1, v.len() - 1)
    } else {
        v
    }
}

pub fn unquote(s: &[char]) -> (r: &[char])
    ensures
        r@ == unquoted(s@),
{
    let v = trim(s);
    let n: usize = v.len();
    if n >= 2 && ((v[0] == '"' && v[n - 1] == '"') || (v[0] == '\'' && v[n - 1] == '\'')) {
        slice_subrange(v, 1, n - 1)
    } else {
        v
    }
}

/// A line that says nothing: blank, or a comment.
pub open spec fn comment(line: Seq<char>) -> bool {
    let t = text::trimmed_start(line);
    t.len() == 0 || t.first() == '#' || t.first() == ';'
}

pub fn is_comment(line: &[char]) -> (r: bool)
    ensures
        r == comment(line@),
{
    let t = trim_start(line);
    t.len() == 0 || t[0] == '#' || t[0] == ';'
}

/// A blank line.
pub open spec fn blank(line: Seq<char>) -> bool {
    text::trimmed(line).len() == 0
}

/// An ASCII capital as its small letter, anything else as it is.
pub open spec fn lower(c: char) -> char {
    if 'A' as u32 <= c as u32 <= 'Z' as u32 {
        (c as u32 + 32) as char
    } else {
        c
    }
}

pub open spec fn lowered(s: Seq<char>) -> Seq<char> {
    Seq::new(s.len(), |i: int| lower(s[i]))
}

/// What a yes or no says, in any of its spellings.
pub open spec fn truth(value: Seq<char>) -> Option<bool> {
    let v = lowered(value);
    if v == "true"@ || v == "yes"@ || v == "on"@ || v == "1"@ {
        Some(true)
    } else if v == "false"@ || v == "no"@ || v == "off"@ || v == "0"@ {
        Some(false)
    } else {
        None
    }
}

fn lower_char(c: char) -> (r: char)
    ensures
        r == lower(c),
{
    match c {
        'A' => 'a',
        'B' => 'b',
        'C' => 'c',
        'D' => 'd',
        'E' => 'e',
        'F' => 'f',
        'G' => 'g',
        'H' => 'h',
        'I' => 'i',
        'J' => 'j',
        'K' => 'k',
        'L' => 'l',
        'M' => 'm',
        'N' => 'n',
        'O' => 'o',
        'P' => 'p',
        'Q' => 'q',
        'R' => 'r',
        'S' => 's',
        'T' => 't',
        'U' => 'u',
        'V' => 'v',
        'W' => 'w',
        'X' => 'x',
        'Y' => 'y',
        'Z' => 'z',
        _ => c,
    }
}

fn to_lower(s: &[char]) -> (r: Vec<char>)
    ensures
        r@ == lowered(s@),
{
    let mut out: Vec<char> = Vec::new();
    let n: usize = s.len();
    let mut i: usize = 0;
    while i < n
        invariant
            i <= n == s@.len(),
            out@.len() == i,
            forall|k: int| 0 <= k < i ==> #[trigger] out@[k] == lower(s@[k]),
        decreases n - i,
    {
        out.push(lower_char(s[i]));
        i += 1;
    }
    assert(out@ =~= lowered(s@));
    out
}

fn parse_truth(value: &[char]) -> (r: Option<bool>)
    ensures
        r == truth(value@),
{
    let v = to_lower(value);
    let v = v.as_slice();
    if is_text(v, "true") || is_text(v, "yes") || is_text(v, "on") || is_text(v, "1") {
        Some(true)
    } else if is_text(v, "false") || is_text(v, "no") || is_text(v, "off") || is_text(v, "0") {
        Some(false)
    } else {
        None
    }
}

/// What the lines of a section have set so far.
#[verifier::ext_equal]
pub struct Settings<S> {
    pub file: Option<S>,
    pub mountpoint: Option<S>,
    pub idle_timeout: Option<S>,
    pub compact_on_idle: Option<S>,
    pub password_file: Option<S>,
    pub password_command: Option<S>,
    pub log_file: Option<S>,
    pub read_only: bool,
}

pub type SettingsView = Settings<Seq<char>>;

impl View for Settings<String> {
    type V = SettingsView;

    open spec fn view(&self) -> SettingsView {
        Settings {
            file: text_view(self.file),
            mountpoint: text_view(self.mountpoint),
            idle_timeout: text_view(self.idle_timeout),
            compact_on_idle: text_view(self.compact_on_idle),
            password_file: text_view(self.password_file),
            password_command: text_view(self.password_command),
            log_file: text_view(self.log_file),
            read_only: self.read_only,
        }
    }
}

/// Nothing set.
pub open spec fn no_settings() -> SettingsView {
    Settings {
        file: None,
        mountpoint: None,
        idle_timeout: None,
        compact_on_idle: None,
        password_file: None,
        password_command: None,
        log_file: None,
        read_only: false,
    }
}

/// What `key = value` sets. Paths may start with a tilde.
pub open spec fn with_setting(
    st: SettingsView,
    key: Seq<char>,
    value: Seq<char>,
    home: Option<Seq<char>>,
) -> Result<SettingsView, ProblemView> {
    let path = paths::expanded(value, home);
    if value.len() == 0 {
        Err(Problem::NoValue(key))
    } else if key == "file"@ {
        Ok(Settings { file: Some(path), ..st })
    } else if key == "mountpoint"@ {
        Ok(Settings { mountpoint: Some(path), ..st })
    } else if key == "idle_timeout"@ {
        Ok(Settings { idle_timeout: Some(value), ..st })
    } else if key == "compact_on_idle"@ {
        Ok(Settings { compact_on_idle: Some(value), ..st })
    } else if key == "password_file"@ {
        Ok(Settings { password_file: Some(path), ..st })
    } else if key == "password_command"@ {
        Ok(Settings { password_command: Some(value), ..st })
    } else if key == "log_file"@ {
        Ok(Settings { log_file: Some(path), ..st })
    } else if key == "read_only"@ {
        match truth(value) {
            Some(b) => Ok(Settings { read_only: b, ..st }),
            None => Err(Problem::BadReadOnly(value)),
        }
    } else {
        Err(Problem::UnknownKey(key))
    }
}

/// What a line sets.
pub open spec fn with_line(st: SettingsView, line: Seq<char>, home: Option<Seq<char>>) -> Result<
    SettingsView,
    ProblemView,
> {
    if comment(line) {
        Ok(st)
    } else {
        match text::split_once(line, '=') {
            Some((key, value)) => with_setting(st, text::trimmed(key), unquoted(value), home),
            None => Err(Problem::NotKeyValue(line)),
        }
    }
}

/// What some lines set, up to the first that is wrong. Of two lines with one
/// key the later wins.
pub open spec fn settings_of(lines: Seq<Seq<char>>, home: Option<Seq<char>>) -> Result<
    SettingsView,
    ProblemView,
>
    decreases lines.len(),
{
    if lines.len() == 0 {
        Ok(no_settings())
    } else {
        match settings_of(lines.drop_last(), home) {
            Ok(st) => with_line(st, lines.last(), home),
            Err(e) => Err(e),
        }
    }
}

/// The vault that a section describes.
pub open spec fn vault_of(section: SectionView, home: Option<Seq<char>>) -> Result<
    VaultView,
    VaultErrorView,
> {
    match settings_of(section.lines, home) {
        Err(problem) => Err(VaultError { section: section.name, problem }),
        Ok(st) => match (st.file, st.mountpoint) {
            (None, _) => Err(
                VaultError { section: section.name, problem: Problem::MissingFile },
            ),
            (Some(_), None) => Err(
                VaultError { section: section.name, problem: Problem::MissingMountpoint },
            ),
            (Some(file), Some(mountpoint)) => Ok(
                VaultView {
                    alias: section.name,
                    file,
                    mountpoint,
                    idle_timeout: st.idle_timeout,
                    compact_on_idle: st.compact_on_idle,
                    password_file: st.password_file,
                    password_command: st.password_command,
                    log_file: st.log_file,
                    read_only: st.read_only,
                },
            ),
        },
    }
}

/// The model of a result.
pub open spec fn settings_result(r: Result<Settings<String>, Problem<String>>) -> Result<
    SettingsView,
    ProblemView,
> {
    match r {
        Ok(st) => Ok(st@),
        Err(e) => Err(e@),
    }
}

pub open spec fn vault_result(r: Result<Vault, VaultError<String>>) -> Result<
    VaultView,
    VaultErrorView,
> {
    match r {
        Ok(v) => Ok(v@),
        Err(e) => Err(e@),
    }
}

fn set(st: Settings<String>, key: &[char], value: &[char], home: Option<&str>) -> (r: Result<
    Settings<String>,
    Problem<String>,
>)
    ensures
        settings_result(r) == with_setting(st@, key@, value@, paths::opt_view(home)),
{
    if value.len() == 0 {
        return Err(Problem::NoValue(string_of(key)));
    }
    let v = string_of(value);
    if is_text(key, "file") {
        Ok(Settings { file: Some(expand_tilde(v.as_str(), home)), ..st })
    } else if is_text(key, "mountpoint") {
        Ok(Settings { mountpoint: Some(expand_tilde(v.as_str(), home)), ..st })
    } else if is_text(key, "idle_timeout") {
        Ok(Settings { idle_timeout: Some(v), ..st })
    } else if is_text(key, "compact_on_idle") {
        Ok(Settings { compact_on_idle: Some(v), ..st })
    } else if is_text(key, "password_file") {
        Ok(Settings { password_file: Some(expand_tilde(v.as_str(), home)), ..st })
    } else if is_text(key, "password_command") {
        Ok(Settings { password_command: Some(v), ..st })
    } else if is_text(key, "log_file") {
        Ok(Settings { log_file: Some(expand_tilde(v.as_str(), home)), ..st })
    } else if is_text(key, "read_only") {
        match parse_truth(value) {
            Some(read_only) => Ok(Settings { read_only, ..st }),
            None => Err(Problem::BadReadOnly(v)),
        }
    } else {
        Err(Problem::UnknownKey(string_of(key)))
    }
}

fn apply_line(st: Settings<String>, line: &String, home: Option<&str>) -> (r: Result<
    Settings<String>,
    Problem<String>,
>)
    ensures
        settings_result(r) == with_line(st@, line@, paths::opt_view(home)),
{
    let chars = chars_of(line.as_str());
    let s = chars.as_slice();
    if is_comment(s) {
        return Ok(st);
    }
    let i: usize = find(s, '=', 0);
    let n: usize = s.len();
    if i >= n {
        return Err(Problem::NotKeyValue(line.clone()));
    }
    let key = slice_subrange(s, 0, i);
    let value = slice_subrange(s, i + 1, n);
    assert(key@ =~= line@.take(i as int));
    assert(value@ =~= line@.skip(i + 1));
    set(st, trim(key), unquote(value), home)
}

/// Reads the vault that a section describes.
pub fn vault_from(section: &Section, home: Option<&str>) -> (r: Result<Vault, VaultError<String>>)
    ensures
        vault_result(r) == vault_of(section@, paths::opt_view(home)),
{
    let ghost all = section@.lines;
    let ghost h = paths::opt_view(home);
    let mut st: Settings<String> = Settings {
        file: None,
        mountpoint: None,
        idle_timeout: None,
        compact_on_idle: None,
        password_file: None,
        password_command: None,
        log_file: None,
        read_only: false,
    };
    let n: usize = section.lines.len();
    let mut i: usize = 0;
    assert(all.take(0) =~= Seq::empty());
    while i < n
        invariant
            i <= n == section.lines@.len(),
            all == section@.lines,
            h == paths::opt_view(home),
            settings_of(all.take(i as int), h) == Ok::<SettingsView, ProblemView>(st@),
        decreases n - i,
    {
        assert(all.take(i + 1).drop_last() =~= all.take(i as int));
        assert(all.take(i + 1).last() == section.lines@[i as int]@);
        match apply_line(st, &section.lines[i], home) {
            Ok(next) => {
                st = next;
            },
            Err(problem) => {
                proof {
                    lemma_first_problem(all, h, i + 1);
                }
                return Err(VaultError { section: section.name.clone(), problem });
            },
        }
        i += 1;
    }
    assert(all.take(n as int) =~= all);
    match (st.file, st.mountpoint) {
        (None, _) => Err(
            VaultError { section: section.name.clone(), problem: Problem::MissingFile },
        ),
        (Some(_), None) => Err(
            VaultError { section: section.name.clone(), problem: Problem::MissingMountpoint },
        ),
        (Some(file), Some(mountpoint)) => Ok(
            Vault {
                alias: section.name.clone(),
                file,
                mountpoint,
                idle_timeout: st.idle_timeout,
                compact_on_idle: st.compact_on_idle,
                password_file: st.password_file,
                password_command: st.password_command,
                log_file: st.log_file,
                read_only: st.read_only,
            },
        ),
    }
}

/// A problem in the first lines is the problem of all.
pub(crate) proof fn lemma_first_problem(lines: Seq<Seq<char>>, home: Option<Seq<char>>, i: int)
    requires
        0 <= i <= lines.len(),
        settings_of(lines.take(i), home) is Err,
    ensures
        settings_of(lines, home) == settings_of(lines.take(i), home),
    decreases lines.len() - i,
{
    if i < lines.len() {
        assert(lines.take(i + 1).drop_last() =~= lines.take(i));
        lemma_first_problem(lines, home, i + 1);
    } else {
        assert(lines.take(i) =~= lines);
    }
}

/// `key = value`.
pub open spec fn line_for(key: Seq<char>, value: Seq<char>) -> Seq<char> {
    key + " = "@ + value
}

/// The line for an optional value, where it is there.
pub open spec fn line_if(key: Seq<char>, value: Option<Seq<char>>) -> Seq<Seq<char>> {
    match value {
        Some(v) => seq![line_for(key, v)],
        None => Seq::empty(),
    }
}

/// The lines that describe a vault.
pub open spec fn rendered(v: VaultView) -> Seq<Seq<char>> {
    seq![line_for("file"@, v.file), line_for("mountpoint"@, v.mountpoint)] + line_if(
        "idle_timeout"@,
        v.idle_timeout,
    ) + line_if("compact_on_idle"@, v.compact_on_idle) + line_if(
        "password_file"@,
        v.password_file,
    ) + line_if("password_command"@, v.password_command) + line_if("log_file"@, v.log_file) + (
    if v.read_only {
        seq![line_for("read_only"@, "true"@)]
    } else {
        Seq::empty()
    })
}

fn setting_line(key: &str, value: &str) -> (line: String)
    ensures
        line@ == line_for(key@, value@),
{
    let mut line = key.to_owned();
    line.append(" = ");
    line.append(value);
    line
}

fn push_setting(lines: &mut Vec<String>, key: &str, value: &Option<String>)
    ensures
        texts_view(final(lines)@) == texts_view(old(lines)@) + line_if(key@, text_view(*value)),
{
    let ghost before = texts_view(lines@);
    if let Some(v) = value {
        let line = setting_line(key, v.as_str());
        lines.push(line);
        assert(texts_view(lines@) =~= before.push(line_for(key@, v@)));
    }
    assert(texts_view(lines@) =~= before + line_if(key@, text_view(*value)));
}

pub fn render(vault: &Vault) -> (lines: Vec<String>)
    ensures
        texts_view(lines@) == rendered(vault@),
{
    let mut lines: Vec<String> = Vec::new();
    lines.push(setting_line("file", vault.file.as_str()));
    lines.push(setting_line("mountpoint", vault.mountpoint.as_str()));
    assert(texts_view(lines@) =~= seq![
        line_for("file"@, vault@.file),
        line_for("mountpoint"@, vault@.mountpoint),
    ]);
    push_setting(&mut lines, "idle_timeout", &vault.idle_timeout);
    push_setting(&mut lines, "compact_on_idle", &vault.compact_on_idle);
    push_setting(&mut lines, "password_file", &vault.password_file);
    push_setting(&mut lines, "password_command", &vault.password_command);
    push_setting(&mut lines, "log_file", &vault.log_file);
    let ghost before = texts_view(lines@);
    if vault.read_only {
        let line = setting_line("read_only", "true");
        lines.push(line);
        assert(texts_view(lines@) =~= before.push(line_for("read_only"@, "true"@)));
    }
    assert(texts_view(lines@) =~= rendered(vault@));
    lines
}

pub fn copy_texts(list: &Vec<String>) -> (r: Vec<String>)
    ensures
        texts_view(r@) == texts_view(list@),
{
    let mut out: Vec<String> = Vec::new();
    let n: usize = list.len();
    let mut i: usize = 0;
    while i < n
        invariant
            i <= n == list@.len(),
            out@.len() == i,
            forall|k: int| 0 <= k < i ==> #[trigger] out@[k]@ == list@[k]@,
        decreases n - i,
    {
        out.push(list[i].clone());
        i += 1;
    }
    assert(texts_view(out@) =~= texts_view(list@));
    out
}

pub fn copy_section(s: &Section) -> (r: Section)
    ensures
        r@ == s@,
{
    Section { name: s.name.clone(), lines: copy_texts(&s.lines) }
}

/// Whether a list ends with a blank line.
pub open spec fn ends_blank(lines: Seq<Seq<char>>) -> bool {
    lines.len() > 0 && blank(lines.last())
}

pub fn is_blank(line: &String) -> (r: bool)
    ensures
        r == blank(line@),
{
    let chars = chars_of(line.as_str());
    trim(chars.as_slice()).len() == 0
}

/// A comment on a line of its own: the line sets nothing, and is not blank.
pub open spec fn note(line: Seq<char>) -> bool {
    comment(line) && !blank(line)
}

/// The comments among some lines.
pub open spec fn notes(lines: Seq<Seq<char>>) -> Seq<Seq<char>>
    decreases lines.len(),
{
    if lines.len() == 0 {
        Seq::empty()
    } else if note(lines.last()) {
        notes(lines.drop_last()).push(lines.last())
    } else {
        notes(lines.drop_last())
    }
}

/// What is left of a section's lines when the section is removed: its
/// comments, and the blank line that separated it from the next section.
pub open spec fn left_of(lines: Seq<Seq<char>>) -> Seq<Seq<char>> {
    if notes(lines).len() > 0 && ends_blank(lines) {
        notes(lines).push(Seq::empty())
    } else {
        notes(lines)
    }
}

/// Some lines without the blank ones at their end.
pub open spec fn unblanked(lines: Seq<Seq<char>>) -> Seq<Seq<char>>
    decreases lines.len(),
{
    if ends_blank(lines) {
        unblanked(lines.drop_last())
    } else {
        lines
    }
}

/// The lines behind the last setting.
pub open spec fn behind_settings(lines: Seq<Seq<char>>) -> Seq<Seq<char>>
    decreases lines.len(),
{
    if lines.len() > 0 && comment(lines.last()) {
        behind_settings(lines.drop_last()).push(lines.last())
    } else {
        Seq::empty()
    }
}

/// What stays of a section's lines when its settings are written anew: the
/// comments behind the last setting, and the blank line that separated the
/// section from the next one.
pub open spec fn kept_behind(lines: Seq<Seq<char>>) -> Seq<Seq<char>> {
    behind_settings(unblanked(lines)) + (if ends_blank(lines) {
        seq![Seq::<char>::empty()]
    } else {
        Seq::empty()
    })
}

fn sets_nothing(line: &String) -> (r: bool)
    ensures
        r == comment(line@),
{
    let chars = chars_of(line.as_str());
    is_comment(chars.as_slice())
}

/// What to keep of a section that is removed.
pub fn left_over(lines: &Vec<String>) -> (r: Vec<String>)
    ensures
        texts_view(r@) == left_of(texts_view(lines@)),
{
    let ghost all = texts_view(lines@);
    let n: usize = lines.len();
    let mut out: Vec<String> = Vec::new();
    let mut i: usize = 0;
    assert(all.take(0) =~= Seq::empty());
    assert(texts_view(out@) =~= Seq::empty());
    while i < n
        invariant
            i <= n == lines@.len(),
            all == texts_view(lines@),
            texts_view(out@) == notes(all.take(i as int)),
        decreases n - i,
    {
        assert(all.take(i + 1).drop_last() =~= all.take(i as int));
        assert(all.take(i + 1).last() == lines@[i as int]@);
        if sets_nothing(&lines[i]) && !is_blank(&lines[i]) {
            let ghost before = texts_view(out@);
            out.push(lines[i].clone());
            assert(texts_view(out@) =~= before.push(all[i as int]));
        }
        i += 1;
    }
    assert(all.take(n as int) =~= all);
    let ghost kept = texts_view(out@);
    assert(kept.len() == out@.len());
    if out.len() > 0 && n > 0 && is_blank(&lines[n - 1]) {
        out.push(String::new());
        assert(texts_view(out@) =~= kept.push(Seq::empty()));
    }
    out
}

/// What to keep of a section that is written anew.
pub fn lines_behind(lines: &Vec<String>) -> (r: Vec<String>)
    ensures
        texts_view(r@) == kept_behind(texts_view(lines@)),
{
    let ghost all = texts_view(lines@);
    let n: usize = lines.len();
    let mut end: usize = n;
    assert(all.take(n as int) =~= all);
    while end > 0 && is_blank(&lines[end - 1])
        invariant
            end <= n == lines@.len(),
            all == texts_view(lines@),
            unblanked(all.take(end as int)) == unblanked(all),
        decreases end,
    {
        assert(all.take(end as int).drop_last() =~= all.take(end - 1));
        assert(all.take(end as int).last() == lines@[end - 1]@);
        end -= 1;
    }
    let ghost upto = all.take(end as int);
    assert(end > 0 ==> upto.last() == lines@[end - 1]@);
    assert(upto == unblanked(all));
    let mut start: usize = end;
    assert(upto.take(end as int) =~= upto);
    assert(upto.skip(end as int) =~= Seq::empty());
    assert(behind_settings(upto) + Seq::<Seq<char>>::empty() =~= behind_settings(upto));
    while start > 0 && sets_nothing(&lines[start - 1])
        invariant
            start <= end <= n == lines@.len(),
            all == texts_view(lines@),
            upto == all.take(end as int),
            behind_settings(upto) == behind_settings(upto.take(start as int)) + upto.skip(
                start as int,
            ),
        decreases start,
    {
        let ghost front = upto.take(start as int);
        assert(front.last() == lines@[start - 1]@);
        assert(front.drop_last() =~= upto.take(start - 1));
        assert(behind_settings(upto.take(start - 1)) + upto.skip(start - 1)
            =~= behind_settings(front) + upto.skip(start as int));
        start -= 1;
    }
    assert(behind_settings(upto.take(start as int)) == Seq::<Seq<char>>::empty()) by {
        if start > 0 {
            assert(upto.take(start as int).last() == lines@[start - 1]@);
        }
    }
    assert(behind_settings(upto) =~= upto.skip(start as int));
    let mut out: Vec<String> = Vec::new();
    let mut i: usize = start;
    while i < end
        invariant
            start <= i <= end <= n == lines@.len(),
            all == texts_view(lines@),
            out@.len() == i - start,
            forall|k: int| 0 <= k < out@.len() ==> #[trigger] out@[k]@ == all[start + k],
        decreases end - i,
    {
        out.push(lines[i].clone());
        i += 1;
    }
    assert(texts_view(out@) =~= upto.skip(start as int));
    if n > 0 && is_blank(&lines[n - 1]) {
        let ghost before = texts_view(out@);
        out.push(String::new());
        assert(texts_view(out@) =~= before + seq![Seq::<char>::empty()]);
    }
    assert(texts_view(out@) =~= kept_behind(all));
    out
}

} // verus!
