//! What the lines of a section say.
use vstd::prelude::*;

use crate::paths;
use crate::registry::vault::{
    Problem, ProblemView, SectionView, Settings, SettingsView, VaultError, VaultErrorView, VaultView,
};
use crate::registry::vault;
use crate::text;

verus! {

/// Whether a text is `bare` from `from` on, with white space around it and none
/// at the ends of it.
pub open spec fn padded(s: Seq<char>, from: int, bare: Seq<char>) -> bool {
    &&& 0 <= from <= from + bare.len() <= s.len()
    &&& s.subrange(from, from + bare.len()) == bare
    &&& forall|i: int| 0 <= i < from ==> text::white(#[trigger] s[i])
    &&& forall|i: int| from + bare.len() <= i < s.len() ==> text::white(#[trigger] s[i])
    &&& bare.len() > 0 ==> !text::white(bare.first()) && !text::white(bare.last())
}

/// There is one such text, the trimmed one.
pub(crate) proof fn lemma_padded(s: Seq<char>, from: int, bare: Seq<char>)
    requires
        padded(s, from, bare),
    ensures
        text::trimmed(s) == bare,
{
    let at = text::trimming_takes_white_space(s);
    let t = text::trimmed(s);
    let m = t.len() as int;
    let n = bare.len() as int;
    if m > 0 {
        assert(t.first() == s[at]);
        assert(t.last() == s[at + m - 1]);
    }
    if n > 0 {
        assert(bare.first() == s[from]);
        assert(bare.last() == s[from + n - 1]);
        assert(at <= from < at + m);
        assert(at <= from + n - 1 < at + m);
    }
    if m > 0 {
        assert(from <= at < from + n);
        assert(from <= at + m - 1 < from + n);
    }
    assert(t =~= bare);
}

/// Whether a line says nothing: nothing but white space is in it, or a `#` or
/// `;` is the first thing that is.
pub open spec fn silent(line: Seq<char>) -> bool {
    exists|k: int| #[trigger] silent_from(line, k)
}

pub open spec fn silent_from(line: Seq<char>, k: int) -> bool {
    &&& 0 <= k <= line.len()
    &&& forall|i: int| 0 <= i < k ==> text::white(#[trigger] line[i])
    &&& k == line.len() || line[k] == '#' || line[k] == ';'
}

/// Such lines are the comments.
pub proof fn comments_are_silent(line: Seq<char>)
    ensures
        vault::comment(line) <==> silent(line),
{
    let at = text::lemma_trimmed_start(line);
    let t = text::trimmed_start(line);
    if at < line.len() {
        assert(t.first() == line[at]);
    }
    if vault::comment(line) {
        assert(silent_from(line, at));
    }
    if silent(line) {
        let k = choose|k: int| #[trigger] silent_from(line, k);
        assert(!text::white('#') && !text::white(';'));
        assert(k == at);
    }
}

/// Whether the first equals sign of a line stands there.
pub open spec fn parted_at(line: Seq<char>, at: int) -> bool {
    &&& 0 <= at < line.len()
    &&& line[at] == '='
    &&& forall|i: int| 0 <= i < at ==> #[trigger] line[i] != '='
}

/// Whether a value stands in a text: between two quotes of one sort, or without
/// any.
pub open spec fn holds(s: Seq<char>, from: int, value: Seq<char>) -> bool {
    ||| padded(s, from, seq!['"'] + value + seq!['"'])
    ||| padded(s, from, seq!['\''] + value + seq!['\''])
    ||| padded(s, from, value) && !(value.len() >= 2 && (value.first() == '"' && value.last() == '"'
        || value.first() == '\'' && value.last() == '\''))
}

/// Whether a line names a key: it stands before the first equals sign.
pub open spec fn names(line: Seq<char>, key: Seq<char>) -> bool {
    exists|at: int, from: int|
        #[trigger] padded(line.take(at), from, key) && parted_at(line, at)
}

/// Whether a line says `key = value`.
pub open spec fn says(line: Seq<char>, key: Seq<char>, value: Seq<char>) -> bool {
    exists|at: int, k: int, v: int| #[trigger] says_at(line, at, k, v, key, value)
}

pub open spec fn says_at(
    line: Seq<char>,
    at: int,
    k: int,
    v: int,
    key: Seq<char>,
    value: Seq<char>,
) -> bool {
    &&& !silent(line)
    &&& parted_at(line, at)
    &&& padded(line.take(at), k, key)
    &&& holds(line.skip(at + 1), v, value)
}

/// Whether a value is a word, in small letters or capitals.
pub open spec fn spelled(value: Seq<char>, word: Seq<char>) -> bool {
    &&& value.len() == word.len()
    &&& forall|i: int|
        0 <= i < value.len() ==> #[trigger] value[i] == word[i] || 'a' as u32 <= word[i] as u32
            <= 'z' as u32 && value[i] as u32 + 32 == word[i] as u32
}

pub open spec fn affirms(value: Seq<char>) -> bool {
    spelled(value, "true"@) || spelled(value, "yes"@) || spelled(value, "on"@) || spelled(
        value,
        "1"@,
    )
}

pub open spec fn denies(value: Seq<char>) -> bool {
    spelled(value, "false"@) || spelled(value, "no"@) || spelled(value, "off"@) || spelled(
        value,
        "0"@,
    )
}

proof fn lemma_lower(c: char, w: char)
    requires
        !('A' as u32 <= w as u32 <= 'Z' as u32),
        c == w || 'a' as u32 <= w as u32 <= 'z' as u32 && c as u32 + 32 == w as u32,
    ensures
        vault::lower(c) == w,
{
}

proof fn lemma_spelled(value: Seq<char>, word: Seq<char>)
    requires
        forall|i: int|
            0 <= i < word.len() ==> !('A' as u32 <= (#[trigger] word[i]) as u32 <= 'Z' as u32),
    ensures
        vault::lowered(value) == word <==> spelled(value, word),
{
    let low = vault::lowered(value);
    if low == word {
        assert forall|i: int| 0 <= i < value.len() implies #[trigger] value[i] == word[i]
            || 'a' as u32 <= word[i] as u32 <= 'z' as u32 && value[i] as u32 + 32
            == word[i] as u32 by {
            assert(low[i] == vault::lower(value[i]));
        }
    }
    if spelled(value, word) {
        assert forall|i: int| 0 <= i < value.len() implies #[trigger] low[i] == word[i] by {
            assert(low[i] == vault::lower(value[i]));
            assert(!('A' as u32 <= word[i] as u32 <= 'Z' as u32));
            lemma_lower(value[i], word[i]);
        }
        assert(low =~= word);
    }
}

/// `true`, `yes`, `on` and `1` mean yes, `false`, `no`, `off` and `0` mean no,
/// however they are capitalised. Nothing else means either.
pub proof fn yes_and_no(value: Seq<char>)
    ensures
        vault::truth(value) == Some(true) <==> affirms(value),
        vault::truth(value) == Some(false) <==> denies(value),
        vault::truth(value) is None <==> !affirms(value) && !denies(value),
{
    reveal_strlit("true");
    reveal_strlit("yes");
    reveal_strlit("on");
    reveal_strlit("1");
    reveal_strlit("false");
    reveal_strlit("no");
    reveal_strlit("off");
    reveal_strlit("0");
    lemma_spelled(value, "true"@);
    lemma_spelled(value, "yes"@);
    lemma_spelled(value, "on"@);
    lemma_spelled(value, "1"@);
    lemma_spelled(value, "false"@);
    lemma_spelled(value, "no"@);
    lemma_spelled(value, "off"@);
    lemma_spelled(value, "0"@);
    let low = vault::lowered(value);
    assert("on"@[0] != "no"@[0]);
    assert("yes"@[0] != "off"@[0]);
    assert("1"@[0] != "0"@[0]);
}

/// Whether a path in the registry means this one: a tilde, alone or with a slash
/// behind it, is the home directory where there is one. Anything else is meant as
/// it is written.
pub open spec fn leads_to(value: Seq<char>, home: Option<Seq<char>>, path: Seq<char>) -> bool {
    if home is Some && home->Some_0.len() > 0 && value.len() > 0 && value[0] == '~' && (value.len()
        == 1 || value[1] == '/') {
        let h = home->Some_0;
        exists|k: int| #[trigger]
            slashes_to(value, k) && path == (if h.last() == '/' {
                h
            } else {
                h.push('/')
            }) + value.skip(k)
    } else {
        path == value
    }
}

/// Whether what follows a tilde is slashes up to there, and no further.
pub open spec fn slashes_to(value: Seq<char>, k: int) -> bool {
    &&& 1 <= k <= value.len()
    &&& forall|i: int| 1 <= i < k ==> #[trigger] value[i] == '/'
    &&& k == value.len() || value[k] != '/'
}

proof fn lemma_slashes(s: Seq<char>) -> (k: int)
    ensures
        0 <= k <= s.len(),
        paths::without_slashes(s) == s.skip(k),
        forall|i: int| 0 <= i < k ==> #[trigger] s[i] == '/',
        k == s.len() || s[k] != '/',
    decreases s.len(),
{
    if s.len() > 0 && s.first() == '/' {
        let rest = s.drop_first();
        let k = lemma_slashes(rest);
        assert(rest.skip(k) =~= s.skip(k + 1));
        assert forall|i: int| 0 <= i < k + 1 implies #[trigger] s[i] == '/' by {
            if i > 0 {
                assert(rest[i - 1] == '/');
            }
        }
        k + 1
    } else {
        assert(s.skip(0) =~= s);
        0
    }
}

/// An expanded path is the one that is meant.
pub proof fn tilde_leads_home(value: Seq<char>, home: Option<Seq<char>>)
    ensures
        leads_to(value, home, paths::expanded(value, home)),
{
    if home is Some && home->Some_0.len() > 0 && value.len() > 0 && value[0] == '~' && (value.len()
        == 1 || value[1] == '/') {
        let h = home->Some_0;
        let rest = value.drop_first();
        let k = lemma_slashes(rest);
        assert(rest.skip(k) =~= value.skip(k + 1));
        assert forall|i: int| 1 <= i < k + 1 implies #[trigger] value[i] == '/' by {
            assert(rest[i - 1] == '/');
        }
        if k < rest.len() {
            assert(rest[k] == value[k + 1]);
            assert(rest.skip(k).first() == rest[k]);
        }
        assert(slashes_to(value, k + 1));
    }
}

/// A key that a section can have.
pub open spec fn known(key: Seq<char>) -> bool {
    ||| key == "file"@
    ||| key == "mountpoint"@
    ||| key == "idle_timeout"@
    ||| key == "compact_on_idle"@
    ||| key == "password_file"@
    ||| key == "password_command"@
    ||| key == "log_file"@
    ||| key == "read_only"@
}

proof fn lemma_keys_differ()
    ensures
        "file"@.len() == 4,
        "mountpoint"@.len() == 10,
        "idle_timeout"@.len() == 12,
        "compact_on_idle"@.len() == 15,
        "password_file"@.len() == 13,
        "password_command"@.len() == 16,
        "log_file"@.len() == 8,
        "read_only"@.len() == 9,
{
    reveal_strlit("file");
    reveal_strlit("mountpoint");
    reveal_strlit("idle_timeout");
    reveal_strlit("compact_on_idle");
    reveal_strlit("password_file");
    reveal_strlit("password_command");
    reveal_strlit("log_file");
    reveal_strlit("read_only");
}

/// What a line that says something sets.
proof fn lemma_says(
    st: SettingsView,
    line: Seq<char>,
    key: Seq<char>,
    value: Seq<char>,
    home: Option<Seq<char>>,
)
    requires
        says(line, key, value),
    ensures
        vault::with_line(st, line, home) == vault::with_setting(st, key, value, home),
{
    comments_are_silent(line);
    let (at, k, v) = choose|at: int, k: int, v: int| #[trigger]
        says_at(line, at, k, v, key, value);
    text::lemma_place(line, '=', 0);
    assert(text::place_of(line, '=', 0) == at) by {
        let p = text::place_of(line, '=', 0);
        if p < at {
            assert(line[p] != '=');
        }
    }
    lemma_padded(line.take(at), k, key);
    lemma_holds(line.skip(at + 1), v, value);
}

proof fn lemma_holds(s: Seq<char>, v: int, value: Seq<char>)
    requires
        holds(s, v, value),
    ensures
        vault::unquoted(s) == value,
{
    let double = seq!['"'] + value + seq!['"'];
    let single = seq!['\''] + value + seq!['\''];
    if padded(s, v, double) {
        lemma_padded(s, v, double);
        assert(double.first() == '"' && double.last() == '"');
        assert(double.subrange(1, double.len() - 1) =~= value);
    } else if padded(s, v, single) {
        lemma_padded(s, v, single);
        assert(single.first() == '\'' && single.last() == '\'');
        assert(single.subrange(1, single.len() - 1) =~= value);
    } else {
        lemma_padded(s, v, value);
    }
}

/// Every line that is not silent and has an equals sign says something.
pub proof fn lines_say_something(line: Seq<char>, at: int) -> (said: (Seq<char>, Seq<char>))
    requires
        !silent(line),
        parted_at(line, at),
    ensures
        says(line, said.0, said.1),
{
    let before = line.take(at);
    let behind = line.skip(at + 1);
    let key = text::trimmed(before);
    let bare = text::trimmed(behind);
    let value = vault::unquoted(behind);
    let k = text::trimming_takes_white_space(before);
    let v = text::trimming_takes_white_space(behind);
    assert(padded(before, k, key));
    assert(padded(behind, v, bare));
    assert(holds(behind, v, value)) by {
        if vault::quoted(bare) {
            if bare.first() == '"' {
                assert(bare =~= seq!['"'] + value + seq!['"']);
            } else {
                assert(bare =~= seq!['\''] + value + seq!['\'']);
            }
        }
    }
    assert(says_at(line, at, k, v, key, value));
    (key, value)
}

/// What a right line sets: that key and nothing else. A path may start with a
/// tilde; any other value is taken as it is written.
pub proof fn line_sets_its_key(
    front: Seq<Seq<char>>,
    line: Seq<char>,
    key: Seq<char>,
    value: Seq<char>,
    home: Option<Seq<char>>,
) -> (path: Seq<char>)
    requires
        vault::settings_of(front, home) is Ok,
        says(line, key, value),
        value.len() > 0,
    ensures
        leads_to(value, home, path),
        ({
            let st = vault::settings_of(front, home)->Ok_0;
            let next = vault::settings_of(front.push(line), home);
            &&& key == "file"@ ==> next == Ok::<SettingsView, ProblemView>(
                Settings { file: Some(path), ..st },
            )
            &&& key == "mountpoint"@ ==> next == Ok::<SettingsView, ProblemView>(
                Settings { mountpoint: Some(path), ..st },
            )
            &&& key == "password_file"@ ==> next == Ok::<SettingsView, ProblemView>(
                Settings { password_file: Some(path), ..st },
            )
            &&& key == "log_file"@ ==> next == Ok::<SettingsView, ProblemView>(
                Settings { log_file: Some(path), ..st },
            )
            &&& key == "idle_timeout"@ ==> next == Ok::<SettingsView, ProblemView>(
                Settings { idle_timeout: Some(value), ..st },
            )
            &&& key == "compact_on_idle"@ ==> next == Ok::<SettingsView, ProblemView>(
                Settings { compact_on_idle: Some(value), ..st },
            )
            &&& key == "password_command"@ ==> next == Ok::<SettingsView, ProblemView>(
                Settings { password_command: Some(value), ..st },
            )
            &&& key == "read_only"@ && affirms(value) ==> next == Ok::<SettingsView, ProblemView>(
                Settings { read_only: true, ..st },
            )
            &&& key == "read_only"@ && denies(value) ==> next == Ok::<SettingsView, ProblemView>(
                Settings { read_only: false, ..st },
            )
        }),
{
    lemma_keys_differ();
    let st = vault::settings_of(front, home)->Ok_0;
    assert(front.push(line).drop_last() =~= front);
    lemma_says(st, line, key, value, home);
    tilde_leads_home(value, home);
    yes_and_no(value);
    paths::expanded(value, home)
}

/// Whether a line is in order: silent, or a key that there is, with a value that
/// fits it.
pub open spec fn right(line: Seq<char>) -> bool {
    ||| silent(line)
    ||| exists|key: Seq<char>, value: Seq<char>| #[trigger]
        says(line, key, value) && value.len() > 0 && known(key) && (key == "read_only"@ ==> affirms(
            value,
        ) || denies(value))
}

/// A line that is in order sets something or nothing, and is no problem.
proof fn lemma_right(st: SettingsView, line: Seq<char>, home: Option<Seq<char>>)
    requires
        right(line),
    ensures
        vault::with_line(st, line, home) is Ok,
{
    comments_are_silent(line);
    if !silent(line) {
        let (key, value) = choose|key: Seq<char>, value: Seq<char>| #[trigger]
            says(line, key, value) && value.len() > 0 && known(key) && (key == "read_only"@
                ==> affirms(value) || denies(value));
        lemma_says(st, line, key, value, home);
        yes_and_no(value);
    }
}

proof fn lemma_right_lines(lines: Seq<Seq<char>>, home: Option<Seq<char>>)
    requires
        forall|i: int| 0 <= i < lines.len() ==> right(#[trigger] lines[i]),
    ensures
        vault::settings_of(lines, home) is Ok,
    decreases lines.len(),
{
    if lines.len() > 0 {
        let front = lines.drop_last();
        assert forall|i: int| 0 <= i < front.len() implies right(#[trigger] front[i]) by {
            assert(front[i] == lines[i]);
        }
        lemma_right_lines(front, home);
        assert(right(lines[lines.len() - 1]));
        lemma_right(vault::settings_of(front, home)->Ok_0, lines.last(), home);
    }
}

/// The first line that is not in order is what is wrong with the section: it has
/// no equals sign, no value, a key that there is not, or neither yes nor no.
pub proof fn first_wrong_line_counts(
    section: SectionView,
    home: Option<Seq<char>>,
    j: int,
    key: Seq<char>,
    value: Seq<char>,
)
    requires
        0 <= j < section.lines.len(),
        forall|i: int| 0 <= i < j ==> right(#[trigger] section.lines[i]),
    ensures
        ({
            let line = section.lines[j];
            let r = vault::vault_of(section, home);
            let name = section.name;
            &&& !silent(line) && (forall|i: int| 0 <= i < line.len() ==> #[trigger] line[i] != '=')
                ==> r == Err::<VaultView, VaultErrorView>(
                VaultError { section: name, problem: Problem::NotKeyValue(line) },
            )
            &&& says(line, key, value) && value.len() == 0 ==> r == Err::<
                VaultView,
                VaultErrorView,
            >(VaultError { section: name, problem: Problem::NoValue(key) })
            &&& says(line, key, value) && value.len() > 0 && !known(key) ==> r == Err::<
                VaultView,
                VaultErrorView,
            >(VaultError { section: name, problem: Problem::UnknownKey(key) })
            &&& says(line, key, value) && value.len() > 0 && key == "read_only"@ && !affirms(value)
                && !denies(value) ==> r == Err::<VaultView, VaultErrorView>(
                VaultError { section: name, problem: Problem::BadReadOnly(value) },
            )
        }),
{
    lemma_keys_differ();
    let lines = section.lines;
    let line = lines[j];
    let front = lines.take(j);
    assert forall|i: int| 0 <= i < front.len() implies right(#[trigger] front[i]) by {
        assert(front[i] == lines[i]);
    }
    lemma_right_lines(front, home);
    let st = vault::settings_of(front, home)->Ok_0;
    let upto = lines.take(j + 1);
    assert(upto.drop_last() =~= front);
    assert(upto.last() == line);
    comments_are_silent(line);
    text::lemma_place(line, '=', 0);
    yes_and_no(value);
    if says(line, key, value) {
        lemma_says(st, line, key, value, home);
    }
    if vault::settings_of(upto, home) is Err {
        vault::lemma_first_problem(lines, home, j + 1);
    }
}

/// Whether two settings agree on a key.
spec fn agree(a: SettingsView, b: SettingsView, key: Seq<char>) -> bool {
    &&& key == "file"@ ==> a.file == b.file
    &&& key == "mountpoint"@ ==> a.mountpoint == b.mountpoint
    &&& key == "idle_timeout"@ ==> a.idle_timeout == b.idle_timeout
    &&& key == "compact_on_idle"@ ==> a.compact_on_idle == b.compact_on_idle
    &&& key == "password_file"@ ==> a.password_file == b.password_file
    &&& key == "password_command"@ ==> a.password_command == b.password_command
    &&& key == "log_file"@ ==> a.log_file == b.log_file
    &&& key == "read_only"@ ==> a.read_only == b.read_only
}

/// A line that does not name a key leaves what was set of it.
proof fn lemma_other_line(
    st: SettingsView,
    line: Seq<char>,
    home: Option<Seq<char>>,
    key: Seq<char>,
)
    requires
        silent(line) || !names(line, key),
        vault::with_line(st, line, home) is Ok,
    ensures
        agree(st, vault::with_line(st, line, home)->Ok_0, key),
{
    lemma_keys_differ();
    comments_are_silent(line);
    text::lemma_place(line, '=', 0);
    if !silent(line) {
        let at = text::place_of(line, '=', 0);
        let before = line.take(at);
        let k = text::trimming_takes_white_space(before);
        let other = text::trimmed(before);
        assert(parted_at(line, at));
        assert(padded(before, k, other));
        assert(names(line, other));
        assert(other != key);
    }
}

proof fn lemma_other_lines(
    lines: Seq<Seq<char>>,
    home: Option<Seq<char>>,
    key: Seq<char>,
    j: int,
)
    requires
        0 <= j <= lines.len(),
        vault::settings_of(lines, home) is Ok,
        forall|i: int|
            j <= i < lines.len() ==> silent(#[trigger] lines[i]) || !names(lines[i], key),
    ensures
        vault::settings_of(lines.take(j), home) is Ok,
        agree(
            vault::settings_of(lines.take(j), home)->Ok_0,
            vault::settings_of(lines, home)->Ok_0,
            key,
        ),
    decreases lines.len(),
{
    if j < lines.len() {
        let front = lines.drop_last();
        assert forall|i: int| j <= i < front.len() implies silent(#[trigger] front[i]) || !names(
            front[i],
            key,
        ) by {
            assert(front[i] == lines[i]);
        }
        lemma_other_lines(front, home, key, j);
        assert(front.take(j) =~= lines.take(j));
        let last = lines[lines.len() - 1];
        assert(silent(last) || !names(last, key));
        lemma_other_line(vault::settings_of(front, home)->Ok_0, last, home, key);
    } else {
        assert(lines.take(j) =~= lines);
    }
}

/// Of the lines with one key the last is what counts, and it counts wherever it
/// stands in the section. A path is the one that it leads to.
pub proof fn last_line_counts(
    section: SectionView,
    home: Option<Seq<char>>,
    j: int,
    key: Seq<char>,
    value: Seq<char>,
) -> (path: Seq<char>)
    requires
        vault::vault_of(section, home) is Ok,
        0 <= j < section.lines.len(),
        says(section.lines[j], key, value),
        forall|i: int|
            j < i < section.lines.len() ==> silent(#[trigger] section.lines[i]) || !names(
                section.lines[i],
                key,
            ),
    ensures
        leads_to(value, home, path),
        ({
            let v = vault::vault_of(section, home)->Ok_0;
            &&& value.len() > 0
            &&& known(key)
            &&& v.alias == section.name
            &&& key == "file"@ ==> v.file == path
            &&& key == "mountpoint"@ ==> v.mountpoint == path
            &&& key == "password_file"@ ==> v.password_file == Some(path)
            &&& key == "log_file"@ ==> v.log_file == Some(path)
            &&& key == "idle_timeout"@ ==> v.idle_timeout == Some(value)
            &&& key == "compact_on_idle"@ ==> v.compact_on_idle == Some(value)
            &&& key == "password_command"@ ==> v.password_command == Some(value)
            &&& key == "read_only"@ ==> (v.read_only <==> affirms(value)) && (!v.read_only
                <==> denies(value))
        }),
{
    lemma_keys_differ();
    let lines = section.lines;
    let line = lines[j];
    lemma_other_lines(lines, home, key, j + 1);
    let upto = lines.take(j + 1);
    let front = lines.take(j);
    assert(upto.drop_last() =~= front);
    assert(upto.last() == line);
    let st = vault::settings_of(front, home)->Ok_0;
    lemma_says(st, line, key, value, home);
    yes_and_no(value);
    tilde_leads_home(value, home);
    paths::expanded(value, home)
}

/// What no line names is not set; and every vault has a file and a mountpoint.
pub proof fn unnamed_is_unset(section: SectionView, home: Option<Seq<char>>, key: Seq<char>)
    requires
        vault::vault_of(section, home) is Ok,
        forall|i: int|
            0 <= i < section.lines.len() ==> silent(#[trigger] section.lines[i]) || !names(
                section.lines[i],
                key,
            ),
    ensures
        ({
            let v = vault::vault_of(section, home)->Ok_0;
            &&& key != "file"@
            &&& key != "mountpoint"@
            &&& key == "password_file"@ ==> v.password_file is None
            &&& key == "log_file"@ ==> v.log_file is None
            &&& key == "idle_timeout"@ ==> v.idle_timeout is None
            &&& key == "compact_on_idle"@ ==> v.compact_on_idle is None
            &&& key == "password_command"@ ==> v.password_command is None
            &&& key == "read_only"@ ==> !v.read_only
        }),
{
    lemma_other_lines(section.lines, home, key, 0);
    assert(section.lines.take(0) =~= Seq::empty());
}

proof fn lemma_named_is_set(
    lines: Seq<Seq<char>>,
    home: Option<Seq<char>>,
    key: Seq<char>,
    j: int,
)
    requires
        0 <= j < lines.len(),
        vault::settings_of(lines, home) is Ok,
        !silent(lines[j]),
        names(lines[j], key),
    ensures
        key == "file"@ ==> vault::settings_of(lines, home)->Ok_0.file is Some,
        key == "mountpoint"@ ==> vault::settings_of(lines, home)->Ok_0.mountpoint is Some,
    decreases lines.len(),
{
    lemma_keys_differ();
    let front = lines.drop_last();
    let st = vault::settings_of(front, home)->Ok_0;
    if j < front.len() {
        assert(front[j] == lines[j]);
        lemma_named_is_set(front, home, key, j);
    } else {
        let line = lines[j];
        comments_are_silent(line);
        let (at, from) = choose|at: int, from: int|
            #[trigger] padded(line.take(at), from, key) && parted_at(line, at);
        text::lemma_place(line, '=', 0);
        assert(text::place_of(line, '=', 0) == at) by {
            let p = text::place_of(line, '=', 0);
            if p < at {
                assert(line[p] != '=');
            }
        }
        lemma_padded(line.take(at), from, key);
    }
}

/// A section whose lines are in order describes a vault exactly where it names
/// a file and a mountpoint. The file is missed first.
pub proof fn right_lines_make_a_vault(section: SectionView, home: Option<Seq<char>>)
    requires
        forall|i: int| 0 <= i < section.lines.len() ==> right(#[trigger] section.lines[i]),
    ensures
        ({
            let r = vault::vault_of(section, home);
            let file = exists|i: int|
                0 <= i < section.lines.len() && !silent(#[trigger] section.lines[i]) && names(
                    section.lines[i],
                    "file"@,
                );
            let mountpoint = exists|i: int|
                0 <= i < section.lines.len() && !silent(#[trigger] section.lines[i]) && names(
                    section.lines[i],
                    "mountpoint"@,
                );
            &&& r is Ok <==> file && mountpoint
            &&& !file ==> r == Err::<VaultView, VaultErrorView>(
                VaultError { section: section.name, problem: Problem::MissingFile },
            )
            &&& file && !mountpoint ==> r == Err::<VaultView, VaultErrorView>(
                VaultError { section: section.name, problem: Problem::MissingMountpoint },
            )
        }),
{
    let lines = section.lines;
    lemma_right_lines(lines, home);
    assert(lines.take(0) =~= Seq::empty());
    if exists|i: int|
        0 <= i < lines.len() && !silent(#[trigger] lines[i]) && names(lines[i], "file"@) {
        let i = choose|i: int|
            0 <= i < lines.len() && !silent(#[trigger] lines[i]) && names(lines[i], "file"@);
        lemma_named_is_set(lines, home, "file"@, i);
    } else {
        lemma_other_lines(lines, home, "file"@, 0);
    }
    if exists|i: int|
        0 <= i < lines.len() && !silent(#[trigger] lines[i]) && names(lines[i], "mountpoint"@) {
        let i = choose|i: int|
            0 <= i < lines.len() && !silent(#[trigger] lines[i]) && names(lines[i], "mountpoint"@);
        lemma_named_is_set(lines, home, "mountpoint"@, i);
    } else {
        lemma_other_lines(lines, home, "mountpoint"@, 0);
    }
}

/// A path that does not start with a tilde that would mean the home directory.
pub open spec fn no_tilde(path: Seq<char>) -> bool {
    !(path.len() > 0 && path[0] == '~' && (path.len() == 1 || path[1] == '/'))
}

pub open spec fn no_tilde_if(path: Option<Seq<char>>) -> bool {
    path is Some ==> no_tilde(path->Some_0)
}

proof fn lemma_no_tilde(lines: Seq<Seq<char>>, home: Seq<char>)
    requires
        home.len() > 0,
        home[0] == '/',
        vault::settings_of(lines, Some(home)) is Ok,
    ensures
        ({
            let st = vault::settings_of(lines, Some(home))->Ok_0;
            &&& no_tilde_if(st.file)
            &&& no_tilde_if(st.mountpoint)
            &&& no_tilde_if(st.password_file)
            &&& no_tilde_if(st.log_file)
        }),
    decreases lines.len(),
{
    if lines.len() > 0 {
        lemma_no_tilde(lines.drop_last(), home);
        let line = lines.last();
        if let Some((_, value)) = text::split_once(line, '=') {
            let v = vault::unquoted(value);
            let path = paths::expanded(v, Some(home));
            tilde_leads_home(v, Some(home));
            assert(no_tilde(path)) by {
                if !no_tilde(v) {
                    let k = choose|k: int| #[trigger]
                        slashes_to(v, k) && path == (if home.last() == '/' {
                            home
                        } else {
                            home.push('/')
                        }) + v.skip(k);
                    assert(path[0] == home[0]);
                }
            }
        }
    }
}

/// Where the home directory is known, no path of a vault is left with a tilde
/// for it: neither the container nor the mountpoint, nor the password file, nor
/// the log.
pub proof fn no_path_keeps_its_tilde(section: SectionView, home: Seq<char>)
    requires
        home.len() > 0,
        home[0] == '/',
        vault::vault_of(section, Some(home)) is Ok,
    ensures
        ({
            let v = vault::vault_of(section, Some(home))->Ok_0;
            &&& no_tilde(v.file)
            &&& no_tilde(v.mountpoint)
            &&& no_tilde_if(v.password_file)
            &&& no_tilde_if(v.log_file)
        }),
{
    lemma_no_tilde(section.lines, home);
}

/// The paths of a section that are written with `~/`: the home directory with
/// the rest behind it.
pub proof fn tilde_paths_are_read(
    front: Seq<Seq<char>>,
    rest: Seq<char>,
    home: Seq<char>,
)
    requires
        home.len() > 0,
        home.last() != '/',
        rest.len() > 0,
        rest.first() != '/',
        !text::white(rest.last()),
        vault::settings_of(front, Some(home)) is Ok,
    ensures
        ({
            let st = vault::settings_of(front, Some(home))->Ok_0;
            let path = home + "/"@ + rest;
            &&& vault::settings_of(front.push("file = ~/"@ + rest), Some(home)) == Ok::<
                SettingsView,
                ProblemView,
            >(Settings { file: Some(path), ..st })
            &&& vault::settings_of(front.push("mountpoint = ~/"@ + rest), Some(home)) == Ok::<
                SettingsView,
                ProblemView,
            >(Settings { mountpoint: Some(path), ..st })
            &&& vault::settings_of(front.push("password_file = ~/"@ + rest), Some(home)) == Ok::<
                SettingsView,
                ProblemView,
            >(Settings { password_file: Some(path), ..st })
            &&& vault::settings_of(front.push("log_file = ~/"@ + rest), Some(home)) == Ok::<
                SettingsView,
                ProblemView,
            >(Settings { log_file: Some(path), ..st })
        }),
{
    lemma_keys_differ();
    reveal_strlit("file = ~/");
    reveal_strlit("mountpoint = ~/");
    reveal_strlit("password_file = ~/");
    reveal_strlit("log_file = ~/");
    reveal_strlit("file");
    reveal_strlit("mountpoint");
    reveal_strlit("password_file");
    reveal_strlit("log_file");
    assert("file = ~/"@ =~= "file"@ + seq![' ', '=', ' ', '~', '/']);
    assert("mountpoint = ~/"@ =~= "mountpoint"@ + seq![' ', '=', ' ', '~', '/']);
    assert("password_file = ~/"@ =~= "password_file"@ + seq![' ', '=', ' ', '~', '/']);
    assert("log_file = ~/"@ =~= "log_file"@ + seq![' ', '=', ' ', '~', '/']);
    lemma_tilde_line(front, "file"@, rest, home);
    lemma_tilde_line(front, "mountpoint"@, rest, home);
    lemma_tilde_line(front, "password_file"@, rest, home);
    lemma_tilde_line(front, "log_file"@, rest, home);
}

proof fn lemma_tilde_line(front: Seq<Seq<char>>, key: Seq<char>, rest: Seq<char>, home: Seq<char>)
    requires
        home.len() > 0,
        home.last() != '/',
        rest.len() > 0,
        rest.first() != '/',
        !text::white(rest.last()),
        vault::settings_of(front, Some(home)) is Ok,
        key.len() > 0,
        forall|i: int| 0 <= i < key.len() ==> key[i] == '_' || 'a' as u32 <= (#[trigger] key[i]) as u32
            <= 'z' as u32,
    ensures
        vault::settings_of(front.push(key + seq![' ', '=', ' ', '~', '/'] + rest), Some(home))
            == vault::with_setting(
            vault::settings_of(front, Some(home))->Ok_0,
            key,
            seq!['~', '/'] + rest,
            Some(home),
        ),
        paths::expanded(seq!['~', '/'] + rest, Some(home)) == home + "/"@ + rest,
{
    let middle = seq![' ', '=', ' ', '~', '/'];
    let line = key + middle + rest;
    let value = seq!['~', '/'] + rest;
    let n = key.len() as int;
    assert(front.push(line).drop_last() =~= front);
    assert(line[0] == key[0]);
    assert(!silent(line)) by {
        if silent(line) {
            let k = choose|k: int| #[trigger] silent_from(line, k);
            if k > 0 {
                assert(text::white(line[0]));
            }
        }
    }
    assert(line[n] == ' ' && line[n + 1] == '=');
    assert(parted_at(line, n + 1)) by {
        assert forall|i: int| 0 <= i < n + 1 implies #[trigger] line[i] != '=' by {
            if i < n {
                assert(line[i] == key[i]);
            }
        }
    }
    let before = line.take(n + 1);
    assert(before.subrange(0, n) =~= key);
    assert(key.last() == key[n - 1]);
    assert(padded(before, 0, key)) by {
        assert forall|i: int| n <= i < before.len() implies text::white(#[trigger] before[i]) by {
            assert(i == n);
        }
    }
    let behind = line.skip(n + 2);
    assert(behind =~= seq![' '] + value);
    assert(behind.subrange(1, value.len() as int + 1) =~= value);
    assert(value.last() == rest.last());
    assert(padded(behind, 1, value));
    assert(value.first() == '~');
    assert(says_at(line, n + 1, 0, 1, key, value));
    lemma_says(vault::settings_of(front, Some(home))->Ok_0, line, key, value, Some(home));
    tilde_leads_home(value, Some(home));
    let path = paths::expanded(value, Some(home));
    reveal_strlit("/");
    let k = choose|k: int| #[trigger]
        slashes_to(value, k) && path == (if home.last() == '/' {
            home
        } else {
            home.push('/')
        }) + value.skip(k);
    assert(k == 2) by {
        assert(value[1] == '/');
        assert(value[2] == rest[0]);
        if k > 2 {
            assert(value[2] == '/');
        }
    }
    assert(value.skip(2) =~= rest);
    assert(path =~= home + "/"@ + rest);
}

/// An alias is made of letters, digits, `-`, `_` and `.`, and the first of them
/// is a letter or a digit.
pub proof fn aliases_are_words(s: Seq<char>)
    ensures
        vault::valid_alias(s) <==> s.len() > 0 && s[0] != '-' && s[0] != '_' && s[0] != '.' && (
        forall|i: int|
            0 <= i < s.len() ==> {
                let n = (#[trigger] s[i]) as u32;
                0x30 <= n <= 0x39 || 0x41 <= n <= 0x5a || 0x61 <= n <= 0x7a || s[i] == '-' || s[i]
                    == '_' || s[i] == '.'
            }),
{
    if s.len() > 0 {
        assert(s.first() == s[0]);
    }
    if vault::valid_alias(s) {
        assert forall|i: int| 0 <= i < s.len() implies {
            let n = (#[trigger] s[i]) as u32;
            0x30 <= n <= 0x39 || 0x41 <= n <= 0x5a || 0x61 <= n <= 0x7a || s[i] == '-' || s[i]
                == '_' || s[i] == '.'
        } by {
            assert(vault::alias_char(s[i]));
        }
    }
}

} // verus!
