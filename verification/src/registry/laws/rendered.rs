//! The lines that are written for a vault.
use vstd::prelude::*;

use crate::paths;
use crate::registry::laws::lines;
use crate::registry::vault::{
    ProblemView, SectionView, Settings, SettingsView, VaultErrorView, VaultView,
};
use crate::registry::vault;
use crate::text;

verus! {

/// A value that is written as it is and read back as it was.
pub open spec fn storable_text(s: Seq<char>) -> bool {
    &&& s.len() > 0
    &&& !text::white(s.first())
    &&& !text::white(s.last())
    &&& !vault::quoted(s)
    &&& forall|i: int| 0 <= i < s.len() ==> #[trigger] s[i] != '\n'
}

/// The same for a path, which must not start with a tilde that means the home
/// directory.
pub open spec fn storable_path(s: Seq<char>, home: Option<Seq<char>>) -> bool {
    storable_text(s) && paths::expanded(s, home) == s
}

/// A vault whose values are all such.
pub open spec fn storable(v: VaultView, home: Option<Seq<char>>) -> bool {
    &&& vault::valid_alias(v.alias)
    &&& storable_path(v.file, home)
    &&& storable_path(v.mountpoint, home)
    &&& v.idle_timeout matches Some(s) ==> storable_text(s)
    &&& v.compact_on_idle matches Some(s) ==> storable_text(s)
    &&& v.password_file matches Some(s) ==> storable_path(s, home)
    &&& v.password_command matches Some(s) ==> storable_text(s)
    &&& v.log_file matches Some(s) ==> storable_path(s, home)
}

/// A key as they are written.
spec fn plain_key(key: Seq<char>) -> bool {
    &&& key.len() > 0
    &&& forall|i: int|
        0 <= i < key.len() ==> 'a' as u32 <= (#[trigger] key[i]) as u32 <= 'z' as u32 || key[i] == '_'
}

/// A line that was written for a setting sets it.
proof fn lemma_line_sets(
    st: SettingsView,
    key: Seq<char>,
    value: Seq<char>,
    home: Option<Seq<char>>,
)
    requires
        plain_key(key),
        storable_text(value),
    ensures
        vault::with_line(st, vault::line_for(key, value), home) == vault::with_setting(
            st,
            key,
            value,
            home,
        ),
{
    reveal_strlit(" = ");
    let line = vault::line_for(key, value);
    assert(line.first() == key[0]);
    assert(text::trimmed_start(line) == line);
    assert(line[key.len() as int] == ' ');
    assert(line[key.len() as int + 1] == '=');
    text::lemma_place(line, '=', 0);
    let p = text::place_of(line, '=', 0);
    assert(p == key.len() + 1) by {
        assert forall|i: int| 0 <= i < key.len() + 1 implies #[trigger] line[i] != '=' by {
            if i < key.len() {
                assert(line[i] == key[i]);
            }
        }
    }
    assert(line.take(p) =~= key.push(' '));
    assert(line.skip(p + 1) =~= seq![' '] + value);
    assert(key.last() == key[key.len() - 1]);
    lines::lemma_trim_one(key);
    lines::lemma_trim_one(value);
}

/// A vault whose alias is valid and whose values are one line each.
pub open spec fn one_line_each(v: VaultView) -> bool {
    &&& vault::valid_alias(v.alias)
    &&& lines::one_line(v.file)
    &&& lines::one_line(v.mountpoint)
    &&& v.idle_timeout matches Some(s) ==> lines::one_line(s)
    &&& v.compact_on_idle matches Some(s) ==> lines::one_line(s)
    &&& v.password_file matches Some(s) ==> lines::one_line(s)
    &&& v.password_command matches Some(s) ==> lines::one_line(s)
    &&& v.log_file matches Some(s) ==> lines::one_line(s)
}

/// A line that was written for a setting is one line, opens no section and is
/// no comment.
proof fn lemma_line_plain(key: Seq<char>, value: Seq<char>)
    requires
        plain_key(key),
    ensures
        lines::one_line(value) ==> lines::plain_line(vault::line_for(key, value)),
        !vault::comment(vault::line_for(key, value)),
{
    reveal_strlit(" = ");
    let line = vault::line_for(key, value);
    let blank = " = "@;
    if lines::one_line(value) {
        assert forall|i: int| 0 <= i < line.len() implies #[trigger] line[i] != '\n' by {
            if i < key.len() {
                assert(line[i] == key[i]);
            } else if i < key.len() + 3 {
                assert(line[i] == blank[i - key.len()]);
            } else {
                assert(line[i] == value[i - key.len() - 3]);
            }
        }
    }
    assert(line.first() == key[0]);
    assert(text::trimmed_start(line) == line);
    lines::lemma_end_prefix(line);
}

proof fn lemma_keys()
    ensures
        plain_key("file"@),
        plain_key("mountpoint"@),
        plain_key("idle_timeout"@),
        plain_key("compact_on_idle"@),
        plain_key("password_file"@),
        plain_key("password_command"@),
        plain_key("log_file"@),
        plain_key("read_only"@),
        "file"@.len() == 4,
        "mountpoint"@.len() == 10,
        "idle_timeout"@.len() == 12,
        "compact_on_idle"@.len() == 15,
        "password_file"@.len() == 13,
        "password_command"@.len() == 16,
        "log_file"@.len() == 8,
        "read_only"@.len() == 9,
        storable_text("true"@),
        vault::truth("true"@) == Some(true),
{
    reveal_strlit("file");
    reveal_strlit("mountpoint");
    reveal_strlit("idle_timeout");
    reveal_strlit("compact_on_idle");
    reveal_strlit("password_file");
    reveal_strlit("password_command");
    reveal_strlit("log_file");
    reveal_strlit("read_only");
    reveal_strlit("true");
    assert(vault::lowered("true"@) =~= "true"@);
}

/// One optional line behind others.
proof fn lemma_optional_line(
    lines: Seq<Seq<char>>,
    st: SettingsView,
    key: Seq<char>,
    value: Option<Seq<char>>,
    home: Option<Seq<char>>,
)
    requires
        vault::settings_of(lines, home) == Ok::<SettingsView, ProblemView>(st),
        plain_key(key),
        value matches Some(v) ==> storable_text(v),
    ensures
        vault::settings_of(lines + vault::line_if(key, value), home) == (match value {
            Some(v) => vault::with_setting(st, key, v, home),
            None => Ok(st),
        }),
{
    match value {
        Some(v) => {
            let more = lines + vault::line_if(key, value);
            assert(more.drop_last() =~= lines);
            assert(more.last() == vault::line_for(key, v));
            lemma_line_sets(st, key, v, home);
        },
        None => {
            assert(lines + vault::line_if(key, value) =~= lines);
        },
    }
}

/// The lines that were written for a vault describe it.
pub proof fn rendered_reads_back(v: VaultView, home: Option<Seq<char>>)
    requires
        storable(v, home),
    ensures
        vault::vault_of(SectionView { name: v.alias, lines: vault::rendered(v) }, home) == Ok::<
            VaultView,
            VaultErrorView,
        >(v),
{
    lemma_keys();
    let none = Seq::<Seq<char>>::empty();
    let l1 = none + vault::line_if("file"@, Some(v.file));
    let s1 = Settings { file: Some(v.file), ..vault::no_settings() };
    lemma_optional_line(none, vault::no_settings(), "file"@, Some(v.file), home);
    let l2 = l1 + vault::line_if("mountpoint"@, Some(v.mountpoint));
    let s2 = Settings { mountpoint: Some(v.mountpoint), ..s1 };
    lemma_optional_line(l1, s1, "mountpoint"@, Some(v.mountpoint), home);
    let l3 = l2 + vault::line_if("idle_timeout"@, v.idle_timeout);
    let s3 = Settings { idle_timeout: v.idle_timeout, ..s2 };
    lemma_optional_line(l2, s2, "idle_timeout"@, v.idle_timeout, home);
    let l4 = l3 + vault::line_if("compact_on_idle"@, v.compact_on_idle);
    let s4 = Settings { compact_on_idle: v.compact_on_idle, ..s3 };
    lemma_optional_line(l3, s3, "compact_on_idle"@, v.compact_on_idle, home);
    let l5 = l4 + vault::line_if("password_file"@, v.password_file);
    let s5 = Settings { password_file: v.password_file, ..s4 };
    lemma_optional_line(l4, s4, "password_file"@, v.password_file, home);
    let l6 = l5 + vault::line_if("password_command"@, v.password_command);
    let s6 = Settings { password_command: v.password_command, ..s5 };
    lemma_optional_line(l5, s5, "password_command"@, v.password_command, home);
    let l7 = l6 + vault::line_if("log_file"@, v.log_file);
    let s7 = Settings { log_file: v.log_file, ..s6 };
    lemma_optional_line(l6, s6, "log_file"@, v.log_file, home);
    let flag = if v.read_only {
        Some("true"@)
    } else {
        None
    };
    let l8 = l7 + vault::line_if("read_only"@, flag);
    lemma_optional_line(l7, s7, "read_only"@, flag, home);
    assert(l2 =~= seq![
        vault::line_for("file"@, v.file),
        vault::line_for("mountpoint"@, v.mountpoint),
    ]);
    assert(vault::line_if("read_only"@, flag) =~= (if v.read_only {
        seq![vault::line_for("read_only"@, "true"@)]
    } else {
        Seq::empty()
    }));
    assert(l8 == vault::rendered(v));
}

/// The last line that is written for a vault is a setting.
pub(crate) proof fn lemma_rendered_ends(v: VaultView)
    ensures
        vault::rendered(v).len() > 0,
        !vault::comment(vault::rendered(v).last()),
        !vault::blank(vault::rendered(v).last()),
{
    lemma_keys();
    lemma_line_plain("mountpoint"@, v.mountpoint);
    if let Some(s) = v.idle_timeout {
        lemma_line_plain("idle_timeout"@, s);
    }
    if let Some(s) = v.compact_on_idle {
        lemma_line_plain("compact_on_idle"@, s);
    }
    if let Some(s) = v.password_file {
        lemma_line_plain("password_file"@, s);
    }
    if let Some(s) = v.password_command {
        lemma_line_plain("password_command"@, s);
    }
    if let Some(s) = v.log_file {
        lemma_line_plain("log_file"@, s);
    }
    lemma_line_plain("read_only"@, "true"@);
    if vault::blank(vault::rendered(v).last()) {
        lines::lemma_blank_comment(vault::rendered(v).last());
    }
}

/// Plain lines and an optional one behind them.
proof fn lemma_plain_more(lines: Seq<Seq<char>>, key: Seq<char>, value: Option<Seq<char>>)
    requires
        lines::plain_lines(lines),
        plain_key(key),
        value matches Some(v) ==> lines::one_line(v),
    ensures
        lines::plain_lines(lines + vault::line_if(key, value)),
{
    let more = lines + vault::line_if(key, value);
    if let Some(v) = value {
        lemma_line_plain(key, v);
    }
    assert forall|i: int| 0 <= i < more.len() implies lines::plain_line(#[trigger] more[i]) by {
        if i < lines.len() {
            assert(more[i] == lines[i]);
        } else {
            assert(more[i] == vault::line_for(key, value->Some_0));
        }
    }
}

pub(crate) proof fn lemma_rendered_plain(v: VaultView)
    requires
        one_line_each(v),
    ensures
        lines::plain_lines(vault::rendered(v)),
{
    lemma_keys();
    let none = Seq::<Seq<char>>::empty();
    let l1 = none + vault::line_if("file"@, Some(v.file));
    lemma_plain_more(none, "file"@, Some(v.file));
    let l2 = l1 + vault::line_if("mountpoint"@, Some(v.mountpoint));
    lemma_plain_more(l1, "mountpoint"@, Some(v.mountpoint));
    let l3 = l2 + vault::line_if("idle_timeout"@, v.idle_timeout);
    lemma_plain_more(l2, "idle_timeout"@, v.idle_timeout);
    let l4 = l3 + vault::line_if("compact_on_idle"@, v.compact_on_idle);
    lemma_plain_more(l3, "compact_on_idle"@, v.compact_on_idle);
    let l5 = l4 + vault::line_if("password_file"@, v.password_file);
    lemma_plain_more(l4, "password_file"@, v.password_file);
    let l6 = l5 + vault::line_if("password_command"@, v.password_command);
    lemma_plain_more(l5, "password_command"@, v.password_command);
    let l7 = l6 + vault::line_if("log_file"@, v.log_file);
    lemma_plain_more(l6, "log_file"@, v.log_file);
    let flag = if v.read_only {
        Some("true"@)
    } else {
        None
    };
    lemma_plain_more(l7, "read_only"@, flag);
    assert(l2 =~= seq![
        vault::line_for("file"@, v.file),
        vault::line_for("mountpoint"@, v.mountpoint),
    ]);
    assert(vault::line_if("read_only"@, flag) =~= (if v.read_only {
        seq![vault::line_for("read_only"@, "true"@)]
    } else {
        Seq::empty()
    }));
}

} // verus!
