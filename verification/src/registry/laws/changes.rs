//! What any number of changes keeps.
use vstd::prelude::*;

use crate::registry::config::ConfigView;
use crate::registry::config;
use crate::registry::laws::{form, lines, register, remove, rendered, written};
use crate::registry::vault::{SectionView, VaultView};
use crate::registry::vault;
use crate::text;

verus! {

/// A registry that reads back as it is written: it is well formed, and no line
/// of it ends with a carriage return.
pub open spec fn steady(c: ConfigView) -> bool {
    form::well_formed(c) && written::no_returns(config::all_lines(c))
}

/// A vault of which no value ends with a carriage return.
pub open spec fn no_return_in(v: VaultView) -> bool {
    &&& written::no_return(v.file)
    &&& written::no_return(v.mountpoint)
    &&& v.idle_timeout matches Some(s) ==> written::no_return(s)
    &&& v.compact_on_idle matches Some(s) ==> written::no_return(s)
    &&& v.password_file matches Some(s) ==> written::no_return(s)
    &&& v.password_command matches Some(s) ==> written::no_return(s)
    &&& v.log_file matches Some(s) ==> written::no_return(s)
}

/// A line that is written for a value ends as the value does.
proof fn lemma_line_end(key: Seq<char>, value: Seq<char>)
    requires
        written::no_return(value),
    ensures
        written::no_return(vault::line_for(key, value)),
{
    reveal_strlit(" = ");
    let line = vault::line_for(key, value);
    if value.len() > 0 {
        assert(line.last() == value.last());
    } else {
        assert(line.last() == " = "@[2]);
    }
}

proof fn lemma_more_ends(some: Seq<Seq<char>>, key: Seq<char>, value: Option<Seq<char>>)
    requires
        written::no_returns(some),
        value matches Some(s) ==> written::no_return(s),
    ensures
        written::no_returns(some + vault::line_if(key, value)),
{
    let all = some + vault::line_if(key, value);
    if let Some(s) = value {
        lemma_line_end(key, s);
    }
    assert forall|i: int| 0 <= i < all.len() implies written::no_return(#[trigger] all[i]) by {
        if i < some.len() {
            assert(all[i] == some[i]);
        } else {
            assert(all[i] == vault::line_for(key, value->Some_0));
        }
    }
}

proof fn lemma_rendered_line_ends(v: VaultView)
    requires
        no_return_in(v),
    ensures
        written::no_returns(vault::rendered(v)),
{
    reveal_strlit("true");
    let none = Seq::<Seq<char>>::empty();
    let l1 = none + vault::line_if("file"@, Some(v.file));
    lemma_more_ends(none, "file"@, Some(v.file));
    let l2 = l1 + vault::line_if("mountpoint"@, Some(v.mountpoint));
    lemma_more_ends(l1, "mountpoint"@, Some(v.mountpoint));
    let l3 = l2 + vault::line_if("idle_timeout"@, v.idle_timeout);
    lemma_more_ends(l2, "idle_timeout"@, v.idle_timeout);
    let l4 = l3 + vault::line_if("compact_on_idle"@, v.compact_on_idle);
    lemma_more_ends(l3, "compact_on_idle"@, v.compact_on_idle);
    let l5 = l4 + vault::line_if("password_file"@, v.password_file);
    lemma_more_ends(l4, "password_file"@, v.password_file);
    let l6 = l5 + vault::line_if("password_command"@, v.password_command);
    lemma_more_ends(l5, "password_command"@, v.password_command);
    let l7 = l6 + vault::line_if("log_file"@, v.log_file);
    lemma_more_ends(l6, "log_file"@, v.log_file);
    let flag = if v.read_only {
        Some("true"@)
    } else {
        None
    };
    lemma_more_ends(l7, "read_only"@, flag);
    assert(l2 =~= seq![
        vault::line_for("file"@, v.file),
        vault::line_for("mountpoint"@, v.mountpoint),
    ]);
    assert(vault::line_if("read_only"@, flag) =~= (if v.read_only {
        seq![vault::line_for("read_only"@, "true"@)]
    } else {
        Seq::empty()
    }));
}

/// Registering a vault brings no carriage return to the end of a line, as long
/// as none of its values ends with one.
pub proof fn registering_keeps_line_ends(c: ConfigView, v: VaultView)
    requires
        written::no_returns(config::all_lines(c)),
        no_return_in(v),
    ensures
        written::no_returns(config::all_lines(config::upserted(c, v))),
{
    let old = config::all_lines(c);
    let new = config::all_lines(config::upserted(c, v));
    let own = vault::rendered(v);
    lemma_rendered_line_ends(v);
    lines::lemma_header_nonempty(v.alias);
    assert forall|i: int| 0 <= i < new.len() implies written::no_return(#[trigger] new[i]) by {
        if new[i].len() > 0 {
            register::registering_adds_only_the_vault(c, v, new[i]);
            if old.contains(new[i]) {
                let j = choose|j: int| 0 <= j < old.len() && old[j] == new[i];
                assert(written::no_return(old[j]));
            } else if own.contains(new[i]) {
                let j = choose|j: int| 0 <= j < own.len() && own[j] == new[i];
                assert(written::no_return(own[j]));
            }
        }
    }
}

/// Neither does removing one.
pub proof fn removing_keeps_line_ends(c: ConfigView, alias: Seq<char>)
    requires
        written::no_returns(config::all_lines(c)),
    ensures
        written::no_returns(config::all_lines(config::removed(c, alias))),
{
    let old = config::all_lines(c);
    let new = config::all_lines(config::removed(c, alias));
    assert forall|i: int| 0 <= i < new.len() implies written::no_return(#[trigger] new[i]) by {
        if new[i].len() > 0 {
            remove::removing_adds_nothing(c, alias, new[i]);
            let j = choose|j: int| 0 <= j < old.len() && old[j] == new[i];
            assert(written::no_return(old[j]));
        }
    }
}

proof fn lemma_read_line_ends(some: Seq<Seq<char>>)
    requires
        config::read_lines(some) is Ok,
        written::no_returns(some),
    ensures
        ({
            let read = config::read_lines(some)->Ok_0;
            written::no_returns(read.preamble + config::section_lines(read.sections))
        }),
    decreases some.len(),
{
    let all = config::read_lines(some)->Ok_0;
    let after = config::section_lines(all.sections);
    if some.len() == 0 {
        assert(all.preamble + after =~= Seq::empty());
    } else {
        let front = some.drop_last();
        let raw = some.last();
        assert forall|i: int| 0 <= i < front.len() implies written::no_return(#[trigger] front[i]) by {
            assert(front[i] == some[i]);
        }
        assert(written::no_return(some[some.len() - 1]));
        lemma_read_line_ends(front);
        let read = config::read_lines(front)->Ok_0;
        let before = config::section_lines(read.sections);
        let line = text::trimmed(raw);
        let new = if line.len() > 0 && line.first() == '[' {
            let name = text::trimmed(line.subrange(1, line.len() - 1));
            lines::lemma_header_nonempty(name);
            let opened = SectionView { name, lines: Seq::empty() };
            assert(all.sections == read.sections.push(opened));
            assert(all.sections.drop_last() =~= read.sections);
            assert(after =~= before.push(config::header(name)));
            config::header(name)
        } else if read.sections.len() > 0 {
            assert(all.sections.drop_last() =~= read.sections.drop_last());
            assert(after =~= before.push(raw));
            raw
        } else {
            assert(all.preamble == read.preamble.push(raw));
            assert(before =~= Seq::empty());
            assert(after =~= Seq::empty());
            raw
        };
        let few = read.preamble + before;
        assert(all.preamble + after =~= few.push(new));
        assert forall|i: int| 0 <= i < few.push(new).len() implies written::no_return(
            #[trigger] few.push(new)[i],
        ) by {
            if i < few.len() {
                assert(written::no_return(few[i]));
            }
        }
    }
}

/// A registry that was read is steady, if no line of the text ends with a
/// carriage return besides that of its line end.
pub proof fn read_is_steady(path: Seq<char>, s: Seq<char>)
    requires
        config::parsed(path, s) is Ok,
        written::no_returns(text::lines(s)),
    ensures
        steady(config::parsed(path, s)->Ok_0),
{
    form::read_is_well_formed(path, s);
    lemma_read_line_ends(text::lines(s));
}

/// A text without any carriage return is such a text.
pub proof fn no_line_ends_with_return(s: Seq<char>)
    requires
        forall|i: int| 0 <= i < s.len() ==> #[trigger] s[i] != '\r',
    ensures
        written::no_returns(text::lines(s)),
{
    form::lemma_lines_without(s, '\r');
    let all = text::lines(s);
    assert forall|k: int| 0 <= k < all.len() implies written::no_return(#[trigger] all[k]) by {
        if all[k].len() > 0 {
            assert(all[k][all[k].len() - 1] != '\r');
        }
    }
}

/// A registry that is started afresh is steady.
pub proof fn fresh_is_steady(path: Seq<char>)
    ensures
        steady(config::empty_registry(path)),
{
    let header = config::DEFAULT_HEADER@;
    assert forall|i: int| 0 <= i < header.len() implies #[trigger] header[i] != '\r' by {
        reveal_strlit(
            "# coffer vault registry - maintained by `coffer add` / `coffer remove`,\n# shown by `coffer list`. One section per vault; the section name is the\n# alias for `coffer mount <alias>`. Safe to edit by hand: comments on their\n# own line are kept, `~` at the start of a path means $HOME.",
        );
    }
    form::fresh_is_well_formed(path);
    no_line_ends_with_return(header);
    let c = config::empty_registry(path);
    let all = config::all_lines(c);
    assert(all =~= text::lines(header).push(Seq::empty()));
    assert forall|k: int| 0 <= k < all.len() implies written::no_return(#[trigger] all[k]) by {
        if k < text::lines(header).len() {
            assert(written::no_return(text::lines(header)[k]));
        }
    }
}

/// A change of a registry.
pub enum Change {
    Register(VaultView),
    Remove(Seq<char>),
}

/// Whether a change can be written: a vault is to have a valid alias and values
/// of one line each, which do not end with a carriage return.
pub open spec fn writable(change: Change) -> bool {
    match change {
        Change::Register(v) => rendered::one_line_each(v) && no_return_in(v),
        Change::Remove(_) => true,
    }
}

/// The registry after some changes, one after the other.
pub open spec fn changed(c: ConfigView, changes: Seq<Change>) -> ConfigView
    decreases changes.len(),
{
    if changes.len() == 0 {
        c
    } else {
        let before = changed(c, changes.drop_last());
        match changes.last() {
            Change::Register(v) => config::upserted(before, v),
            Change::Remove(alias) => config::removed(before, alias),
        }
    }
}

/// Any number of changes keeps a registry steady.
pub proof fn changes_keep_steady(c: ConfigView, changes: Seq<Change>)
    requires
        steady(c),
        forall|i: int| 0 <= i < changes.len() ==> writable(#[trigger] changes[i]),
    ensures
        steady(changed(c, changes)),
        changed(c, changes).path == c.path,
    decreases changes.len(),
{
    if changes.len() > 0 {
        let front = changes.drop_last();
        assert forall|i: int| 0 <= i < front.len() implies writable(#[trigger] front[i]) by {
            assert(front[i] == changes[i]);
        }
        changes_keep_steady(c, front);
        let before = changed(c, front);
        assert(writable(changes[changes.len() - 1]));
        match changes.last() {
            Change::Register(v) => {
                form::registering_keeps_form(before, v);
                registering_keeps_line_ends(before, v);
            },
            Change::Remove(alias) => {
                form::removing_keeps_form(before, alias);
                removing_keeps_line_ends(before, alias);
            },
        }
    }
}

/// Whatever vaults are registered and removed, a registry that is then written
/// and read again holds the same vaults, or has the same error, and is written
/// as the same text.
pub proof fn changed_reads_back(c: ConfigView, changes: Seq<Change>, home: Option<Seq<char>>)
    requires
        steady(c),
        forall|i: int| 0 <= i < changes.len() ==> writable(#[trigger] changes[i]),
    ensures
        ({
            let after = changed(c, changes);
            &&& config::parsed(c.path, config::text_of(after)) is Ok
            &&& config::text_of(config::parsed(c.path, config::text_of(after))->Ok_0)
                == config::text_of(after)
            &&& config::vaults_of(
                config::parsed(c.path, config::text_of(after))->Ok_0.sections,
                home,
            ) == config::vaults_of(after.sections, home)
        }),
{
    changes_keep_steady(c, changes);
    written::written_again(changed(c, changes), home);
}

/// So does one that was read from a text without carriage returns.
pub proof fn read_and_changed_reads_back(
    path: Seq<char>,
    s: Seq<char>,
    changes: Seq<Change>,
    home: Option<Seq<char>>,
)
    requires
        config::parsed(path, s) is Ok,
        forall|i: int| 0 <= i < s.len() ==> #[trigger] s[i] != '\r',
        forall|i: int| 0 <= i < changes.len() ==> writable(#[trigger] changes[i]),
    ensures
        ({
            let after = changed(config::parsed(path, s)->Ok_0, changes);
            &&& config::parsed(path, config::text_of(after)) is Ok
            &&& config::text_of(config::parsed(path, config::text_of(after))->Ok_0)
                == config::text_of(after)
            &&& config::vaults_of(
                config::parsed(path, config::text_of(after))->Ok_0.sections,
                home,
            ) == config::vaults_of(after.sections, home)
        }),
{
    no_line_ends_with_return(s);
    read_is_steady(path, s);
    changed_reads_back(config::parsed(path, s)->Ok_0, changes, home);
}

} // verus!
