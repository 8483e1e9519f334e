//! Registering, forgetting and unmounting vaults.
use vstd::prelude::*;

use crate::cli::arguments::looks_like_path;
use crate::cli::arguments;
use crate::registry::config::{Config, ConfigView};
use crate::registry::config;
use crate::registry::vault::{validate_alias, Vault, VaultView};
use crate::registry::vault;
use crate::paths;

verus! {

/// Why a vault is not registered.
#[derive(Clone, Copy, Debug, PartialEq, Eq, Structural)]
pub enum AddError {
    InvalidAlias,
    NoSuchFile,
    BadIdleTimeout,
    BadCompactOnIdle,
}

/// What stands in the way of registering a vault, if anything.
pub open spec fn add_refusal(
    v: VaultView,
    file_exists: bool,
    idle_ok: bool,
    compact_ok: bool,
) -> Option<AddError> {
    if !vault::valid_alias(v.alias) {
        Some(AddError::InvalidAlias)
    } else if !file_exists {
        Some(AddError::NoSuchFile)
    } else if v.idle_timeout is Some && !idle_ok {
        Some(AddError::BadIdleTimeout)
    } else if v.compact_on_idle is Some && !compact_ok {
        Some(AddError::BadCompactOnIdle)
    } else {
        None
    }
}

/// The registry after a vault was to be registered, and what is told of it.
pub open spec fn added(
    c: ConfigView,
    v: VaultView,
    file_exists: bool,
    idle_ok: bool,
    compact_ok: bool,
) -> (ConfigView, Result<bool, AddError>) {
    match add_refusal(v, file_exists, idle_ok, compact_ok) {
        Some(e) => (c, Err(e)),
        None => (config::upserted(c, v), Ok(config::has_section(c.sections, v.alias))),
    }
}

/// Registers a vault, or refuses and changes nothing. The container has to
/// exist, and the durations have to be readable: a typo fails here and not at
/// every later mount. Tells whether an entry was replaced.
pub fn cmd_add(
    cfg: &mut Config,
    vault: &Vault,
    file_exists: bool,
    idle_ok: bool,
    compact_ok: bool,
) -> (r: Result<bool, AddError>)
    ensures
        match add_refusal(vault@, file_exists, idle_ok, compact_ok) {
            Some(e) => r == Err::<bool, AddError>(e) && final(cfg)@ == old(cfg)@,
            None => r == Ok::<bool, AddError>(
                config::has_section(old(cfg)@.sections, vault@.alias),
            ) && final(cfg)@ == config::upserted(old(cfg)@, vault@),
        },
        (final(cfg)@, r) == added(old(cfg)@, vault@, file_exists, idle_ok, compact_ok),
{
    if validate_alias(vault.alias.as_str()).is_err() {
        return Err(AddError::InvalidAlias);
    }
    if !file_exists {
        return Err(AddError::NoSuchFile);
    }
    if vault.idle_timeout.is_some() && !idle_ok {
        return Err(AddError::BadIdleTimeout);
    }
    if vault.compact_on_idle.is_some() && !compact_ok {
        return Err(AddError::BadCompactOnIdle);
    }
    Ok(cfg.upsert(vault))
}

/// There is no vault of that alias.
#[derive(Debug, PartialEq, Eq)]
pub struct NoSuchVault;

/// The file of a vault, where its section can be read at all.
pub open spec fn file_named(c: ConfigView, alias: Seq<char>, home: Option<Seq<char>>) -> Option<
    Seq<char>,
> {
    match config::vault_named(c, alias, home) {
        Ok(Some(v)) => Some(v.file),
        _ => None,
    }
}

/// What is told of an alias that is forgotten: which container it named, where
/// there is such an alias.
pub open spec fn forgotten(c: ConfigView, alias: Seq<char>, home: Option<Seq<char>>) -> Option<
    Option<Seq<char>>,
> {
    if config::has_section(c.sections, alias) {
        Some(file_named(c, alias, home))
    } else {
        None
    }
}

/// Forgets an alias, and tells which container it named. A section that cannot
/// be read is removed like any other. Comments stay.
pub fn cmd_remove(cfg: &mut Config, alias: &str, home: Option<&str>) -> (r: Result<
    Option<String>,
    NoSuchVault,
>)
    ensures
        final(cfg)@ == config::removed(old(cfg)@, alias@),
        config::comments_kept(old(cfg)@, final(cfg)@),
        r is Ok <==> config::has_section(old(cfg)@.sections, alias@),
        r is Ok ==> vault::text_view(r->Ok_0) == file_named(
            old(cfg)@,
            alias@,
            paths::opt_view(home),
        ),
        match forgotten(old(cfg)@, alias@, paths::opt_view(home)) {
            Some(file) => r is Ok && vault::text_view(r->Ok_0) == file,
            None => r is Err,
        },
{
    let file = match cfg.get(alias, home) {
        Ok(Some(vault)) => Some(vault.file),
        _ => None,
    };
    if cfg.remove(alias) {
        Ok(file)
    } else {
        Err(NoSuchVault)
    }
}

/// Why nothing is unmounted.
#[derive(Debug, PartialEq, Eq)]
pub enum UmountError {
    /// The vault of that alias is not mounted.
    NotMounted,
    /// No vault is registered.
    NoVaults,
    /// None of the registered vaults is mounted.
    NoneMounted,
}

/// The mountpoint that a word names, unless it is that of a vault that is not
/// mounted.
pub open spec fn mountpoint_of(
    target: Seq<char>,
    registered: Option<VaultView>,
    mounted: bool,
) -> Option<Seq<char>> {
    if arguments::path_like(target) {
        Some(target)
    } else {
        match registered {
            Some(v) => if mounted {
                Some(v.mountpoint)
            } else {
                None
            },
            None => Some(target),
        }
    }
}

/// The mountpoint that a word names. A path is taken as it is, without a look
/// at the registry; so is a word that is no alias.
pub fn umount_target(target: &str, registered: Option<&Vault>, mounted: bool) -> (r: Result<
    String,
    UmountError,
>)
    ensures
        match (if arguments::path_like(target@) {
            None
        } else {
            registered
        }) {
            Some(v) => if mounted {
                r is Ok && r->Ok_0@ == v@.mountpoint
            } else {
                r matches Err(UmountError::NotMounted)
            },
            None => r is Ok && r->Ok_0@ == target@,
        },
        match mountpoint_of(target@, arguments::vault_view(registered), mounted) {
            Some(mountpoint) => r is Ok && r->Ok_0@ == mountpoint,
            None => r matches Err(UmountError::NotMounted),
        },
{
    if looks_like_path(target) {
        return Ok(target.to_owned());
    }
    match registered {
        Some(vault) => if mounted {
            Ok(vault.mountpoint.clone())
        } else {
            Err(UmountError::NotMounted)
        },
        None => Ok(target.to_owned()),
    }
}

/// The vaults that are mounted.
pub open spec fn mounted_of(vaults: Seq<VaultView>, mounted: Seq<bool>) -> Seq<VaultView>
    decreases vaults.len(),
{
    if vaults.len() == 0 {
        Seq::empty()
    } else {
        let rest = mounted_of(vaults.drop_last(), mounted);
        if mounted[vaults.len() - 1] {
            rest.push(vaults.last())
        } else {
            rest
        }
    }
}

/// The vaults to choose from, or why there are none.
pub open spec fn candidates_of(vaults: Seq<VaultView>, mounted: Seq<bool>) -> Result<
    Seq<VaultView>,
    UmountError,
> {
    if vaults.len() == 0 {
        Err(UmountError::NoVaults)
    } else if mounted_of(vaults, mounted).len() == 0 {
        Err(UmountError::NoneMounted)
    } else {
        Ok(mounted_of(vaults, mounted))
    }
}

/// The vaults to choose from when nothing is said of what to unmount.
pub fn umount_candidates(vaults: &Vec<Vault>, mounted: &Vec<bool>) -> (r: Result<
    Vec<Vault>,
    UmountError,
>)
    requires
        vaults@.len() == mounted@.len(),
    ensures
        ({
            let list = mounted_of(config::vault_views(vaults@), mounted@);
            if vaults@.len() == 0 {
                r matches Err(UmountError::NoVaults)
            } else if list.len() == 0 {
                r matches Err(UmountError::NoneMounted)
            } else {
                r is Ok && config::vault_views(r->Ok_0@) == list
            }
        }),
        match candidates_of(config::vault_views(vaults@), mounted@) {
            Ok(list) => r is Ok && config::vault_views(r->Ok_0@) == list,
            Err(e) => r is Err && r->Err_0 == e,
        },
{
    let n: usize = vaults.len();
    if n == 0 {
        return Err(UmountError::NoVaults);
    }
    let ghost all = config::vault_views(vaults@);
    let mut list: Vec<Vault> = Vec::new();
    let mut i: usize = 0;
    assert(all.take(0) =~= Seq::empty());
    assert(config::vault_views(list@) =~= Seq::empty());
    while i < n
        invariant
            i <= n == vaults@.len() == mounted@.len(),
            all == config::vault_views(vaults@),
            config::vault_views(list@) == mounted_of(all.take(i as int), mounted@),
        decreases n - i,
    {
        assert(all.take(i + 1).drop_last() =~= all.take(i as int));
        assert(all.take(i + 1).last() == vaults@[i as int]@);
        if mounted[i] {
            let ghost before = config::vault_views(list@);
            list.push(vaults[i].clone());
            assert(config::vault_views(list@) =~= before.push(vaults@[i as int]@));
        }
        i += 1;
    }
    assert(all.take(n as int) =~= all);
    if list.len() == 0 {
        assert(config::vault_views(list@).len() == 0);
        Err(UmountError::NoneMounted)
    } else {
        assert(config::vault_views(list@).len() > 0);
        Ok(list)
    }
}

/// A vault is registered exactly where its alias is made of letters, digits and
/// `-`, `_`, `.` with a letter or digit in front, its container exists, and what
/// it has of durations can be read. The first of these that fails is named.
pub proof fn add_needs_all(v: VaultView, file_exists: bool, idle_ok: bool, compact_ok: bool)
    ensures
        ({
            let r = add_refusal(v, file_exists, idle_ok, compact_ok);
            let alias_ok = vault::valid_alias(v.alias);
            let idle = v.idle_timeout is None || idle_ok;
            let compact = v.compact_on_idle is None || compact_ok;
            &&& r is None <==> alias_ok && file_exists && idle && compact
            &&& !alias_ok ==> r == Some(AddError::InvalidAlias)
            &&& alias_ok && !file_exists ==> r == Some(AddError::NoSuchFile)
            &&& alias_ok && file_exists && !idle ==> r == Some(AddError::BadIdleTimeout)
            &&& alias_ok && file_exists && idle && !compact ==> r == Some(
                AddError::BadCompactOnIdle,
            )
        }),
{
}

/// The vaults to choose from are those that are mounted, in their order.
pub proof fn only_mounted_are_offered(vaults: Seq<VaultView>, mounted: Seq<bool>) -> (places: Seq<
    int,
>)
    requires
        vaults.len() <= mounted.len(),
    ensures
        places.len() == mounted_of(vaults, mounted).len(),
        forall|k: int|
            0 <= k < places.len() ==> 0 <= #[trigger] places[k] < vaults.len() && mounted[places[k]]
                && mounted_of(vaults, mounted)[k] == vaults[places[k]],
        forall|j: int, k: int| 0 <= j < k < places.len() ==> places[j] < places[k],
        forall|i: int| 0 <= i < vaults.len() && #[trigger] mounted[i] ==> places.contains(i),
    decreases vaults.len(),
{
    if vaults.len() == 0 {
        Seq::empty()
    } else {
        let n = vaults.len() - 1;
        let few = only_mounted_are_offered(vaults.drop_last(), mounted);
        let places = if mounted[n] {
            few.push(n)
        } else {
            few
        };
        assert forall|i: int|
            0 <= i < vaults.len() && #[trigger] mounted[i] implies places.contains(i) by {
            if i < n {
                assert(few.contains(i));
                let k = choose|k: int| 0 <= k < few.len() && few[k] == i;
                assert(places[k] == i);
            } else {
                assert(places[few.len() as int] == n);
            }
        }
        places
    }
}

/// A vault that is refused changes nothing. One that is registered is told to
/// have replaced another exactly where there was a section of its alias, and is
/// in the registry from then on.
pub proof fn added_or_unchanged(
    c: ConfigView,
    v: VaultView,
    file_exists: bool,
    idle_ok: bool,
    compact_ok: bool,
)
    ensures
        ({
            let (after, r) = added(c, v, file_exists, idle_ok, compact_ok);
            let fits = vault::valid_alias(v.alias) && file_exists && (v.idle_timeout is None
                || idle_ok) && (v.compact_on_idle is None || compact_ok);
            let replaced = exists|i: int|
                0 <= i < c.sections.len() && (#[trigger] c.sections[i]).name == v.alias;
            &&& r is Ok <==> fits
            &&& !fits ==> after == c
            &&& fits ==> r == Ok::<bool, AddError>(replaced)
            &&& fits ==> config::has_section(after.sections, v.alias)
            &&& fits && replaced ==> after.sections.len() == c.sections.len()
            &&& fits && !replaced ==> after.sections.len() == c.sections.len() + 1
        }),
{
    config::lemma_section_place(c.sections, v.alias, 0);
    let (after, _) = added(c, v, file_exists, idle_ok, compact_ok);
    config::lemma_section_place(after.sections, v.alias, 0);
    let i = config::section_place(c.sections, v.alias, 0);
    if i < c.sections.len() {
        assert(c.sections[i].name == v.alias);
        if after == config::upserted(c, v) {
            assert(after.sections[i].name == v.alias);
        }
    } else if after == config::upserted(c, v) {
        assert(after.sections[after.sections.len() - 1].name == v.alias);
    }
}

/// An alias is forgotten exactly where there is a section of that name. Its
/// container is told where the section can be read.
pub proof fn forgotten_if_there(
    c: ConfigView,
    alias: Seq<char>,
    home: Option<Seq<char>>,
    i: int,
)
    ensures
        forgotten(c, alias, home) is None <==> (forall|k: int|
            0 <= k < c.sections.len() ==> (#[trigger] c.sections[k]).name != alias),
        0 <= i < c.sections.len() && c.sections[i].name == alias && (forall|k: int|
            0 <= k < i ==> (#[trigger] c.sections[k]).name != alias) ==> match vault::vault_of(
            c.sections[i],
            home,
        ) {
            Ok(v) => forgotten(c, alias, home) == Some(Some(v.file)),
            Err(_) => forgotten(c, alias, home) == Some(None::<Seq<char>>),
        },
{
    config::lemma_section_place(c.sections, alias, 0);
}

/// What is unmounted: a word with a slash in it, or with a dot or a tilde in
/// front, is a path and taken as it is. An alias is the mountpoint of its vault,
/// if that is mounted; any other word is a path after all.
pub proof fn words_name_mountpoints(
    target: Seq<char>,
    registered: Option<VaultView>,
    mounted: bool,
    i: int,
)
    ensures
        ({
            let r = mountpoint_of(target, registered, mounted);
            let slash = 0 <= i < target.len() && target[i] == '/';
            let marked = target.len() > 0 && (target[0] == '.' || target[0] == '~');
            let word = (forall|k: int| 0 <= k < target.len() ==> target[k] != '/') && !marked;
            &&& slash || marked ==> r == Some(target)
            &&& word && registered is Some && mounted ==> r == Some(registered->Some_0.mountpoint)
            &&& word && registered is Some && !mounted ==> r is None
            &&& word && registered is None ==> r == Some(target)
        }),
{
}

/// Without a vault there is nothing to unmount, nor with vaults of which none is
/// mounted. Otherwise there is a choice, among those that are.
pub proof fn candidates_are_mounted(vaults: Seq<VaultView>, mounted: Seq<bool>)
    requires
        vaults.len() == mounted.len(),
    ensures
        ({
            let r = candidates_of(vaults, mounted);
            let some = exists|i: int| 0 <= i < mounted.len() && #[trigger] mounted[i];
            &&& vaults.len() == 0 ==> r == Err::<Seq<VaultView>, UmountError>(UmountError::NoVaults)
            &&& vaults.len() > 0 && !some ==> r == Err::<Seq<VaultView>, UmountError>(
                UmountError::NoneMounted,
            )
            &&& some ==> r == Ok::<Seq<VaultView>, UmountError>(mounted_of(vaults, mounted))
                && r->Ok_0.len() > 0
        }),
{
    let places = only_mounted_are_offered(vaults, mounted);
    if exists|i: int| 0 <= i < mounted.len() && #[trigger] mounted[i] {
        let i = choose|i: int| 0 <= i < mounted.len() && #[trigger] mounted[i];
        assert(places.contains(i));
    } else if places.len() > 0 {
        assert(mounted[places[0]]);
    }
}

} // verus!
