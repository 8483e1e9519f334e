//! What the words on the command line mean.
use vstd::prelude::*;

use crate::paths;
use crate::registry::vault::{copy_text, Vault, VaultView};
use crate::registry::vault;
use crate::text::{chars_of, find};
use crate::text;

verus! {

/// A word with a slash in it, or with a dot or a tilde in front, is a path and
/// never an alias.
pub open spec fn path_like(arg: Seq<char>) -> bool {
    arg.contains('/') || (arg.len() > 0 && (arg.first() == '.' || arg.first() == '~'))
}

pub fn looks_like_path(arg: &str) -> (r: bool)
    ensures
        r == path_like(arg@),
{
    let chars = chars_of(arg);
    let n: usize = chars.len();
    let i: usize = find(chars.as_slice(), '/', 0);
    proof {
        text::lemma_place(arg@, '/', 0);
        if i < n {
            assert(arg@[i as int] == '/');
        }
    }
    i < n || (n > 0 && (chars[0] == '.' || chars[0] == '~'))
}

/// There is neither a file nor a vault of that name.
#[derive(Debug, PartialEq, Eq)]
pub struct NoContainer(pub String);

/// The container that a word names, where it names one.
pub open spec fn container_of(
    arg: Seq<char>,
    registered: Option<VaultView>,
    exists: bool,
) -> Option<Seq<char>> {
    if path_like(arg) {
        Some(arg)
    } else {
        match registered {
            Some(v) => Some(v.file),
            None => if exists {
                Some(arg)
            } else {
                None
            },
        }
    }
}

/// The model of a vault that may be there.
pub open spec fn vault_view(v: Option<&Vault>) -> Option<VaultView> {
    match v {
        Some(v) => Some(v@),
        None => None,
    }
}

/// The container that a word names. `registered` is the vault of that alias,
/// which is looked up unless the word is a path; `exists` tells whether there
/// is such a file.
pub fn resolve_container(arg: &str, registered: Option<&Vault>, exists: bool) -> (r: Result<
    String,
    NoContainer,
>)
    ensures
        path_like(arg@) ==> r is Ok && r->Ok_0@ == arg@,
        !path_like(arg@) ==> match registered {
            Some(v) => r is Ok && r->Ok_0@ == v@.file,
            None => if exists {
                r is Ok && r->Ok_0@ == arg@
            } else {
                r is Err && r->Err_0.0@ == arg@
            },
        },
        match container_of(arg@, vault_view(registered), exists) {
            Some(file) => r is Ok && r->Ok_0@ == file,
            None => r is Err && r->Err_0.0@ == arg@,
        },
{
    if looks_like_path(arg) {
        return Ok(arg.to_owned());
    }
    match registered {
        Some(vault) => Ok(vault.file.clone()),
        None => if exists {
            Ok(arg.to_owned())
        } else {
            Err(NoContainer(arg.to_owned()))
        },
    }
}

/// What `mount` is told besides the two paths.
#[derive(Debug, PartialEq, Eq)]
pub struct MountOpts {
    pub foreground: bool,
    pub idle_timeout: Option<String>,
    pub compact_on_idle: Option<String>,
    pub password_file: Option<String>,
    pub password_command: Option<String>,
    pub log_file: Option<String>,
    pub read_only: bool,
}

pub struct MountOptsView {
    pub foreground: bool,
    pub idle_timeout: Option<Seq<char>>,
    pub compact_on_idle: Option<Seq<char>>,
    pub password_file: Option<Seq<char>>,
    pub password_command: Option<Seq<char>>,
    pub log_file: Option<Seq<char>>,
    pub read_only: bool,
}

impl View for MountOpts {
    type V = MountOptsView;

    open spec fn view(&self) -> MountOptsView {
        MountOptsView {
            foreground: self.foreground,
            idle_timeout: vault::text_view(self.idle_timeout),
            compact_on_idle: vault::text_view(self.compact_on_idle),
            password_file: vault::text_view(self.password_file),
            password_command: vault::text_view(self.password_command),
            log_file: vault::text_view(self.log_file),
            read_only: self.read_only,
        }
    }
}

/// The first that is there.
pub open spec fn either(first: Option<Seq<char>>, second: Option<Seq<char>>) -> Option<Seq<char>> {
    if first is Some {
        first
    } else {
        second
    }
}

/// The options with those of a vault for what the command line leaves open.
/// The two ways to get at a password are one choice: a file on the command
/// line is not overruled by a command in the registry, nor the other way
/// round. A vault that is registered read-only is mounted so.
pub open spec fn with_defaults(o: MountOptsView, v: VaultView) -> MountOptsView {
    let told = o.password_file is Some || o.password_command is Some;
    MountOptsView {
        foreground: o.foreground,
        idle_timeout: either(o.idle_timeout, v.idle_timeout),
        compact_on_idle: either(o.compact_on_idle, v.compact_on_idle),
        password_file: if told {
            o.password_file
        } else {
            v.password_file
        },
        password_command: if told {
            o.password_command
        } else {
            v.password_command
        },
        log_file: either(o.log_file, v.log_file),
        read_only: o.read_only || v.read_only,
    }
}

fn or_text(first: Option<String>, second: &Option<String>) -> (r: Option<String>)
    ensures
        vault::text_view(r) == either(vault::text_view(first), vault::text_view(*second)),
{
    match first {
        Some(t) => Some(t),
        None => copy_text(second),
    }
}

impl MountOpts {
    pub fn with_defaults_from(self, vault: &Vault) -> (r: MountOpts)
        ensures
            r@ == with_defaults(self@, vault@),
    {
        let told = self.password_file.is_some() || self.password_command.is_some();
        MountOpts {
            foreground: self.foreground,
            idle_timeout: or_text(self.idle_timeout, &vault.idle_timeout),
            compact_on_idle: or_text(self.compact_on_idle, &vault.compact_on_idle),
            password_file: if told {
                self.password_file
            } else {
                copy_text(&vault.password_file)
            },
            password_command: if told {
                self.password_command
            } else {
                copy_text(&vault.password_command)
            },
            log_file: or_text(self.log_file, &vault.log_file),
            read_only: self.read_only || vault.read_only,
        }
    }
}

/// Where `mount` has to look for the vault.
#[derive(Clone, Copy, Debug, PartialEq, Eq, Structural)]
pub enum Source {
    /// Nowhere: a path was given.
    Given,
    /// Under the alias in the registry.
    Alias,
    /// Among all registered vaults.
    Choice,
}

pub open spec fn source_of(target: Option<Seq<char>>) -> Source {
    match target {
        Some(t) => if path_like(t) {
            Source::Given
        } else {
            Source::Alias
        },
        None => Source::Choice,
    }
}

pub fn mount_source(target: Option<&str>) -> (r: Source)
    ensures
        r == source_of(paths::opt_view(target)),
{
    match target {
        Some(t) => if looks_like_path(t) {
            Source::Given
        } else {
            Source::Alias
        },
        None => Source::Choice,
    }
}

/// What to mount where.
#[derive(Debug, PartialEq, Eq)]
pub struct MountPlan {
    pub file: String,
    pub mountpoint: String,
    pub opts: MountOpts,
}

/// Why there is nothing to mount.
#[derive(Debug, PartialEq, Eq)]
pub enum MountError {
    /// No vault is registered.
    NoVaults,
    /// A container without a mountpoint, and no vault of that name.
    NotRegistered(String),
}

/// What `mount` comes to.
pub enum Planned {
    Mount { file: Seq<char>, mountpoint: Seq<char>, opts: MountOptsView },
    NotRegistered(Seq<char>),
    NoVaults,
}

pub open spec fn planned(
    target: Option<Seq<char>>,
    mountpoint: Option<Seq<char>>,
    opts: MountOptsView,
    registered: Option<VaultView>,
) -> Planned {
    match (if source_of(target) is Given {
        None
    } else {
        registered
    }) {
        Some(v) => Planned::Mount {
            file: v.file,
            mountpoint: match mountpoint {
                Some(m) => m,
                None => v.mountpoint,
            },
            opts: with_defaults(opts, v),
        },
        None => match (target, mountpoint) {
            (Some(file), Some(mountpoint)) => Planned::Mount { file, mountpoint, opts },
            (Some(name), None) => Planned::NotRegistered(name),
            (None, _) => Planned::NoVaults,
        },
    }
}

pub open spec fn plan_result(r: Result<MountPlan, MountError>) -> Planned {
    match r {
        Ok(plan) => Planned::Mount {
            file: plan.file@,
            mountpoint: plan.mountpoint@,
            opts: plan.opts@,
        },
        Err(MountError::NotRegistered(name)) => Planned::NotRegistered(name@),
        Err(MountError::NoVaults) => Planned::NoVaults,
    }
}

/// The plan of `mount`. `registered` is the vault that was found in the
/// registry: under the alias, or chosen among all.
pub fn plan_mount(
    target: Option<&str>,
    mountpoint: Option<String>,
    opts: MountOpts,
    registered: Option<&Vault>,
) -> (r: Result<MountPlan, MountError>)
    ensures
        match (if source_of(paths::opt_view(target)) is Given {
            None
        } else {
            registered
        }) {
            Some(v) => r matches Ok(plan) && plan.file@ == v@.file && plan.mountpoint@ == (
            match mountpoint {
                Some(m) => m@,
                None => v@.mountpoint,
            }) && plan.opts@ == with_defaults(opts@, v@),
            None => match (target, mountpoint) {
                (Some(t), Some(m)) => r matches Ok(plan) && plan.file@ == t@ && plan.mountpoint@
                    == m@ && plan.opts@ == opts@,
                (Some(t), None) => r matches Err(MountError::NotRegistered(name)) && name@ == t@,
                (None, _) => r matches Err(MountError::NoVaults),
            },
        },
        plan_result(r) == planned(
            paths::opt_view(target),
            vault::text_view(mountpoint),
            opts@,
            vault_view(registered),
        ),
{
    let found = match mount_source(target) {
        Source::Given => None,
        _ => registered,
    };
    match found {
        Some(vault) => Ok(
            MountPlan {
                file: vault.file.clone(),
                mountpoint: match mountpoint {
                    Some(m) => m,
                    None => vault.mountpoint.clone(),
                },
                opts: opts.with_defaults_from(vault),
            },
        ),
        None => match (target, mountpoint) {
            (Some(file), Some(mountpoint)) => Ok(
                MountPlan { file: file.to_owned(), mountpoint, opts },
            ),
            (Some(file), None) => Err(MountError::NotRegistered(file.to_owned())),
            (None, _) => Err(MountError::NoVaults),
        },
    }
}

/// An alias is never taken for a path, and never for a flag.
pub proof fn alias_is_no_path(alias: Seq<char>)
    requires
        vault::valid_alias(alias),
    ensures
        !path_like(alias),
        alias.first() != '-',
{
    if alias.contains('/') {
        let i = choose|i: int| 0 <= i < alias.len() && alias[i] == '/';
        assert(vault::alias_char(alias[i]));
    }
}

/// A word is a path where a slash is anywhere in it, or where it starts with a
/// dot or a tilde. A path is taken as it is, whatever is registered; any other
/// word is an alias first, and the name of a file only where no vault has it.
pub proof fn words_name_containers(
    arg: Seq<char>,
    registered: Option<VaultView>,
    exists: bool,
    i: int,
)
    ensures
        0 <= i < arg.len() && arg[i] == '/' ==> container_of(arg, registered, exists) == Some(arg),
        arg.len() > 0 && (arg[0] == '.' || arg[0] == '~') ==> container_of(arg, registered, exists)
            == Some(arg),
        (forall|k: int| 0 <= k < arg.len() ==> arg[k] != '/') && (arg.len() == 0 || (arg[0] != '.'
            && arg[0] != '~')) ==> {
            &&& registered matches Some(v) ==> container_of(arg, registered, exists) == Some(v.file)
            &&& registered is None && exists ==> container_of(arg, registered, exists) == Some(arg)
            &&& registered is None && !exists ==> container_of(arg, registered, exists) is None
        },
{
}

/// What `mount` does: a path is mounted where it is told to, with what it is
/// told. An alias, or a vault that was chosen, is mounted at its own mountpoint
/// unless told otherwise; read-only exactly if that was asked for or the vault
/// is registered so.
pub proof fn mount_does_as_told(
    target: Option<Seq<char>>,
    mountpoint: Option<Seq<char>>,
    opts: MountOptsView,
    registered: Option<VaultView>,
    i: int,
)
    ensures
        ({
            let plan = planned(target, mountpoint, opts, registered);
            let slash = target matches Some(t) && 0 <= i < t.len() && t[i] == '/';
            let marked = target matches Some(t) && t.len() > 0 && (t[0] == '.' || t[0] == '~');
            let word = target matches Some(t) ==> (forall|k: int|
                0 <= k < t.len() ==> t[k] != '/') && !marked;
            &&& slash || marked ==> match mountpoint {
                Some(m) => plan == (Planned::Mount { file: target->Some_0, mountpoint: m, opts }),
                None => plan == Planned::NotRegistered(target->Some_0),
            }
            &&& word && registered is Some ==> {
                &&& plan matches Planned::Mount { file, mountpoint: at, opts: with }
                &&& file == registered->Some_0.file
                &&& mountpoint matches Some(m) ==> at == m
                &&& mountpoint is None ==> at == registered->Some_0.mountpoint
                &&& with.read_only <==> opts.read_only || registered->Some_0.read_only
                &&& with.foreground <==> opts.foreground
            }
            &&& word && registered is None && target is Some ==> match mountpoint {
                Some(m) => plan == (Planned::Mount { file: target->Some_0, mountpoint: m, opts }),
                None => plan == Planned::NotRegistered(target->Some_0),
            }
            &&& registered is None && target is None ==> plan == Planned::NoVaults
        }),
{
}

/// What the command line says wins over what is registered, and what it leaves
/// open is as registered.
pub proof fn command_line_wins(o: MountOptsView, v: VaultView)
    ensures
        ({
            let r = with_defaults(o, v);
            &&& o.idle_timeout is Some ==> r.idle_timeout == o.idle_timeout
            &&& o.compact_on_idle is Some ==> r.compact_on_idle == o.compact_on_idle
            &&& o.log_file is Some ==> r.log_file == o.log_file
            &&& o.password_file is Some ==> r.password_file == o.password_file
            &&& o.password_command is Some ==> r.password_command == o.password_command
            &&& o.idle_timeout is None ==> r.idle_timeout == v.idle_timeout
            &&& o.compact_on_idle is None ==> r.compact_on_idle == v.compact_on_idle
            &&& o.log_file is None ==> r.log_file == v.log_file
            &&& o.password_file is None && o.password_command is None ==> r.password_file
                == v.password_file && r.password_command == v.password_command
            &&& o.password_file is Some ==> r.password_command == o.password_command
            &&& o.password_command is Some ==> r.password_file == o.password_file
            &&& r.read_only <==> o.read_only || v.read_only
            &&& r.foreground == o.foreground
        }),
{
}

/// Where `mount` looks: nowhere for a path, in the registry for any other word,
/// and among all vaults where nothing is said.
pub proof fn mount_looks_where_told(t: Seq<char>, i: int)
    ensures
        source_of(None) is Choice,
        0 <= i < t.len() && t[i] == '/' ==> source_of(Some(t)) is Given,
        t.len() > 0 && (t[0] == '.' || t[0] == '~') ==> source_of(Some(t)) is Given,
        (forall|k: int| 0 <= k < t.len() ==> t[k] != '/') && (t.len() == 0 || (t[0] != '.' && t[0]
            != '~')) ==> source_of(Some(t)) is Alias,
{
}

} // verus!
