//! What creating and opening a container comes down to.
use vstd::prelude::*;
use vstd::string::StringExecFns;

use crate::container::key::{pragma_key_sql, WipedText};
use crate::container::key;
use crate::container::sql::{
    CACHE_SIZE, JOURNAL_WAL, OPEN_WRITABLE, PAGE_SIZE, SCHEMA, SCHEMA_VERSION, SILENCE_LOG,
    XATTRS_SCHEMA,
};
use crate::fs::types::{BLOCK_SIZE, KIND_DIR, S_IFDIR};
use crate::paths::parent_of;
use crate::paths;
use crate::text::{chars_of, decimal_string, parse_number, same_text};
use crate::text;

verus! {

/// A row of the `meta` table.
#[derive(Debug)]
pub struct Meta {
    pub key: &'static str,
    pub value: String,
}

/// How to create a container: open the file, send the key and the texts,
/// insert the root directory and the rows, and send the last text. The file is
/// then made private.
pub struct CreatePlan {
    /// The directory of the file, which may have to be made.
    pub dir: Option<String>,
    pub before_key: &'static str,
    pub key: WipedText,
    pub after_key: Vec<&'static str>,
    pub root_kind: i64,
    pub root_mode: i64,
    pub meta: Vec<Meta>,
    pub last: &'static str,
    pub file_mode: u32,
}

/// The file is there already.
#[derive(Debug, PartialEq, Eq)]
pub struct AlreadyExists;

/// Whether a row has this key and this value.
pub open spec fn meta_is(m: Meta, key: &'static str, value: Seq<char>) -> bool {
    m.key == key && m.value@ == value
}

/// What a new container is made of.
pub open spec fn creates(
    plan: CreatePlan,
    path: Seq<char>,
    password: Seq<char>,
    max_size: u64,
    created_at: Seq<char>,
) -> bool {
    &&& plan.dir is Some <==> paths::parent(path).len() > 0
    &&& plan.dir is Some ==> plan.dir->Some_0@ == paths::parent(path)
    &&& plan.before_key == SILENCE_LOG
    &&& key::wiped_text(plan.key) == key::key_statement("key"@, password)
    &&& plan.after_key@ == seq![PAGE_SIZE, SCHEMA, XATTRS_SCHEMA]
    &&& plan.root_kind == KIND_DIR
    &&& plan.root_mode == S_IFDIR | 0o700
    &&& plan.meta@.len() == 4
    &&& meta_is(plan.meta@[0], "schema_version", SCHEMA_VERSION@)
    &&& meta_is(plan.meta@[1], "created_at", created_at)
    &&& meta_is(plan.meta@[2], "block_size", text::decimal(BLOCK_SIZE as nat))
    &&& meta_is(plan.meta@[3], "max_size", text::decimal(max_size as nat))
    &&& plan.last == JOURNAL_WAL
    &&& plan.file_mode == 0o600
}

/// Plans a new container. `exists` tells whether there is something at `path`
/// already, which is left alone.
pub fn create_container(
    path: &str,
    exists: bool,
    password: &str,
    max_size: u64,
    created_at: String,
) -> (r: Result<CreatePlan, AlreadyExists>)
    ensures
        r is Err <==> exists,
        r is Ok ==> creates(r->Ok_0, path@, password@, max_size, created_at@),
{
    if exists {
        return Err(AlreadyExists);
    }
    let mut after_key: Vec<&'static str> = Vec::new();
    after_key.push(PAGE_SIZE);
    after_key.push(SCHEMA);
    after_key.push(XATTRS_SCHEMA);
    assert(after_key@ =~= seq![PAGE_SIZE, SCHEMA, XATTRS_SCHEMA]);
    let mut meta: Vec<Meta> = Vec::new();
    meta.push(Meta { key: "schema_version", value: SCHEMA_VERSION.to_owned() });
    meta.push(Meta { key: "created_at", value: created_at });
    meta.push(Meta { key: "block_size", value: decimal_string(BLOCK_SIZE) });
    meta.push(Meta { key: "max_size", value: decimal_string(max_size) });
    Ok(
        CreatePlan {
            dir: parent_of(path),
            before_key: SILENCE_LOG,
            key: pragma_key_sql("key", password),
            after_key,
            root_kind: KIND_DIR,
            root_mode: S_IFDIR | 0o700,
            meta,
            last: JOURNAL_WAL,
            file_mode: 0o600,
        },
    )
}

/// Why a container is not opened.
#[derive(Debug, PartialEq, Eq)]
pub enum OpenError {
    NotFound,
    /// The version could not be read: the password is wrong, or the file is no
    /// container.
    WrongPassword,
    /// The container has this format, which is not ours.
    OtherFormat(String),
}

impl OpenError {
    /// What is said of the error about the file at `path`.
    pub open spec fn said(self, path: Seq<char>) -> Seq<char> {
        match self {
            OpenError::NotFound => path + " not found"@,
            OpenError::WrongPassword => "wrong password, or the file is not a coffer container"@,
            OpenError::OtherFormat(version) => path + " uses container format version "@ + version@
                + ", this coffer understands version "@ + SCHEMA_VERSION@ + " - upgrade coffer"@,
        }
    }

    pub fn message(&self, path: &str) -> (s: String)
        ensures
            s@ == self.said(path@),
    {
        match self {
            OpenError::NotFound => {
                let mut out = path.to_owned();
                out.append(" not found");
                out
            },
            OpenError::WrongPassword => {
                "wrong password, or the file is not a coffer container".to_owned()
            },
            OpenError::OtherFormat(version) => {
                let mut out = path.to_owned();
                out.append(" uses container format version ");
                out.append(version.as_str());
                out.append(", this coffer understands version ");
                out.append(SCHEMA_VERSION);
                out.append(" - upgrade coffer");
                out
            },
        }
    }
}

/// How to open a container: open `uri`, send the key, ask for the version,
/// and where that is accepted send the texts of [`after_check`].
pub struct OpenPlan {
    pub uri: String,
    pub read_only: bool,
    pub before_key: &'static str,
    pub key: WipedText,
    pub statement_cache: usize,
}

/// The name by which SQLite opens the file.
pub open spec fn uri_of(path: Seq<char>, read_only: bool) -> Seq<char> {
    "file:"@ + path + (if read_only {
        "?mode=ro"@
    } else {
        ""@
    })
}

/// What opening a container takes.
pub open spec fn opens(
    plan: OpenPlan,
    path: Seq<char>,
    password: Seq<char>,
    read_only: bool,
) -> bool {
    &&& plan.uri@ == uri_of(path, read_only)
    &&& plan.read_only == read_only
    &&& plan.before_key == SILENCE_LOG
    &&& key::wiped_text(plan.key) == key::key_statement("key"@, password)
    &&& plan.statement_cache == 64
}

/// Plans the opening of the file at `path`, which has no symbolic links in it.
pub fn open_db(path: &str, is_file: bool, password: &str, read_only: bool) -> (r: Result<
    OpenPlan,
    OpenError,
>)
    ensures
        match r {
            Ok(plan) => {
                &&& is_file
                &&& plan.uri@ == uri_of(path@, read_only)
                &&& plan.read_only == read_only
                &&& plan.before_key == SILENCE_LOG
                &&& key::wiped_text(plan.key) == key::key_statement("key"@, password@)
                &&& plan.statement_cache == 64
            },
            Err(e) => !is_file && e is NotFound,
        },
        r is Ok <==> is_file,
        r is Ok ==> opens(r->Ok_0, path@, password@, read_only),
{
    if !is_file {
        return Err(OpenError::NotFound);
    }
    let mut uri = "file:".to_owned();
    uri.append(path);
    if read_only {
        uri.append("?mode=ro");
    } else {
        uri.append("");
    }
    Ok(
        OpenPlan {
            uri,
            read_only,
            before_key: SILENCE_LOG,
            key: pragma_key_sql("key", password),
            statement_cache: 64,
        },
    )
}

/// What a version comes to.
pub enum Verdict {
    Accepted,
    WrongPassword,
    OtherFormat(Seq<char>),
}

pub open spec fn verdict_on(found: Option<Seq<char>>) -> Verdict {
    match found {
        None => Verdict::WrongPassword,
        Some(version) => if version == SCHEMA_VERSION@ {
            Verdict::Accepted
        } else {
            Verdict::OtherFormat(version)
        },
    }
}

/// Whether a container of this version can be opened. `None` stands for a
/// version that could not be read.
pub fn check_version(found: Option<&str>) -> (r: Result<(), OpenError>)
    ensures
        match found {
            None => r matches Err(OpenError::WrongPassword),
            Some(version) => if version@ == SCHEMA_VERSION@ {
                r is Ok
            } else {
                r matches Err(OpenError::OtherFormat(v)) && v@ == version@
            },
        },
        match verdict_on(paths::opt_view(found)) {
            Verdict::Accepted => r is Ok,
            Verdict::WrongPassword => r matches Err(OpenError::WrongPassword),
            Verdict::OtherFormat(version) => r matches Err(OpenError::OtherFormat(v)) && v@
                == version,
        },
{
    match found {
        None => Err(OpenError::WrongPassword),
        Some(version) => {
            if same_text(version, SCHEMA_VERSION) {
                Ok(())
            } else {
                Err(OpenError::OtherFormat(version.to_owned()))
            }
        },
    }
}

/// What is sent to a container once its version is accepted.
pub open spec fn sent_after_check(read_only: bool) -> Seq<&'static str> {
    if read_only {
        seq![CACHE_SIZE]
    } else {
        seq![OPEN_WRITABLE, XATTRS_SCHEMA, CACHE_SIZE]
    }
}

/// The texts that follow the check. A container that is opened to be written
/// gets the table of extended attributes, if it predates it; one that is only
/// read is not changed.
pub fn after_check(read_only: bool) -> (list: Vec<&'static str>)
    ensures
        list@ == (if read_only {
            seq![CACHE_SIZE]
        } else {
            seq![OPEN_WRITABLE, XATTRS_SCHEMA, CACHE_SIZE]
        }),
        list@ == sent_after_check(read_only),
{
    let mut list: Vec<&'static str> = Vec::new();
    if !read_only {
        list.push(OPEN_WRITABLE);
        list.push(XATTRS_SCHEMA);
    }
    list.push(CACHE_SIZE);
    list
}

/// The ceiling that a container was created with; no ceiling where the row is
/// missing or unreadable.
pub open spec fn max_size_of(row: Option<Seq<char>>) -> u64 {
    match row {
        Some(value) => match text::number(value, u64::MAX as nat) {
            Some(n) => n as u64,
            None => 0,
        },
        None => 0,
    }
}

pub fn read_max_size(row: Option<&str>) -> (max_size: u64)
    ensures
        max_size == max_size_of(paths::opt_view(row)),
{
    match row {
        Some(value) => {
            let chars = chars_of(value);
            match parse_number(chars.as_slice(), u64::MAX) {
                Some(n) => n,
                None => 0,
            }
        },
        None => 0,
    }
}

/// A container has the ceiling that it was created with, and is of a version
/// that is accepted when it is opened.
pub proof fn created_reads_back(
    plan: CreatePlan,
    path: Seq<char>,
    password: Seq<char>,
    max_size: u64,
    created_at: Seq<char>,
)
    requires
        creates(plan, path, password, max_size, created_at),
    ensures
        max_size_of(Some(plan.meta@[3].value@)) == max_size,
        plan.meta@[0].value@ == SCHEMA_VERSION@,
{
    text::decimal_reads_back(max_size as nat, u64::MAX as nat);
}

/// A new container: its file is for its owner alone, and so is its root, which
/// is a directory. Its rows tell the version, when it was made, the size of a
/// block and the ceiling, and its key is the password.
pub proof fn new_container_is_private(
    plan: CreatePlan,
    path: Seq<char>,
    password: Seq<char>,
    max_size: u64,
    created_at: Seq<char>,
) -> (quoted: Seq<char>)
    requires
        creates(plan, path, password, max_size, created_at),
    ensures
        plan.file_mode == 0o600,
        plan.root_kind == 0,
        plan.root_mode == 0o40700,
        plan.meta@.len() == 4,
        plan.meta@[0].key == "schema_version",
        plan.meta@[0].value@ == "1"@,
        plan.meta@[1].key == "created_at",
        plan.meta@[1].value@ == created_at,
        plan.meta@[2].key == "block_size",
        text::number(plan.meta@[2].value@, u64::MAX as nat) == Some(131072nat),
        plan.meta@[3].key == "max_size",
        text::number(plan.meta@[3].value@, u64::MAX as nat) == Some(max_size as nat),
        key::wiped_text(plan.key) == "PRAGMA key = '"@ + quoted + "'"@,
        key::literal_value(quoted) == Some(password),
{
    assert(0o40000i64 | 0o700i64 == 0o40700i64) by (bit_vector);
    text::decimal_reads_back(max_size as nat, u64::MAX as nat);
    text::decimal_reads_back(BLOCK_SIZE as nat, u64::MAX as nat);
    key::statement_carries_password(password)
}

/// The directory of a new container is made where its path names one.
pub proof fn new_container_has_its_directory(
    plan: CreatePlan,
    dir: Seq<char>,
    name: Seq<char>,
    password: Seq<char>,
    max_size: u64,
    created_at: Seq<char>,
)
    requires
        paths::is_name(name),
    ensures
        creates(plan, name, password, max_size, created_at) ==> plan.dir is None,
        paths::ends_with_part(dir) && creates(
            plan,
            dir + "/"@ + name,
            password,
            max_size,
            created_at,
        ) ==> plan.dir is Some && plan.dir->Some_0@ == dir,
{
    paths::directory_of_a_name(name);
    if paths::ends_with_part(dir) {
        paths::directory_and_name(dir, name);
    }
}

/// A container is opened by its path, with its password, and for reading alone
/// exactly where that is asked for.
pub proof fn opened_as_asked(
    plan: OpenPlan,
    path: Seq<char>,
    password: Seq<char>,
    read_only: bool,
) -> (quoted: Seq<char>)
    requires
        opens(plan, path, password, read_only),
    ensures
        read_only ==> plan.read_only && plan.uri@ == "file:"@ + path + "?mode=ro"@,
        !read_only ==> !plan.read_only && plan.uri@ == "file:"@ + path,
        key::wiped_text(plan.key) == "PRAGMA key = '"@ + quoted + "'"@,
        key::literal_value(quoted) == Some(password),
{
    reveal_strlit("");
    assert("file:"@ + path + ""@ =~= "file:"@ + path);
    key::statement_carries_password(password)
}

/// One version is accepted. Any other is told, and where none could be read the
/// password is at fault.
pub proof fn one_version_is_accepted(found: Option<Seq<char>>)
    ensures
        verdict_on(found) is Accepted <==> found == Some("1"@),
        verdict_on(found) is WrongPassword <==> found is None,
        found matches Some(v) ==> v != "1"@ ==> verdict_on(found) == Verdict::OtherFormat(v),
{
}

/// What is sent to a container that is only read changes nothing in it; one that
/// can be written is given what it may lack before anything else uses it.
pub proof fn reading_changes_nothing(read_only: bool)
    ensures
        sent_after_check(read_only).last() == CACHE_SIZE,
        read_only ==> sent_after_check(read_only).len() == 1,
        !read_only ==> sent_after_check(read_only).len() == 3 && sent_after_check(read_only)[0]
            == OPEN_WRITABLE && sent_after_check(read_only)[1] == XATTRS_SCHEMA,
{
}

/// The ceiling is the number in the row, whatever it is; without a row, or with
/// something else in it, there is none.
pub proof fn ceiling_is_the_row(n: u64, value: Seq<char>)
    ensures
        max_size_of(Some(text::decimal(n as nat))) == n,
        text::number(value, u64::MAX as nat) == Some(n as nat) ==> max_size_of(Some(value)) == n,
        max_size_of(None) == 0,
        text::number(value, u64::MAX as nat) is None ==> max_size_of(Some(value)) == 0,
{
    text::decimal_reads_back(n as nat, u64::MAX as nat);
}

/// What is said of an error names the file, but for a wrong password, and both
/// versions where they differ.
pub proof fn errors_tell_what_is_wrong(path: Seq<char>, version: String)
    ensures
        OpenError::NotFound.said(path) == path + " not found"@,
        OpenError::WrongPassword.said(path)
            == "wrong password, or the file is not a coffer container"@,
        OpenError::OtherFormat(version).said(path) == path + " uses container format version "@
            + version@ + ", this coffer understands version 1 - upgrade coffer"@,
{
    reveal_strlit(", this coffer understands version ");
    reveal_strlit("1");
    reveal_strlit(" - upgrade coffer");
    reveal_strlit(", this coffer understands version 1 - upgrade coffer");
    assert(path + " uses container format version "@ + version@
        + ", this coffer understands version "@ + "1"@ + " - upgrade coffer"@ =~= path
        + " uses container format version "@ + version@
        + ", this coffer understands version 1 - upgrade coffer"@);
}

} // verus!
