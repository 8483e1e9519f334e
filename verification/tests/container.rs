use coffer::container::key::pragma_key_sql;
use coffer::container::plan::{after_check, check_version, create_container, open_db, read_max_size, AlreadyExists, OpenError};
use coffer::container::sql;
use coffer::fs::types::{KIND_DIR, KIND_FILE};
use rusqlite::{Connection, OpenFlags, OptionalExtension};
use std::path::Path;
use std::time::{SystemTime, UNIX_EPOCH};

/// A path that nothing has used before.
fn fresh_path(name: &str) -> String {
    let nanos = SystemTime::now().duration_since(UNIX_EPOCH).unwrap().as_nanos();
    format!("/tmp/coffer-{name}-{nanos}.coffer")
}

fn create(path: &str, password: &str, max_size: u64) {
    let plan = create_container(path, Path::new(path).exists(), password, max_size, "1.5".to_string()).ok().unwrap();
    let con = Connection::open(path).unwrap();
    con.execute_batch(plan.before_key).unwrap();
    con.execute_batch(plan.key.text()).unwrap();
    for text in &plan.after_key {
        con.execute_batch(text).unwrap();
    }
    con.execute(sql::INSERT_ROOT, (plan.root_kind, plan.root_mode, 1000u32, 1000u32, 1.5f64)).unwrap();
    for row in &plan.meta {
        con.execute(sql::INSERT_META, (row.key, &row.value)).unwrap();
    }
    con.execute_batch(plan.last).unwrap();
}

fn open(path: &str, password: &str, read_only: bool) -> Result<Connection, OpenError> {
    let plan = open_db(path, Path::new(path).is_file(), password, read_only)?;
    let access = if plan.read_only { OpenFlags::SQLITE_OPEN_READ_ONLY } else { OpenFlags::SQLITE_OPEN_READ_WRITE };
    let con = Connection::open_with_flags(&plan.uri, access | OpenFlags::SQLITE_OPEN_URI).unwrap();
    con.execute_batch(plan.before_key).unwrap();
    con.execute_batch(plan.key.text()).unwrap();
    let version: Option<String> = con.query_row(sql::SELECT_SCHEMA_VERSION, (), |r| r.get(0)).ok();
    check_version(version.as_deref())?;
    for text in after_check(read_only) {
        con.execute_batch(text).unwrap();
    }
    con.set_prepared_statement_cache_capacity(plan.statement_cache);
    Ok(con)
}

fn has_xattrs(con: &Connection) -> bool {
    con.query_row(sql::HAS_XATTRS, (), |_| Ok(())).is_ok()
}

fn temp_container(name: &str) -> String {
    let path = fresh_path(name);
    create(&path, "test-password", 0);
    path
}

#[test]
fn deleting_an_inode_row_drops_its_xattrs() {
    let path = temp_container("gc");
    let con = open(&path, "test-password", false).unwrap();
    con.execute(
        "INSERT INTO inodes (parent, name, kind, mode, uid, gid, size, atime, mtime, ctime) \
         VALUES (1, 'f', ?1, 420, 0, 0, 0, 0.0, 0.0, 0.0)",
        (KIND_FILE,),
    )
    .unwrap();
    let ino: i64 = con.query_row("SELECT ino FROM inodes WHERE name='f'", (), |r| r.get(0)).unwrap();
    con.execute(
        "INSERT INTO xattrs (ino, name, value) VALUES (?1, 'user.a', x'01'), (?1, 'user.b', x'02')",
        (ino,),
    )
    .unwrap();
    let count = |c: &Connection| -> i64 {
        c.query_row("SELECT count(*) FROM xattrs WHERE ino=?1", (ino,), |r| r.get(0)).unwrap()
    };
    assert_eq!(count(&con), 2);
    con.execute("DELETE FROM inodes WHERE ino=?1", (ino,)).unwrap();
    assert_eq!(count(&con), 0, "trigger must remove the inode's xattr rows");
}

#[test]
fn xattrs_table_is_added_on_writable_open_only() {
    let path = temp_container("added");
    {
        let con = open(&path, "test-password", false).unwrap();
        con.execute_batch("DROP TRIGGER xattrs_gc; DROP TABLE xattrs;").unwrap();
        assert!(!has_xattrs(&con));
    }
    {
        let con = open(&path, "test-password", true).unwrap();
        assert!(!has_xattrs(&con), "read-only open must not add the table");
    }
    {
        let con = open(&path, "test-password", false).unwrap();
        assert!(has_xattrs(&con), "writable open adds the table");
        let trigger: i64 = con
            .query_row("SELECT count(*) FROM sqlite_master WHERE type='trigger' AND name='xattrs_gc'", (), |r| r.get(0))
            .unwrap();
        assert_eq!(trigger, 1);
    }
}

#[test]
fn wrong_password_and_newer_schema_are_refused() {
    let path = temp_container("refused");
    assert!(open(&path, "not-the-password", true).is_err());
    {
        let con = open(&path, "test-password", false).unwrap();
        con.execute("UPDATE meta SET value='99' WHERE key='schema_version'", ()).unwrap();
    }
    let err = open(&path, "test-password", true).unwrap_err();
    assert!(err.message(&path).contains("format version 99"), "{err:?}");
    assert_eq!(err, OpenError::OtherFormat("99".to_string()));
}

#[test]
fn a_new_container_holds_a_root_and_its_ceiling() {
    let path = fresh_path("new");
    create(&path, "it's a 'secret'", 12345);
    assert!(matches!(open(&path, "its a secret", true), Err(OpenError::WrongPassword)));
    let con = open(&path, "it's a 'secret'", true).unwrap();
    let root: (i64, String, i64, i64) = con
        .query_row("SELECT parent, name, kind, mode FROM inodes WHERE ino=1", (), |r| {
            Ok((r.get(0)?, r.get(1)?, r.get(2)?, r.get(3)?))
        })
        .unwrap();
    assert_eq!(root, (0, String::new(), KIND_DIR, 0o40700));
    let row: Option<String> = con.query_row(sql::SELECT_MAX_SIZE, (), |r| r.get(0)).optional().unwrap();
    assert_eq!(read_max_size(row.as_deref()), 12345);
    let block: String = con.query_row("SELECT value FROM meta WHERE key='block_size'", (), |r| r.get(0)).unwrap();
    assert_eq!(block, "131072");
    // What is opened to be read cannot be written.
    assert!(con.execute_batch("DELETE FROM meta").is_err());
}

#[test]
fn a_file_in_the_way_is_left_alone() {
    assert!(matches!(create_container("/x", true, "p", 0, String::new()), Err(AlreadyExists)));
    let plan = create_container("a/b.coffer", false, "p", 7, "0".to_string()).ok().unwrap();
    assert_eq!(plan.dir.as_deref(), Some("a"));
    assert_eq!(plan.file_mode, 0o600);
    assert_eq!(plan.meta[3].value, "7");
    let plan = create_container("b.coffer", false, "p", 7, "0".to_string()).ok().unwrap();
    assert_eq!(plan.dir, None);
}

#[test]
fn opening_is_planned() {
    assert!(matches!(open_db("/x", false, "p", true), Err(OpenError::NotFound)));
    assert_eq!(open_db("/x", true, "p", true).ok().unwrap().uri, "file:/x?mode=ro");
    assert_eq!(open_db("/x", true, "p", false).ok().unwrap().uri, "file:/x");
    assert_eq!(check_version(Some("1")), Ok(()));
    assert_eq!(check_version(None), Err(OpenError::WrongPassword));
    assert_eq!(OpenError::NotFound.message("/x"), "/x not found");
    assert_eq!(
        OpenError::OtherFormat("2".to_string()).message("/x"),
        "/x uses container format version 2, this coffer understands version 1 - upgrade coffer"
    );
    assert!(OpenError::WrongPassword.message("/x").starts_with("wrong password"));
}

#[test]
fn ceilings_that_cannot_be_read_are_none() {
    assert_eq!(read_max_size(None), 0);
    assert_eq!(read_max_size(Some("")), 0);
    assert_eq!(read_max_size(Some("-1")), 0);
    assert_eq!(read_max_size(Some("18446744073709551616")), 0);
    assert_eq!(read_max_size(Some("18446744073709551615")), u64::MAX);
}

#[test]
fn quotes_in_a_password_are_doubled() {
    assert_eq!(pragma_key_sql("key", "it's").text(), "PRAGMA key = 'it''s'");
    assert_eq!(pragma_key_sql("rekey", "").text(), "PRAGMA rekey = ''");
    assert_eq!(pragma_key_sql("key", "''").text(), "PRAGMA key = ''''''");
}

#[test]
fn a_password_can_be_changed() {
    let path = temp_container("rekey");
    {
        let con = open(&path, "test-password", false).unwrap();
        con.execute_batch(pragma_key_sql("rekey", "o'ther").text()).unwrap();
    }
    assert!(open(&path, "test-password", true).is_err());
    assert!(open(&path, "o'ther", true).is_ok());
}

#[test]
fn compacting_keeps_what_is_stored() {
    let path = temp_container("compact");
    let con = open(&path, "test-password", false).unwrap();
    con.execute_batch(sql::VACUUM).unwrap();
    let n: i64 = con.query_row("SELECT count(*) FROM inodes", (), |r| r.get(0)).unwrap();
    assert_eq!(n, 1);
}
