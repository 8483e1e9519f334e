//! The texts that are sent to the database.
use vstd::prelude::*;

verus! {

/// The format of a container. A table that older versions ignore does not
/// change it; a change of `meta`, `inodes` or `data` does.
pub const SCHEMA_VERSION: &'static str = "1";

pub const SCHEMA: &'static str =
    "
CREATE TABLE meta (
    key   TEXT PRIMARY KEY,
    value TEXT
);
CREATE TABLE inodes (
    ino            INTEGER PRIMARY KEY AUTOINCREMENT,
    parent         INTEGER NOT NULL,
    name           TEXT NOT NULL,
    kind           INTEGER NOT NULL,
    mode           INTEGER NOT NULL,
    uid            INTEGER NOT NULL,
    gid            INTEGER NOT NULL,
    size           INTEGER NOT NULL DEFAULT 0,
    atime          REAL NOT NULL,
    mtime          REAL NOT NULL,
    ctime          REAL NOT NULL,
    symlink_target TEXT,
    UNIQUE(parent, name)
);
CREATE INDEX idx_inodes_parent ON inodes(parent);
CREATE TABLE data (
    ino      INTEGER NOT NULL,
    block_no INTEGER NOT NULL,
    content  BLOB NOT NULL,
    PRIMARY KEY (ino, block_no)
) WITHOUT ROWID;
";

/// Extended attributes, apart from the rest so that an older container can be
/// given the table. The trigger drops an inode's attributes with its row,
/// whichever version deletes it.
pub const XATTRS_SCHEMA: &'static str =
    "
CREATE TABLE IF NOT EXISTS xattrs (
    ino   INTEGER NOT NULL,
    name  TEXT NOT NULL,
    value BLOB NOT NULL,
    PRIMARY KEY (ino, name)
) WITHOUT ROWID;
CREATE TRIGGER IF NOT EXISTS xattrs_gc AFTER DELETE ON inodes
BEGIN
    DELETE FROM xattrs WHERE ino = OLD.ino;
END;
";

pub const SILENCE_LOG: &'static str = "PRAGMA cipher_log_level = NONE;";

pub const PAGE_SIZE: &'static str = "PRAGMA cipher_page_size = 4096;";

pub const JOURNAL_WAL: &'static str = "PRAGMA journal_mode = WAL;";

pub const OPEN_WRITABLE: &'static str =
    "PRAGMA journal_mode = WAL; PRAGMA synchronous = NORMAL; PRAGMA foreign_keys = OFF;";

/// Keep far more decrypted pages than the default: a page that is not there
/// has to be decrypted and checked again.
pub const CACHE_SIZE: &'static str = "PRAGMA cache_size = -131072;";

/// The copy goes to a file, not to memory; and the file shrinks only once the
/// log is written back.
pub const VACUUM: &'static str =
    "PRAGMA temp_store = FILE; VACUUM; PRAGMA wal_checkpoint(TRUNCATE);";

pub const INSERT_ROOT: &'static str =
    "INSERT INTO inodes (ino, parent, name, kind, mode, uid, gid, size, atime, mtime, ctime) VALUES (1, 0, '', ?1, ?2, ?3, ?4, 0, ?5, ?5, ?5)";

pub const INSERT_META: &'static str = "INSERT INTO meta (key, value) VALUES (?1, ?2)";

pub const SELECT_SCHEMA_VERSION: &'static str =
    "SELECT value FROM meta WHERE key='schema_version'";

pub const SELECT_MAX_SIZE: &'static str = "SELECT value FROM meta WHERE key='max_size'";

pub const HAS_XATTRS: &'static str =
    "SELECT 1 FROM sqlite_master WHERE type='table' AND name='xattrs'";

pub const SELECT_ROW_BY_INO: &'static str =
    "SELECT ino, kind, mode, uid, gid, size, atime, mtime, ctime, symlink_target FROM inodes WHERE ino=?1";

pub const SELECT_CHILD: &'static str = "SELECT ino FROM inodes WHERE parent=?1 AND name=?2";

pub const SELECT_ANY_CHILD: &'static str = "SELECT 1 FROM inodes WHERE parent=?1 LIMIT 1";

pub const SELECT_CHILDREN: &'static str =
    "SELECT ino, name, kind FROM inodes WHERE parent=?1 ORDER BY ino";

pub const SELECT_KIND: &'static str = "SELECT kind FROM inodes WHERE ino=?1";

pub const SELECT_PARENT: &'static str = "SELECT parent FROM inodes WHERE ino=?1";

pub const SELECT_TOTAL: &'static str = "SELECT COALESCE(SUM(size), 0) FROM inodes";

pub const COUNT_KIND: &'static str = "SELECT COUNT(*) FROM inodes WHERE kind=?1";

pub const CHECK_PAGES: &'static str = "PRAGMA cipher_integrity_check";

pub const CHECK_STRUCTURE: &'static str = "PRAGMA integrity_check";

pub const SELECT_PAGE_SIZE: &'static str = "PRAGMA page_size";

pub const SELECT_BLOCK: &'static str = "SELECT content FROM data WHERE ino=?1 AND block_no=?2";

pub const SELECT_XATTR: &'static str = "SELECT value FROM xattrs WHERE ino=?1 AND name=?2";

pub const SELECT_XATTR_EXISTS: &'static str = "SELECT 1 FROM xattrs WHERE ino=?1 AND name=?2";

pub const SELECT_XATTR_NAMES: &'static str = "SELECT name FROM xattrs WHERE ino=?1 ORDER BY name";

pub const INSERT_INODE: &'static str =
    "INSERT INTO inodes (parent, name, kind, mode, uid, gid, size, atime, mtime, ctime, symlink_target) VALUES (?1, ?2, ?3, ?4, ?5, ?6, ?7, ?8, ?8, ?8, ?9)";

pub const MOVE_INODE: &'static str = "UPDATE inodes SET parent=?1, name=?2 WHERE ino=?3";

pub const DELETE_INODE: &'static str = "DELETE FROM inodes WHERE ino=?1";

pub const SET_MODE: &'static str = "UPDATE inodes SET mode=?1, ctime=?2 WHERE ino=?3";

pub const SET_OWNER: &'static str = "UPDATE inodes SET uid=?1, gid=?2, ctime=?3 WHERE ino=?4";

pub const SET_SIZE: &'static str = "UPDATE inodes SET size=?1, mtime=?2, ctime=?2 WHERE ino=?3";

pub const SET_TIMES: &'static str = "UPDATE inodes SET atime=?1, mtime=?2 WHERE ino=?3";

pub const TOUCH: &'static str = "UPDATE inodes SET mtime=?1, ctime=?1 WHERE ino=?2";

pub const TOUCH_BOTH: &'static str = "UPDATE inodes SET mtime=?1, ctime=?1 WHERE ino IN (?2, ?3)";

pub const SET_CTIME: &'static str = "UPDATE inodes SET ctime=?1 WHERE ino=?2";

/// 2048 is the setuid bit.
pub const CLEAR_SETUID: &'static str =
    "UPDATE inodes SET mode = mode & ~2048 WHERE ino=?1 AND (mode & 2048) != 0";

/// 1024 is the setgid bit, 8 the group's execute permission.
pub const CLEAR_SETGID: &'static str =
    "UPDATE inodes SET mode = mode & ~1024 WHERE ino=?1 AND (mode & 1024) != 0 AND (mode & 8) != 0";

pub const PUT_BLOCK: &'static str =
    "INSERT INTO data (ino, block_no, content) VALUES (?1, ?2, ?3) ON CONFLICT(ino, block_no) DO UPDATE SET content=excluded.content";

pub const DELETE_BLOCK: &'static str = "DELETE FROM data WHERE ino=?1 AND block_no=?2";

pub const DELETE_BLOCKS_AFTER: &'static str = "DELETE FROM data WHERE ino=?1 AND block_no>?2";

pub const DELETE_BLOCKS: &'static str = "DELETE FROM data WHERE ino=?1";

pub const PUT_XATTR: &'static str =
    "INSERT OR REPLACE INTO xattrs (ino, name, value) VALUES (?1, ?2, ?3)";

pub const DELETE_XATTR: &'static str = "DELETE FROM xattrs WHERE ino=?1 AND name=?2";

pub const DELETE_XATTRS: &'static str = "DELETE FROM xattrs WHERE ino=?1";

} // verus!
