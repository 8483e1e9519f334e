//! What a change of content or owner takes from a file.
use vstd::prelude::*;

use crate::fs::coffer;
use crate::fs::lemmas;
use crate::fs::tables::{Inode, Tables};
use crate::fs::tables;
use crate::fs::types::{Row, CAPABILITY_XATTR, S_ISGID, S_ISUID, S_IXGRP};

verus! {

/// The mode without setuid, and without setgid where that is a privilege.
pub open spec fn plain_mode(mode: i64) -> i64 {
    tables::without_setgid(tables::without_setuid(mode))
}

/// The tables after an inode lost its privileges.
pub open spec fn without_privileges(t: Tables, ino: u64) -> Tables {
    Tables {
        xattrs: t.xattrs.remove((ino, CAPABILITY_XATTR@)),
        ..t.with_row(
            ino,
            Row { mode: plain_mode(t.inodes[ino].row.mode), ..t.inodes[ino].row },
        )
    }
}

/// The statements that drop privileges do so.
pub proof fn lemma_privilege_drop(t: Tables, ino: u64)
    ensures
        t.apply_all(coffer::privilege_drop(ino)) == Some(without_privileges(t, ino)),
{
    let list = coffer::privilege_drop(ino);
    lemmas::lemma_apply_three(t, list[0], list[1], list[2]);
    assert(list =~= seq![list[0], list[1], list[2]]);
    if t.inodes.contains_key(ino) {
        let row = t.inodes[ino].row;
        let first = Row { mode: tables::without_setuid(row.mode), ..row };
        let both = Row { mode: plain_mode(row.mode), ..row };
        let once = t.inodes.insert(ino, Inode { row: first, ..t.inodes[ino] });
        assert(once.insert(ino, Inode { row: both, ..once[ino] }) =~= t.inodes.insert(
            ino,
            Inode { row: both, ..t.inodes[ino] },
        ));
    }
}

/// Afterwards the file is not setuid, and not setgid if its group may execute
/// it; every other bit of the mode is what it was. Without execute permission
/// for the group the setgid bit, which then marks mandatory locking, stays.
pub proof fn privileges_dropped(mode: i64)
    ensures
        plain_mode(mode) & S_ISUID == 0,
        mode & S_IXGRP != 0 ==> plain_mode(mode) & S_ISGID == 0,
        mode & S_IXGRP == 0 ==> plain_mode(mode) & S_ISGID == mode & S_ISGID,
        plain_mode(mode) & !(S_ISUID | S_ISGID) == mode & !(S_ISUID | S_ISGID),
        plain_mode(plain_mode(mode)) == plain_mode(mode),
{
    assert((mode & !0o4000i64) & 0o4000 == 0) by (bit_vector);
    assert(((mode & !0o4000i64) & !0o2000i64) & 0o4000 == 0) by (bit_vector);
    assert(((mode & !0o4000i64) & !0o2000i64) & 0o2000 == 0) by (bit_vector);
    assert((mode & !0o4000i64) & 0o010 == mode & 0o010) by (bit_vector);
    assert((mode & !0o4000i64) & 0o2000 == mode & 0o2000) by (bit_vector);
    assert(((mode & !0o4000i64) & !0o2000i64) & 0o010 == mode & 0o010) by (bit_vector);
    assert((mode & !0o4000i64) & !(0o4000i64 | 0o2000i64) == mode & !(0o4000i64 | 0o2000i64)) by (bit_vector);
    assert(((mode & !0o4000i64) & !0o2000i64) & !(0o4000i64 | 0o2000i64) == mode & !(0o4000i64 | 0o2000i64))
        by (bit_vector);
    assert((mode & !0o4000i64) & !0o4000i64 == mode & !0o4000i64) by (bit_vector);
    assert((((mode & !0o4000i64) & !0o2000i64) & !0o4000i64) & 0o010 == mode & 0o010)
        by (bit_vector);
    assert((((mode & !0o4000i64) & !0o2000i64) & !0o4000i64) & !0o2000i64 == (mode & !0o4000i64) & !0o2000i64)
        by (bit_vector);
}

} // verus!
