//! A container that was just created.
use vstd::prelude::*;

use crate::fs::coffer::CofferFS;
use crate::fs::lemmas;
use crate::fs::tables::{Inode, Tables};
use crate::fs::types::{Row, RowView, Stamp, KIND_DIR, ROOT_INO};

verus! {

/// The row of the root directory.
pub open spec fn root_row(mode: i64, uid: u32, gid: u32, now: Stamp) -> RowView {
    Row {
        kind: KIND_DIR,
        mode,
        uid,
        gid,
        size: 0,
        atime: now,
        mtime: now,
        ctime: now,
        symlink_target: None,
    }
}

/// The tables of a new container: the root and nothing else.
pub open spec fn fresh(mode: i64, uid: u32, gid: u32, now: Stamp) -> Tables {
    Tables {
        inodes: map![
            ROOT_INO => Inode {
                parent: 0,
                name: Seq::empty(),
                row: root_row(mode, uid, gid, now),
            }
        ],
        data: Map::empty(),
        xattrs: Map::empty(),
        last_ino: ROOT_INO,
    }
}

/// A new container is well formed, empty and under any ceiling.
pub proof fn fresh_is_well_formed(mode: i64, uid: u32, gid: u32, now: Stamp, fs: CofferFS)
    ensures
        fresh(mode, uid, gid, now).well_formed(),
        fresh(mode, uid, gid, now).total() == 0,
        fresh(mode, uid, gid, now).under_ceiling(fs),
        !fresh(mode, uid, gid, now).has_children(ROOT_INO),
{
    let t = fresh(mode, uid, gid, now);
    assert(t.inodes.remove(ROOT_INO) =~= Map::empty());
    assert(t.inodes.dom() =~= set![ROOT_INO]);
    lemmas::lemma_sum_remove(t.inodes, ROOT_INO);
    assert(t.reaches_root(ROOT_INO, 0));
}

} // verus!
