//! What holds of a container's tables between any two calls.
use vstd::prelude::*;

use crate::fs::coffer::CofferFS;
use crate::fs::tables::Tables;
use crate::fs::types::{BLOCK_SIZE, KIND_DIR, MAX_FILE_SIZE, ROOT_INO};

verus! {

impl Tables {
    /// What every container holds to between two calls.
    pub open spec fn well_formed(self) -> bool {
        &&& self.inodes.dom().finite()
        &&& self.xattrs.dom().finite()
        &&& self.rooted()
        &&& self.numbered()
        &&& self.no_orphans()
        &&& self.all_reachable()
        &&& self.names_unique()
        &&& self.data_in_bounds()
        &&& self.xattrs_owned()
        &&& self.sizes_fit()
    }

    /// Whether the files add up to no more than the ceiling.
    pub open spec fn under_ceiling(self, fs: CofferFS) -> bool {
        fs.max_size == 0 || self.total() <= fs.max_size
    }

    /// Whether `after` gave no number to an inode that was given out before.
    pub open spec fn numbers_fresh(self, after: Tables) -> bool {
        &&& self.last_ino <= after.last_ino
        &&& forall|ino: u64| #[trigger]
            after.inodes.contains_key(ino) && !self.inodes.contains_key(ino) ==> ino > self.last_ino
    }

    /// The root is a directory, and no entry of any other.
    pub open spec fn rooted(self) -> bool {
        &&& self.inodes.contains_key(ROOT_INO)
        &&& self.inodes[ROOT_INO].parent == 0
        &&& self.inodes[ROOT_INO].row.kind == KIND_DIR
    }

    /// No inode has a number that was not given out.
    pub open spec fn numbered(self) -> bool {
        &&& self.last_ino <= MAX_FILE_SIZE
        &&& forall|ino: u64| #[trigger]
            self.inodes.contains_key(ino) ==> 0 < ino <= self.last_ino
    }

    pub open spec fn is_dir(self, ino: u64) -> bool {
        &&& self.inodes.contains_key(ino)
        &&& self.inodes[ino].row.kind == KIND_DIR
    }

    /// Every inode but the root is in a directory that exists.
    pub open spec fn no_orphans(self) -> bool {
        forall|ino: u64|
            self.inodes.contains_key(ino) && ino != ROOT_INO ==> self.is_dir(
                #[trigger] self.inodes[ino].parent,
            )
    }

    /// Whether the way up from `ino` ends at the root after `n` steps.
    pub open spec fn reaches_root(self, ino: u64, n: nat) -> bool
        decreases n,
    {
        &&& self.inodes.contains_key(ino)
        &&& if n == 0 {
            ino == ROOT_INO
        } else {
            ino != ROOT_INO && self.reaches_root(self.inodes[ino].parent, (n - 1) as nat)
        }
    }

    /// Every inode can be reached from the root.
    pub open spec fn all_reachable(self) -> bool {
        forall|ino: u64| #[trigger]
            self.inodes.contains_key(ino) ==> exists|n: nat| self.reaches_root(ino, n)
    }

    /// Whether the way up from `ino` comes by `other` within `n` steps.
    pub open spec fn passes(self, ino: u64, other: u64, n: nat) -> bool
        decreases n,
    {
        ino == other || (n > 0 && ino != ROOT_INO && self.passes(
            self.inodes[ino].parent,
            other,
            (n - 1) as nat,
        ))
    }

    /// Whether `ino` is `other` or somewhere below it.
    pub open spec fn within(self, ino: u64, other: u64) -> bool {
        exists|n: nat| self.passes(ino, other, n)
    }

    /// A directory has at most one entry of a name.
    pub open spec fn names_unique(self) -> bool {
        forall|i: u64, j: u64|
            #![trigger self.inodes.contains_key(i), self.inodes.contains_key(j)]
            self.inodes.contains_key(i) && self.inodes.contains_key(j) && self.inodes[i].parent
                == self.inodes[j].parent && self.inodes[i].name == self.inodes[j].name ==> i == j
    }

    /// Blocks belong to inodes, are not empty and end where the file does.
    pub open spec fn data_in_bounds(self) -> bool {
        forall|k: (u64, i64)| #[trigger]
            self.data.contains_key(k) ==> {
                &&& self.inodes.contains_key(k.0)
                &&& k.1 >= 0
                &&& 0 < self.data[k].len() <= BLOCK_SIZE
                &&& k.1 * BLOCK_SIZE + self.data[k].len()
                    <= self.inodes[k.0].row.size
            }
    }

    pub open spec fn xattrs_owned(self) -> bool {
        forall|k: (u64, Seq<char>)| #[trigger]
            self.xattrs.contains_key(k) ==> self.inodes.contains_key(k.0)
    }

    pub open spec fn sizes_fit(self) -> bool {
        forall|ino: u64| #[trigger]
            self.inodes.contains_key(ino) ==> self.inodes[ino].row.size
                <= MAX_FILE_SIZE
    }
}

} // verus!
