//! Facts about the tables that the laws rest on.
use vstd::prelude::*;

use crate::fs::tables::{Inode, Tables};
use crate::fs::tables;
use crate::fs::types::{Row, RowView, Stamp, StmtView, MAX_FILE_SIZE, ROOT_INO};

verus! {

/// One statement behind a list.
pub proof fn lemma_apply_push(t: Tables, list: Seq<StmtView>, stmt: StmtView)
    ensures
        t.apply_all(list.push(stmt)) == (match t.apply_all(list) {
            Some(t2) => t2.apply(stmt),
            None => None,
        }),
{
    assert(list.push(stmt).drop_last() =~= list);
}

/// A list behind a list.
pub proof fn lemma_apply_concat(t: Tables, first: Seq<StmtView>, second: Seq<StmtView>)
    ensures
        t.apply_all(first + second) == (match t.apply_all(first) {
            Some(t2) => t2.apply_all(second),
            None => None,
        }),
    decreases second.len(),
{
    if second.len() == 0 {
        assert(first + second =~= first);
    } else {
        lemma_apply_concat(t, first, second.drop_last());
        assert((first + second).drop_last() =~= first + second.drop_last());
        assert((first + second).last() == second.last());
    }
}

pub proof fn lemma_apply_empty(t: Tables)
    ensures
        t.apply_all(Seq::empty()) == Some(t),
{
}

pub proof fn lemma_apply_one(t: Tables, a: StmtView)
    ensures
        t.apply_all(seq![a]) == t.apply(a),
{
    assert(seq![a] =~= Seq::<StmtView>::empty().push(a));
    lemma_apply_push(t, Seq::empty(), a);
}

pub proof fn lemma_apply_two(t: Tables, a: StmtView, b: StmtView)
    ensures
        t.apply_all(seq![a, b]) == (match t.apply(a) {
            Some(t2) => t2.apply(b),
            None => None,
        }),
{
    assert(seq![a, b] =~= seq![a].push(b));
    lemma_apply_one(t, a);
    lemma_apply_push(t, seq![a], b);
}

pub proof fn lemma_apply_three(t: Tables, a: StmtView, b: StmtView, c: StmtView)
    ensures
        t.apply_all(seq![a, b, c]) == (match t.apply(a) {
            Some(t2) => match t2.apply(b) {
                Some(t3) => t3.apply(c),
                None => None,
            },
            None => None,
        }),
{
    assert(seq![a, b, c] =~= seq![a, b].push(c));
    lemma_apply_two(t, a, b);
    lemma_apply_push(t, seq![a, b], c);
}

/// The sum over a table is the size of any one inode and the sum over the
/// others.
pub proof fn lemma_sum_remove(inodes: Map<u64, Inode>, ino: u64)
    requires
        inodes.dom().finite(),
        inodes.contains_key(ino),
    ensures
        tables::sum_sizes(inodes) == inodes[ino].row.size + tables::sum_sizes(inodes.remove(ino)),
    decreases inodes.dom().len(),
{
    let first = inodes.dom().choose();
    if first != ino {
        let rest = inodes.remove(first);
        lemma_sum_remove(rest, ino);
        lemma_sum_remove(inodes.remove(ino), first);
        assert(inodes.remove(ino).remove(first) =~= rest.remove(ino));
    }
}

pub proof fn lemma_sum_insert_new(inodes: Map<u64, Inode>, ino: u64, inode: Inode)
    requires
        inodes.dom().finite(),
        !inodes.contains_key(ino),
    ensures
        tables::sum_sizes(inodes.insert(ino, inode)) == inode.row.size + tables::sum_sizes(inodes),
{
    let more = inodes.insert(ino, inode);
    lemma_sum_remove(more, ino);
    assert(more.remove(ino) =~= inodes);
}

pub proof fn lemma_sum_replace(inodes: Map<u64, Inode>, ino: u64, inode: Inode)
    requires
        inodes.dom().finite(),
        inodes.contains_key(ino),
    ensures
        tables::sum_sizes(inodes.insert(ino, inode)) == tables::sum_sizes(inodes)
            - inodes[ino].row.size + inode.row.size,
{
    let changed = inodes.insert(ino, inode);
    lemma_sum_remove(changed, ino);
    lemma_sum_remove(inodes, ino);
    assert(changed.remove(ino) =~= inodes.remove(ino));
}

pub proof fn lemma_sum_nonnegative(inodes: Map<u64, Inode>)
    requires
        inodes.dom().finite(),
    ensures
        tables::sum_sizes(inodes) >= 0,
    decreases inodes.dom().len(),
{
    if inodes.dom().len() != 0 {
        lemma_sum_nonnegative(inodes.remove(inodes.dom().choose()));
    }
}

/// In a table of unique names, an entry is what a lookup of it finds.
pub proof fn lemma_child(t: Tables, ino: u64, parent: u64, name: Seq<char>)
    requires
        t.names_unique(),
        t.at(ino, parent, name),
    ensures
        t.child(parent, name) == Some(ino),
{
    let found = choose|i: u64| t.at(i, parent, name);
    assert(t.at(found, parent, name));
    assert(t.inodes.contains_key(found) && t.inodes.contains_key(ino));
}

pub proof fn lemma_child_found(t: Tables, parent: u64, name: Seq<char>)
    requires
        t.child(parent, name) is Some,
    ensures
        t.at(t.child(parent, name)->Some_0, parent, name),
{
}

/// The way up does not change where no parent on it does.
pub proof fn lemma_reaches_still(t: Tables, t2: Tables, ino: u64, n: nat)
    requires
        t.reaches_root(ino, n),
        forall|i: u64| #[trigger]
            t.inodes.contains_key(i) ==> t2.inodes.contains_key(i) && t2.inodes[i].parent
                == t.inodes[i].parent,
    ensures
        t2.reaches_root(ino, n),
    decreases n,
{
    if n > 0 {
        lemma_reaches_still(t, t2, t.inodes[ino].parent, (n - 1) as nat);
    }
}

/// There is one way up.
pub proof fn lemma_reaches_once(t: Tables, ino: u64, n: nat, m: nat)
    requires
        t.reaches_root(ino, n),
        t.reaches_root(ino, m),
    ensures
        n == m,
    decreases n,
{
    if n > 0 && m > 0 {
        lemma_reaches_once(t, t.inodes[ino].parent, (n - 1) as nat, (m - 1) as nat);
    }
}

/// No inode is in itself.
pub proof fn lemma_not_own_parent(t: Tables, ino: u64)
    requires
        t.well_formed(),
        t.inodes.contains_key(ino),
    ensures
        t.inodes[ino].parent != ino,
{
    let n = choose|n: nat| t.reaches_root(ino, n);
    if t.inodes[ino].parent == ino {
        lemma_reaches_once(t, ino, n, (n - 1) as nat);
    }
}

/// Another row for an inode, of the same kind and no shorter.
pub proof fn lemma_with_row(t: Tables, ino: u64, row: RowView)
    requires
        t.well_formed(),
        t.inodes.contains_key(ino),
        row.kind == t.inodes[ino].row.kind,
        t.inodes[ino].row.size <= row.size <= MAX_FILE_SIZE,
    ensures
        t.with_row(ino, row).well_formed(),
        t.with_row(ino, row).total() == t.total() - t.inodes[ino].row.size + row.size,
{
    let t2 = t.with_row(ino, row);
    lemma_sum_replace(t.inodes, ino, Inode { row, ..t.inodes[ino] });
    assert(t2.inodes.dom() =~= t.inodes.dom());
    assert forall|i: u64| #[trigger] t2.inodes.contains_key(i) implies exists|n: nat|
        t2.reaches_root(i, n) by {
        assert(t.inodes.contains_key(i));
        let n = choose|n: nat| t.reaches_root(i, n);
        lemma_reaches_still(t, t2, i, n);
        assert(t2.reaches_root(i, n));
    }
    assert forall|i: u64| t2.inodes.contains_key(i) && i != ROOT_INO implies t2.is_dir(
        #[trigger] t2.inodes[i].parent,
    ) by {
        assert(t.is_dir(t.inodes[i].parent));
    }
    assert(t2.names_unique()) by {
        assert forall|i: u64, j: u64|
            #![trigger t2.inodes.contains_key(i), t2.inodes.contains_key(j)]
            t2.inodes.contains_key(i) && t2.inodes.contains_key(j) && t2.inodes[i].parent
                == t2.inodes[j].parent && t2.inodes[i].name == t2.inodes[j].name implies i == j by {
            assert(t.inodes.contains_key(i) && t.inodes.contains_key(j));
        }
    }
}

/// A change of times.
pub proof fn lemma_touched(t: Tables, ino: u64, now: Stamp)
    requires
        t.well_formed(),
    ensures
        t.touched(ino, now).well_formed(),
        t.touched(ino, now).total() == t.total(),
{
    if t.inodes.contains_key(ino) {
        lemma_with_row(t, ino, Row { mtime: now, ctime: now, ..t.inodes[ino].row });
    }
}

} // verus!
