//! Lists of what the tables hold, in the order in which they are asked for:
//! there is one, and only one.
use vstd::prelude::*;
use vstd::relations;

use crate::fs::tables::Tables;
use crate::fs::tables;
use crate::fs::types::{Child, MAX_FILE_SIZE};

verus! {

/// The elements of a finite set, each once.
proof fn lemma_list<A>(s: Set<A>) -> (list: Seq<A>)
    requires
        s.finite(),
    ensures
        list.no_duplicates(),
        forall|x: A| #[trigger] list.contains(x) <==> s.contains(x),
    decreases s.len(),
{
    if s.len() == 0 {
        Seq::empty()
    } else {
        let x = s.choose();
        let rest = lemma_list(s.remove(x));
        let list = rest.push(x);
        assert(!rest.contains(x));
        assert forall|y: A| #[trigger] list.contains(y) <==> s.contains(y) by {
            if s.contains(y) {
                if y == x {
                    assert(list[rest.len() as int] == y);
                } else {
                    assert(rest.contains(y));
                    let i = choose|i: int| 0 <= i < rest.len() && rest[i] == y;
                    assert(list[i] == y);
                }
            }
            if list.contains(y) {
                let i = choose|i: int| 0 <= i < list.len() && list[i] == y;
                if i < rest.len() {
                    assert(rest.contains(y));
                }
            }
        }
        list
    }
}

/// The elements of a finite set, each once and in order.
proof fn lemma_sorted_list<A>(s: Set<A>, leq: spec_fn(A, A) -> bool) -> (list: Seq<A>)
    requires
        s.finite(),
        relations::total_ordering(leq),
    ensures
        relations::sorted_by(list, leq),
        list.no_duplicates(),
        forall|x: A| #[trigger] list.contains(x) <==> s.contains(x),
{
    broadcast use vstd::seq_lib::group_to_multiset_ensures;

    let loose = lemma_list(s);
    let list = loose.sort_by(leq);
    loose.lemma_sort_by_ensures(leq);
    loose.lemma_multiset_has_no_duplicates();
    list.lemma_multiset_has_no_duplicates_conv();
    assert forall|x: A| #[trigger] list.contains(x) <==> s.contains(x) by {
        assert(list.contains(x) <==> list.to_multiset().count(x) > 0);
        assert(loose.contains(x) <==> loose.to_multiset().count(x) > 0);
    }
    list
}

/// Two lists in order that hold the same are the same.
proof fn lemma_one_order<A>(a: Seq<A>, b: Seq<A>, leq: spec_fn(A, A) -> bool)
    requires
        relations::total_ordering(leq),
        relations::sorted_by(a, leq),
        relations::sorted_by(b, leq),
        a.no_duplicates(),
        b.no_duplicates(),
        forall|x: A| #[trigger] a.contains(x) <==> b.contains(x),
    ensures
        a == b,
{
    broadcast use vstd::seq_lib::group_to_multiset_ensures;

    a.lemma_multiset_has_no_duplicates();
    b.lemma_multiset_has_no_duplicates();
    assert forall|x: A| #[trigger] a.to_multiset().count(x) == b.to_multiset().count(x) by {
        assert(a.contains(x) <==> a.to_multiset().count(x) > 0);
        assert(b.contains(x) <==> b.to_multiset().count(x) > 0);
    }
    assert(a.to_multiset() =~= b.to_multiset());
    vstd::seq_lib::lemma_sorted_unique(a, b, leq);
}

/// The order of numbers.
spec fn by_number() -> spec_fn(u64, u64) -> bool {
    |a: u64, b: u64| a <= b
}

/// The order of names.
spec fn by_name() -> spec_fn(Seq<char>, Seq<char>) -> bool {
    |a: Seq<char>, b: Seq<char>| a == b || tables::name_before(a, b)
}

/// Nothing stands before itself, and of two one stands before the other.
proof fn lemma_bytes_connected(a: Seq<u8>, b: Seq<u8>)
    ensures
        a == b ==> !tables::bytes_before(a, b),
        a != b ==> (tables::bytes_before(a, b) <==> !tables::bytes_before(b, a)),
    decreases a.len(),
{
    if a.len() > 0 && b.len() > 0 && a[0] == b[0] {
        lemma_bytes_connected(a.skip(1), b.skip(1));
        if a.skip(1) == b.skip(1) {
            assert(seq![a[0]] + a.skip(1) =~= a);
            assert(seq![b[0]] + b.skip(1) =~= b);
        }
    } else if a.len() == 0 && b.len() == 0 {
        assert(a =~= b);
    }
}

proof fn lemma_bytes_transitive(a: Seq<u8>, b: Seq<u8>, c: Seq<u8>)
    requires
        tables::bytes_before(a, b),
        tables::bytes_before(b, c),
    ensures
        tables::bytes_before(a, c),
    decreases a.len(),
{
    if a.len() > 0 && a[0] == b[0] && b[0] == c[0] {
        lemma_bytes_transitive(a.skip(1), b.skip(1), c.skip(1));
    }
}

/// Two names are ordered one way, and a name not before itself.
proof fn lemma_names_connected(a: Seq<char>, b: Seq<char>)
    ensures
        a == b ==> !tables::name_before(a, b),
        a != b ==> (tables::name_before(a, b) <==> !tables::name_before(b, a)),
{
    vstd::utf8::encode_utf8_decode_utf8(a);
    vstd::utf8::encode_utf8_decode_utf8(b);
    lemma_bytes_connected(vstd::utf8::encode_utf8(a), vstd::utf8::encode_utf8(b));
}

proof fn lemma_names_ordered()
    ensures
        relations::total_ordering(by_name()),
{
    let leq = by_name();
    assert forall|x: Seq<char>, y: Seq<char>| #[trigger] leq(x, y) && #[trigger] leq(
        y,
        x,
    ) implies x == y by {
        lemma_names_connected(x, y);
    }
    assert forall|x: Seq<char>, y: Seq<char>, z: Seq<char>| #[trigger] leq(x, y) && #[trigger] leq(
        y,
        z,
    ) implies leq(x, z) by {
        if x != y && y != z {
            lemma_bytes_transitive(
                vstd::utf8::encode_utf8(x),
                vstd::utf8::encode_utf8(y),
                vstd::utf8::encode_utf8(z),
            );
        }
    }
    assert forall|x: Seq<char>, y: Seq<char>| #[trigger] leq(x, y) || #[trigger] leq(y, x) by {
        lemma_names_connected(x, y);
    }
}

/// The names of an inode's attributes in order have all that the order of
/// names asks for.
proof fn lemma_names_sorted(t: Tables, ino: u64, list: Seq<Seq<char>>)
    requires
        tables::lists_xattrs(t, ino, list),
    ensures
        relations::sorted_by(list, by_name()),
        list.no_duplicates(),
{
    assert forall|i: int, j: int| 0 <= i < list.len() && 0 <= j < list.len() && i != j implies list[i]
        != list[j] by {
        lemma_names_connected(list[i], list[j]);
        if i < j {
            assert(tables::name_before(list[i], list[j]));
        } else {
            assert(tables::name_before(list[j], list[i]));
        }
    }
    let leq = by_name();
    assert forall|i: int, j: int| 0 <= i < j < list.len() implies #[trigger] leq(
        list[i],
        list[j],
    ) by {
        assert(tables::name_before(list[i], list[j]));
    }
}

/// The names of an inode's attributes have one order, and only one.
pub proof fn names_have_one_order(t: Tables, ino: u64)
    requires
        t.xattrs.dom().finite(),
    ensures
        tables::lists_xattrs(t, ino, tables::xattr_names(t, ino)),
        forall|list: Seq<Seq<char>>| #[trigger]
            tables::lists_xattrs(t, ino, list) ==> list == tables::xattr_names(t, ino),
{
    let keys = t.xattrs.dom().filter(|k: (u64, Seq<char>)| k.0 == ino);
    t.xattrs.dom().lemma_len_filter(|k: (u64, Seq<char>)| k.0 == ino);
    let pick = |k: (u64, Seq<char>)| k.1;
    keys.lemma_map_finite(pick);
    lemma_names_ordered();
    let leq = by_name();
    let witness = lemma_sorted_list(keys.map(pick), leq);
    assert forall|i: int, j: int| 0 <= i < j < witness.len() implies tables::name_before(
        #[trigger] witness[i],
        #[trigger] witness[j],
    ) by {
        assert(leq(witness[i], witness[j]));
    }
    assert forall|name: Seq<char>| #[trigger] t.xattrs.contains_key((ino, name))
        <==> witness.contains(name) by {
        if t.xattrs.contains_key((ino, name)) {
            assert(keys.contains((ino, name)));
            assert(keys.map(pick).contains(pick((ino, name))));
        }
        if witness.contains(name) {
            assert(keys.map(pick).contains(name));
        }
    }
    assert(tables::lists_xattrs(t, ino, witness));
    let names = tables::xattr_names(t, ino);
    lemma_names_sorted(t, ino, names);
    assert forall|list: Seq<Seq<char>>| #[trigger] tables::lists_xattrs(t, ino, list) implies list
        == names by {
        lemma_names_sorted(t, ino, list);
        assert forall|x: Seq<char>| #[trigger] list.contains(x) <==> names.contains(x) by {
            assert(t.xattrs.contains_key((ino, x)) <==> list.contains(x));
        }
        lemma_one_order(list, names, leq);
    }
}

/// The inode numbers of some children.
spec fn numbers_of(list: Seq<Child<Seq<char>>>) -> Seq<u64> {
    Seq::new(list.len(), |i: int| list[i].ino)
}

proof fn lemma_numbers_sorted(t: Tables, parent: u64, list: Seq<Child<Seq<char>>>)
    requires
        tables::lists_children(t, parent, list),
    ensures
        relations::sorted_by(numbers_of(list), by_number()),
        numbers_of(list).no_duplicates(),
        forall|ino: u64| #[trigger]
            numbers_of(list).contains(ino) <==> t.is_child(ino, parent),
{
    let numbers = numbers_of(list);
    let leq = by_number();
    assert forall|i: int, j: int| 0 <= i < j < numbers.len() implies #[trigger] leq(
        numbers[i],
        numbers[j],
    ) by {
        assert(list[i].ino < list[j].ino);
    }
    assert forall|i: int, j: int|
        0 <= i < numbers.len() && 0 <= j < numbers.len() && i != j implies numbers[i]
        != numbers[j] by {
        if i < j {
            assert(list[i].ino < list[j].ino);
        } else {
            assert(list[j].ino < list[i].ino);
        }
    }
    assert forall|ino: u64| #[trigger] numbers.contains(ino) <==> t.is_child(ino, parent) by {
        if numbers.contains(ino) {
            let i = choose|i: int| 0 <= i < numbers.len() && numbers[i] == ino;
            assert(t.is_child(list[i].ino, parent));
        }
        if t.is_child(ino, parent) {
            let i = choose|i: int| 0 <= i < list.len() && #[trigger] list[i].ino == ino;
            assert(numbers[i] == ino);
        }
    }
}

/// The children of a directory have one order, and only one.
pub proof fn children_have_one_order(t: Tables, parent: u64)
    requires
        t.inodes.dom().finite(),
    ensures
        tables::lists_children(t, parent, tables::children_of(t, parent)),
        forall|list: Seq<Child<Seq<char>>>| #[trigger]
            tables::lists_children(t, parent, list) ==> list == tables::children_of(t, parent),
{
    let kids = t.inodes.dom().filter(|ino: u64| t.inodes[ino].parent == parent);
    t.inodes.dom().lemma_len_filter(|ino: u64| t.inodes[ino].parent == parent);
    let leq = by_number();
    let numbers = lemma_sorted_list(kids, leq);
    let witness = Seq::new(
        numbers.len(),
        |i: int|
            Child {
                ino: numbers[i],
                name: t.inodes[numbers[i]].name,
                kind: t.inodes[numbers[i]].row.kind,
            },
    );
    assert forall|i: int, j: int| 0 <= i < j < witness.len() implies witness[i].ino
        < witness[j].ino by {
        assert(leq(numbers[i], numbers[j]));
    }
    assert forall|i: int| 0 <= i < witness.len() implies #[trigger] t.is_child(
        witness[i].ino,
        parent,
    ) by {
        assert(numbers.contains(numbers[i]));
    }
    assert forall|ino: u64| t.is_child(ino, parent) implies exists|i: int|
        0 <= i < witness.len() && #[trigger] witness[i].ino == ino by {
        assert(numbers.contains(ino));
        let i = choose|i: int| 0 <= i < numbers.len() && numbers[i] == ino;
        assert(witness[i].ino == ino);
    }
    assert(tables::lists_children(t, parent, witness));
    let children = tables::children_of(t, parent);
    lemma_numbers_sorted(t, parent, children);
    assert forall|list: Seq<Child<Seq<char>>>| #[trigger]
        tables::lists_children(t, parent, list) implies list == children by {
        lemma_numbers_sorted(t, parent, list);
        lemma_one_order(numbers_of(list), numbers_of(children), leq);
        assert(list.len() == numbers_of(list).len());
        assert(children.len() == numbers_of(children).len());
        assert forall|i: int| 0 <= i < list.len() implies list[i] == children[i] by {
            assert(numbers_of(list)[i] == numbers_of(children)[i]);
            assert(t.is_child(list[i].ino, parent));
            assert(t.is_child(children[i].ino, parent));
        }
        assert(list =~= children);
    }
}

/// As many different positive numbers reach at least as far.
proof fn lemma_ascending_bounded(list: Seq<u64>, most: u64)
    requires
        forall|i: int, j: int| 0 <= i < j < list.len() ==> list[i] < list[j],
        forall|i: int| 0 <= i < list.len() ==> 0 < #[trigger] list[i] <= most,
    ensures
        list.len() <= most,
    decreases list.len(),
{
    if list.len() > 0 {
        let last = list.last();
        assert(list[list.len() - 1] == last);
        assert forall|i: int| 0 <= i < list.drop_last().len() implies 0 < #[trigger] list.drop_last()[i]
            <= last - 1 by {
            assert(list[i] < list[list.len() - 1]);
            assert(list[i] > 0);
        }
        lemma_ascending_bounded(list.drop_last(), (last - 1) as u64);
    }
}

/// A directory has no more children than there are inode numbers.
pub(crate) proof fn lemma_children_bounded(
    t: Tables,
    parent: u64,
    list: Seq<Child<Seq<char>>>,
)
    requires
        t.numbered(),
        tables::lists_children(t, parent, list),
    ensures
        list.len() <= MAX_FILE_SIZE,
{
    let numbers = numbers_of(list);
    assert forall|i: int| 0 <= i < numbers.len() implies 0 < #[trigger] numbers[i] <= t.last_ino by {
        assert(t.is_child(list[i].ino, parent));
    }
    lemma_ascending_bounded(numbers, t.last_ino);
}

} // verus!
