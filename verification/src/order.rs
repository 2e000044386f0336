//! Stable sorting by a byte-string key, the order of `str` comparison.
use vstd::prelude::*;

use crate::text::{bytes_less, bytes_lt, lemma_bytes_lt_irreflexive, lemma_bytes_lt_total, lemma_bytes_lt_transitive};

verus! {

/// A value ordered by a byte-string key.
pub trait ByteKeyed {
    spec fn key_of(&self) -> Seq<u8>;

    fn key(&self) -> (k: &[u8])
        ensures
            k@ == self.key_of(),
    ;
}

/// Where `x` goes in sorted `s` from `i` on: before the first element whose
/// key is not less than its own.
pub open spec fn insert_position<T: ByteKeyed>(s: Seq<T>, x: T, i: int) -> int
    decreases s.len() - i,
{
    if i < 0 || i >= s.len() {
        s.len() as int
    } else if !bytes_lt(s[i].key_of(), x.key_of()) {
        i
    } else {
        insert_position(s, x, i + 1)
    }
}

/// `s` stably sorted by key: the rest sorted first, then the first element
/// inserted before every element whose key is not less, so that equal keys
/// keep their order.
pub open spec fn stable_sort<T: ByteKeyed>(s: Seq<T>) -> Seq<T>
    decreases s.len(),
{
    if s.len() == 0 {
        s
    } else {
        let sorted = stable_sort(s.drop_first());
        sorted.insert(insert_position(sorted, s[0], 0), s[0])
    }
}

/// Keys never decrease along `s`.
pub open spec fn sorted_by_key<T: ByteKeyed>(s: Seq<T>) -> bool {
    forall|i: int, j: int|
        0 <= i < j < s.len() ==> !bytes_lt(#[trigger] s[j].key_of(), #[trigger] s[i].key_of())
}

proof fn lemma_insert_position_bounds<T: ByteKeyed>(s: Seq<T>, x: T, i: int)
    requires
        0 <= i <= s.len(),
    ensures
        i <= insert_position(s, x, i) <= s.len(),
        forall|k: int|
            i <= k < insert_position(s, x, i) ==> bytes_lt(#[trigger] s[k].key_of(), x.key_of()),
        insert_position(s, x, i) < s.len() ==> !bytes_lt(
            s[insert_position(s, x, i)].key_of(),
            x.key_of(),
        ),
    decreases s.len() - i,
{
    if i < s.len() && bytes_lt(s[i].key_of(), x.key_of()) {
        lemma_insert_position_bounds(s, x, i + 1);
    }
}

/// Not less is transitive.
proof fn lemma_not_less_transitive(a: Seq<u8>, b: Seq<u8>, c: Seq<u8>)
    requires
        !bytes_lt(a, b),
        !bytes_lt(b, c),
    ensures
        !bytes_lt(a, c),
{
    lemma_bytes_lt_total(a, b);
    lemma_bytes_lt_total(b, c);
    if bytes_lt(a, c) {
        if a =~= b {
        } else if b =~= c {
        } else {
            lemma_bytes_lt_transitive(c, b, a);
            lemma_bytes_lt_transitive(a, c, a);
            lemma_bytes_lt_irreflexive(a);
        }
    }
}

/// Inserting at the insert position keeps a sorted sequence sorted.
proof fn lemma_insert_sorted<T: ByteKeyed>(s: Seq<T>, x: T)
    requires
        sorted_by_key(s),
    ensures
        sorted_by_key(s.insert(insert_position(s, x, 0), x)),
{
    lemma_insert_position_bounds(s, x, 0);
    let p = insert_position(s, x, 0);
    let t = s.insert(p, x);
    assert forall|i: int, j: int| 0 <= i < j < t.len() implies !bytes_lt(
        #[trigger] t[j].key_of(),
        #[trigger] t[i].key_of(),
    ) by {
        if j == p {
            assert(t[i] == s[i]);
            if bytes_lt(x.key_of(), s[i].key_of()) {
                lemma_bytes_lt_transitive(x.key_of(), s[i].key_of(), x.key_of());
                lemma_bytes_lt_irreflexive(x.key_of());
            }
        } else if i == p {
            assert(t[j] == s[j - 1]);
            if j - 1 > p {
                assert(!bytes_lt(s[j - 1].key_of(), s[p].key_of()));
                lemma_not_less_transitive(s[j - 1].key_of(), s[p].key_of(), x.key_of());
            }
        } else if i < p && j > p {
            assert(t[i] == s[i] && t[j] == s[j - 1]);
        } else if j < p {
            assert(t[i] == s[i] && t[j] == s[j]);
        } else {
            assert(t[i] == s[i - 1] && t[j] == s[j - 1]);
        }
    }
}

/// A stable sort is sorted.
pub proof fn lemma_stable_sort_sorted<T: ByteKeyed>(s: Seq<T>)
    ensures
        sorted_by_key(stable_sort(s)),
    decreases s.len(),
{
    if s.len() > 0 {
        lemma_stable_sort_sorted(s.drop_first());
        lemma_insert_sorted(stable_sort(s.drop_first()), s[0]);
    }
}

/// A stable sort keeps every element, as many times as it occurs.
pub proof fn lemma_stable_sort_permutes<T: ByteKeyed>(s: Seq<T>)
    ensures
        stable_sort(s).to_multiset() == s.to_multiset(),
        stable_sort(s).len() == s.len(),
    decreases s.len(),
{
    broadcast use vstd::seq_lib::group_to_multiset_ensures;

    if s.len() > 0 {
        let rest = s.drop_first();
        lemma_stable_sort_permutes(rest);
        let sorted = stable_sort(rest);
        lemma_insert_position_bounds(sorted, s[0], 0);
        let p = insert_position(sorted, s[0], 0);
        assert(sorted.insert(p, s[0]) =~= sorted.subrange(0, p).push(s[0]) + sorted.subrange(p, sorted.len() as int));
        assert(sorted =~= sorted.subrange(0, p) + sorted.subrange(p, sorted.len() as int));
        vstd::seq_lib::lemma_multiset_commutative(sorted.subrange(0, p).push(s[0]), sorted.subrange(p, sorted.len() as int));
        vstd::seq_lib::lemma_multiset_commutative(sorted.subrange(0, p), sorted.subrange(p, sorted.len() as int));
        assert(s =~= seq![s[0]] + rest);
        vstd::seq_lib::lemma_multiset_commutative(seq![s[0]], rest);
    }
}

/// Sorts `v` stably by key.
pub fn sort_by_key<T: ByteKeyed>(v: Vec<T>) -> (r: Vec<T>)
    ensures
        r@ == stable_sort(v@),
        sorted_by_key(r@),
{
    let ghost all = v@;
    let n = v.len();
    let mut rest = v;
    let mut sorted: Vec<T> = Vec::new();
    assert(all.subrange(n as int, n as int) =~= Seq::<T>::empty());
    while rest.len() > 0
        invariant
            n == all.len(),
            rest@.len() <= n,
            rest@ == all.take(rest@.len() as int),
            sorted@ == stable_sort(all.subrange(rest@.len() as int, n as int)),
        decreases rest@.len(),
    {
        let ghost r = rest@.len() as int;
        let x = rest.pop().unwrap();
        assert(rest@ =~= all.take(r - 1));
        let ghost tail = all.subrange(r - 1, n as int);
        assert(tail.drop_first() =~= all.subrange(r, n as int));
        assert(tail[0] == x);
        let mut p: usize = 0;
        while p < sorted.len() && bytes_less(sorted[p].key(), x.key())
            invariant
                p <= sorted@.len(),
                insert_position(sorted@, x, 0) == insert_position(sorted@, x, p as int),
            decreases sorted@.len() - p,
        {
            p = p + 1;
        }
        sorted.insert(p, x);
    }
    assert(all.subrange(0, n as int) =~= all);
    proof {
        lemma_stable_sort_sorted(all);
    }
    sorted
}

} // verus!
