//! Orders given as three-way comparison functions, and sortedness.

use vstd::prelude::*;
use std::cmp::Ordering;

verus! {

/// `a` comes no later than `b` under `ord`.
pub open spec fn le<T>(ord: spec_fn(T, T) -> Ordering, a: T, b: T) -> bool {
    ord(a, b) != Ordering::Greater
}

/// `ord` is a total preorder: answering `Greater` for `(a, b)` is the same as
/// answering `Less` for `(b, a)`, and "no later than" is transitive.
/// (Reflexivity and totality follow.)
pub open spec fn is_total_preorder<T>(ord: spec_fn(T, T) -> Ordering) -> bool {
    &&& forall|a: T, b: T|
        #[trigger] ord(a, b) == Ordering::Greater <==> ord(b, a) == Ordering::Less
    &&& forall|a: T, b: T, c: T|
        #![trigger ord(a, b), ord(b, c)]
        le(ord, a, b) && le(ord, b, c) ==> le(ord, a, c)
}

/// Every element of `s` comes no later than every element after it.
pub open spec fn sorted_by<T>(s: Seq<T>, ord: spec_fn(T, T) -> Ordering) -> bool {
    forall|i: int, j: int| 0 <= i < j < s.len() ==> #[trigger] le(ord, s[i], s[j])
}

/// `a` and `b` hold the same elements, counted with multiplicity.
pub open spec fn is_permutation<T>(a: Seq<T>, b: Seq<T>) -> bool {
    a.to_multiset() == b.to_multiset()
}


/// The first `n` elements of `s`.
pub open spec fn prefix<T>(s: Seq<T>, n: usize) -> Seq<T> {
    s.subrange(0, n as int)
}

/// The elements of `s` from position `n` on.
pub open spec fn suffix<T>(s: Seq<T>, n: usize) -> Seq<T> {
    s.subrange(n as int, s.len() as int)
}

/// `s` with its element at `i` moved to position `idx`, the elements from
/// `idx` up to `i` shifting one place towards the end.
pub open spec fn moved_back<T>(s: Seq<T>, idx: usize, i: usize) -> Seq<T> {
    s.take(idx as int) + seq![s[i as int]] + s.subrange(idx as int, i as int) + s.skip(i as int + 1)
}


/// Putting `x` between the elements of a sorted sequence that come no later
/// than it and those that it comes no later than keeps the sequence sorted.
pub proof fn lemma_insert_keeps_sorted<T>(p: Seq<T>, x: T, idx: usize, ord: spec_fn(T, T) -> Ordering)
    requires
        is_total_preorder(ord),
        sorted_by(p, ord),
        0 <= idx <= p.len(),
        forall|k: int| 0 <= k < idx ==> le(ord, #[trigger] p[k], x),
        forall|k: int| idx <= k < p.len() ==> le(ord, x, #[trigger] p[k]),
    ensures
        sorted_by(prefix(p, idx) + seq![x] + suffix(p, idx), ord),
{
    let q = prefix(p, idx) + seq![x] + suffix(p, idx);
    assert(q.len() == p.len() + 1);
    assert forall|m: int| 0 <= m < q.len() implies #[trigger] q[m] == (if m < idx { p[m] } else if m == idx { x } else { p[m - 1] }) by {}
    assert forall|i: int, j: int| 0 <= i < j < q.len() implies #[trigger] le(ord, q[i], q[j]) by {
        assert(q[i] == (if i < idx { p[i] } else if i == idx { x } else { p[i - 1] }));
        assert(q[j] == (if j < idx { p[j] } else if j == idx { x } else { p[j - 1] }));
        if j < idx {
            assert(le(ord, p[i], p[j]));
        } else if j == idx {
        } else if i < idx {
            assert(le(ord, p[i], p[j - 1]));
        } else if i == idx {
        } else {
            assert(le(ord, p[i - 1], p[j - 1]));
        }
    }
}


/// The element of `s` at position `i`.
pub open spec fn at<T>(s: Seq<T>, i: usize) -> T {
    s[i as int]
}

/// What moving an element back does to the first `next = i + 1` elements,
/// and that it leaves everything from position `n > i` on alone.
pub proof fn lemma_moved_back_parts<T>(s: Seq<T>, idx: usize, i: usize, next: usize, n: usize)
    requires
        idx <= i < n <= s.len(),
        next == i + 1,
    ensures
        moved_back(s, idx, i).len() == s.len(),
        prefix(moved_back(s, idx, i), next)
            == prefix(prefix(s, i), idx) + seq![s[i as int]] + suffix(prefix(s, i), idx),
        suffix(moved_back(s, idx, i), n) == suffix(s, n),
{
    let m = moved_back(s, idx, i);
    assert(prefix(m, next) =~= prefix(prefix(s, i), idx) + seq![s[i as int]] + suffix(prefix(s, i), idx));
    assert(suffix(m, n) =~= suffix(s, n));
}

/// `a` and `b` stand at two different positions of `s`.
pub open spec fn at_two_positions<T>(s: Seq<T>, a: T, b: T) -> bool {
    exists|i: int, j: int| 0 <= i < s.len() && 0 <= j < s.len() && i != j && #[trigger] s[i] == a && #[trigger] s[j] == b
}

/// Two values that stand at two different positions of a rearrangement of
/// `s` stand at two different positions of `s` too.
pub proof fn lemma_two_positions_permuted<T>(t: Seq<T>, s: Seq<T>, a: T, b: T)
    requires
        is_permutation(t, s),
        at_two_positions(t, a, b),
    ensures
        at_two_positions(s, a, b),
{
    broadcast use vstd::seq_lib::group_to_multiset_ensures, vstd::multiset::group_multiset_axioms;
    let (i, j) = choose|i: int, j: int| 0 <= i < t.len() && 0 <= j < t.len() && i != j && #[trigger] t[i] == a && #[trigger] t[j] == b;
    assert(t.contains(a));
    assert(t.contains(b));
    assert(t.to_multiset().count(a) > 0);
    assert(t.to_multiset().count(b) > 0);
    assert(s.to_multiset().count(a) > 0);
    assert(s.to_multiset().count(b) > 0);
    assert(s.contains(a));
    assert(s.contains(b));
    let ia = choose|k: int| 0 <= k < s.len() && s[k] == a;
    if a != b {
        let ib = choose|k: int| 0 <= k < s.len() && s[k] == b;
        assert(s[ia] == a && s[ib] == b);
    } else {
        let tr = t.remove(i);
        assert(tr.to_multiset() == t.to_multiset().remove(a));
        let jj = if j < i { j } else { j - 1 };
        assert(tr[jj] == a);
        assert(tr.contains(a));
        assert(tr.to_multiset().count(a) > 0);
        assert(t.to_multiset().count(a) >= 2);
        let sr = s.remove(ia);
        assert(sr.to_multiset() == s.to_multiset().remove(a));
        assert(sr.to_multiset().count(a) > 0);
        assert(sr.contains(a));
        let k = choose|k: int| 0 <= k < sr.len() && sr[k] == a;
        let kk = if k < ia { k } else { k + 1 };
        assert(s[kk] == a);
        assert(s[ia] == a && kk != ia);
    }
}

} // verus!
