//! Merge-insertion sort, and selection sort, driven by an explicit
//! comparator (which may be expensive, e.g. a question to a person).

use vstd::prelude::*;
use std::cmp::Ordering;
use crate::order::{
    is_total_preorder, le, sorted_by, is_permutation, prefix, suffix, moved_back, at, at_two_positions,
    lemma_two_positions_permuted,
    lemma_insert_keeps_sorted, lemma_moved_back_parts,
};

verus! {

/// The comparator may be called with `a` and `b` whenever they stand at
/// two different positions of `s`. These are the only calls the sorts make:
/// an element is never compared with itself, only elements of the input are
/// compared, and an input of fewer than two elements is not compared at all.
pub open spec fn accepts_pairs_of<F: FnMut(i32, i32) -> Ordering>(f: F, s: Seq<i32>) -> bool {
    forall|a: i32, b: i32| #[trigger] at_two_positions(s, a, b) ==> call_requires(f, (a, b))
}

/// Every answer that the comparator can give is the one `ord` gives.
pub open spec fn decides_by<F: FnMut(i32, i32) -> Ordering>(f: F, ord: spec_fn(i32, i32) -> Ordering) -> bool {
    forall|a: i32, b: i32, r: Ordering| call_ensures(f, (a, b), r) ==> r == ord(a, b)
}

/// After a run of calls the comparator still accepts every call it
/// accepted before, and still follows every order that it followed before.
pub open spec fn keeps_answers<F: FnMut(i32, i32) -> Ordering>(before: F, after: F) -> bool {
    &&& forall|a: i32, b: i32| #[trigger] call_requires(before, (a, b)) ==> call_requires(after, (a, b))
    &&& forall|ord: spec_fn(i32, i32) -> Ordering|
        #![trigger decides_by(before, ord)]
        decides_by(before, ord) ==> decides_by(after, ord)
}

/// A comparator that accepts the calls on two positions of `s`, and still
/// accepts what it accepted, accepts the calls on two positions of any
/// rearrangement of `s`.
proof fn lemma_accepts_carry<F: FnMut(i32, i32) -> Ordering>(f: F, g: F, s: Seq<i32>, t: Seq<i32>)
    requires
        accepts_pairs_of(f, s),
        is_permutation(t, s),
        forall|a: i32, b: i32| #[trigger] call_requires(f, (a, b)) ==> call_requires(g, (a, b)),
    ensures
        accepts_pairs_of(g, t),
{
    assert forall|a: i32, b: i32| #[trigger] at_two_positions(t, a, b) implies call_requires(g, (a, b)) by {
        lemma_two_positions_permuted(t, s, a, b);
    }
}

/// Exchanges the elements at `i` and `j`.
fn swap(xs: &mut [i32], i: usize, j: usize)
    requires
        i < old(xs)@.len(),
        j < old(xs)@.len(),
    ensures
        final(xs)@ == old(xs)@.update(i as int, old(xs)@[j as int]).update(j as int, old(xs)@[i as int]),
        is_permutation(final(xs)@, old(xs)@),
{
    broadcast use vstd::seq_lib::group_to_multiset_ensures, vstd::multiset::group_multiset_axioms;
    let a: i32 = xs[i];
    let b: i32 = xs[j];
    let ghost s0 = xs@;
    xs[i] = b;
    let ghost s1 = xs@;
    xs[j] = a;
    assert(s1.to_multiset() =~= s0.to_multiset().insert(b).remove(a));
    assert(xs@.to_multiset() =~= s1.to_multiset().insert(a).remove(s1[j as int]));
    assert(xs@.to_multiset() =~= s0.to_multiset());
}

/// Moves the element at `i` to position `idx`, shifting the elements from
/// `idx` up to `i` one place towards the end (a right rotation by one of
/// `xs[idx..=i]`).
fn move_back(xs: &mut [i32], idx: usize, i: usize)
    requires
        idx <= i < old(xs)@.len(),
    ensures
        final(xs)@ == moved_back(old(xs)@, idx, i),
        is_permutation(final(xs)@, old(xs)@),
{
    let ghost s = xs@;
    assert(moved_back(s, i, i) =~= s);
    let mut k: usize = i;
    while k > idx
        invariant
            idx <= k <= i < s.len(),
            xs@ == moved_back(s, k, i),
            is_permutation(xs@, s),
        decreases k,
    {
        swap(xs, k - 1, k);
        assert(xs@ =~= moved_back(s, (k - 1) as usize, i));
        k = k - 1;
    }
}

/// Finds where `x` belongs in `xs` by binary search, asking `cmp(y, x)` for
/// probed elements `y` of `xs` (and nothing when `xs` is empty). When the comparator follows a total preorder
/// under which `xs` is sorted, everything before the returned index comes no
/// later than `x`, and `x` comes no later than everything from it on.
pub fn find_insert_point<F: FnMut(i32, i32) -> Ordering>(x: i32, xs: &[i32], cmp: &mut F) -> (idx: usize)
    requires
        forall|y: i32| xs@.contains(y) ==> #[trigger] call_requires(*old(cmp), (y, x)),
    ensures
        idx <= xs@.len(),
        keeps_answers(*old(cmp), *final(cmp)),
        forall|ord: spec_fn(i32, i32) -> Ordering|
            #![trigger decides_by(*old(cmp), ord)]
            is_total_preorder(ord) && decides_by(*old(cmp), ord) && sorted_by(xs@, ord) ==> {
                &&& forall|k: int| 0 <= k < idx ==> le(ord, #[trigger] xs@[k], x)
                &&& forall|k: int| idx <= k < xs@.len() ==> le(ord, x, #[trigger] xs@[k])
            },
{
    let mut size: usize = xs.len();
    let mut left: usize = 0;
    let mut right: usize = size;
    while left < right
        invariant
            left <= right <= xs@.len(),
            size == right - left,
            *cmp == *old(cmp),
            forall|y: i32| xs@.contains(y) ==> #[trigger] call_requires(*old(cmp), (y, x)),
            forall|ord: spec_fn(i32, i32) -> Ordering|
                #![trigger decides_by(*old(cmp), ord)]
                is_total_preorder(ord) && decides_by(*old(cmp), ord) && sorted_by(xs@, ord) ==> {
                    &&& forall|k: int| 0 <= k < left ==> le(ord, #[trigger] xs@[k], x)
                    &&& forall|k: int| right <= k < xs@.len() ==> le(ord, x, #[trigger] xs@[k])
                },
        decreases right - left,
    {
        let mid: usize = left + size / 2;
        let y: i32 = xs[mid];
        assert(xs@.contains(y));
        assert(call_requires(*cmp, (y, x)));
        match cmp(y, x) {
            Ordering::Less => {
                assert forall|ord: spec_fn(i32, i32) -> Ordering|
                    #![trigger decides_by(*old(cmp), ord)]
                    is_total_preorder(ord) && decides_by(*old(cmp), ord) && sorted_by(xs@, ord)
                    implies forall|k: int| 0 <= k < mid + 1 ==> le(ord, #[trigger] xs@[k], x) by {
                    assert(ord(y, x) == Ordering::Less);
                    assert forall|k: int| 0 <= k < mid + 1 implies le(ord, #[trigger] xs@[k], x) by {
                        if k < mid {
                            assert(le(ord, xs@[k], y));
                        }
                    }
                }
                left = mid + 1;
            },
            Ordering::Greater => {
                assert forall|ord: spec_fn(i32, i32) -> Ordering|
                    #![trigger decides_by(*old(cmp), ord)]
                    is_total_preorder(ord) && decides_by(*old(cmp), ord) && sorted_by(xs@, ord)
                    implies forall|k: int| mid <= k < xs@.len() ==> le(ord, x, #[trigger] xs@[k]) by {
                    assert(ord(y, x) == Ordering::Greater);
                    assert(ord(x, y) == Ordering::Less);
                    assert forall|k: int| mid <= k < xs@.len() implies le(ord, x, #[trigger] xs@[k]) by {
                        if k > mid {
                            assert(le(ord, y, xs@[k]));
                        }
                    }
                }
                right = mid;
            },
            Ordering::Equal => {
                assert forall|ord: spec_fn(i32, i32) -> Ordering|
                    #![trigger decides_by(*old(cmp), ord)]
                    is_total_preorder(ord) && decides_by(*old(cmp), ord) && sorted_by(xs@, ord)
                    implies {
                        &&& forall|k: int| 0 <= k < mid ==> le(ord, #[trigger] xs@[k], x)
                        &&& forall|k: int| mid <= k < xs@.len() ==> le(ord, x, #[trigger] xs@[k])
                    } by {
                    assert(ord(y, x) == Ordering::Equal);
                    assert(ord(x, y) != Ordering::Greater);
                    assert forall|k: int| 0 <= k < mid implies le(ord, #[trigger] xs@[k], x) by {
                        assert(le(ord, xs@[k], y));
                    }
                    assert forall|k: int| mid <= k < xs@.len() implies le(ord, x, #[trigger] xs@[k]) by {
                        if k > mid {
                            assert(le(ord, y, xs@[k]));
                        }
                    }
                }
                return mid;
            },
        }
        size = right - left;
    }
    left
}

/// Sorts the first `n` elements of `xs` by merge-insertion: the larger of
/// each pair `(xs[i], xs[i + n/2])` is moved to the front half, the front
/// half is sorted recursively, and the rest is inserted one by one by binary
/// search. Elements from position `n` on are left alone.
fn sort_prefix<F: FnMut(i32, i32) -> Ordering>(xs: &mut [i32], n: usize, cmp: &mut F)
    requires
        n <= old(xs)@.len(),
        accepts_pairs_of(*old(cmp), old(xs)@),
    ensures
        final(xs)@.len() == old(xs)@.len(),
        suffix(final(xs)@, n) == suffix(old(xs)@, n),
        is_permutation(final(xs)@, old(xs)@),
        keeps_answers(*old(cmp), *final(cmp)),
        forall|ord: spec_fn(i32, i32) -> Ordering|
            #![trigger decides_by(*old(cmp), ord)]
            is_total_preorder(ord) && decides_by(*old(cmp), ord) ==> sorted_by(prefix(final(xs)@, n), ord),
    decreases n,
{
    if n < 2 {
        return;
    }
    let half: usize = n / 2;
    let mut i: usize = 0;
    while i < half
        invariant
            half == n / 2,
            n <= xs@.len(),
            xs@.len() == old(xs)@.len(),
            i <= half,
            suffix(xs@, n) == suffix(old(xs)@, n),
            is_permutation(xs@, old(xs)@),
            keeps_answers(*old(cmp), *cmp),
            accepts_pairs_of(*cmp, xs@),
        decreases half - i,
    {
        let a: i32 = xs[i];
        let b: i32 = xs[i + half];
        assert(at_two_positions(xs@, a, b));
        let ghost pre = xs@;
        match cmp(a, b) {
            Ordering::Less => {
                swap(xs, i, i + half);
            },
            _ => {},
        }
        proof {
            lemma_accepts_carry(*cmp, *cmp, pre, xs@);
        }
        assert(suffix(xs@, n) =~= suffix(old(xs)@, n));
        i = i + 1;
    }
    let ghost before = xs@;
    let ghost cmp_before = *cmp;
    sort_prefix(xs, half, cmp);
    proof {
        lemma_accepts_carry(cmp_before, *cmp, before, xs@);
    }
    assert forall|k: int| n <= k < xs@.len() implies xs@[k] == before[k] by {
        assert(suffix(xs@, half)[k - half] == suffix(before, half)[k - half]);
    }
    assert(suffix(xs@, n) =~= suffix(before, n));
    let mut i: usize = half;
    while i < n
        invariant
            half <= i <= n,
            n <= xs@.len(),
            xs@.len() == old(xs)@.len(),
            suffix(xs@, n) == suffix(old(xs)@, n),
            is_permutation(xs@, old(xs)@),
            keeps_answers(*old(cmp), *cmp),
            accepts_pairs_of(*cmp, xs@),
            forall|ord: spec_fn(i32, i32) -> Ordering|
                #![trigger decides_by(*old(cmp), ord)]
                is_total_preorder(ord) && decides_by(*old(cmp), ord) ==> sorted_by(prefix(xs@, i), ord),
        decreases n - i,
    {
        let x: i32 = xs[i];
        let ghost s = xs@;
        let ghost cmp_before = *cmp;
        assert forall|y: i32| prefix(xs@, i).contains(y) implies #[trigger] call_requires(*cmp, (y, x)) by {
            let k = choose|k: int| 0 <= k < prefix(xs@, i).len() && prefix(xs@, i)[k] == y;
            assert(xs@[k] == y);
            assert(at_two_positions(xs@, y, x));
        }
        let idx: usize = find_insert_point(x, &xs[0..i], cmp);
        move_back(xs, idx, i);
        let next: usize = i + 1;
        proof {
            lemma_accepts_carry(cmp_before, *cmp, s, xs@);
            lemma_moved_back_parts(s, idx, i, next, n);
            assert forall|ord: spec_fn(i32, i32) -> Ordering|
                #![trigger decides_by(*old(cmp), ord)]
                is_total_preorder(ord) && decides_by(*old(cmp), ord)
                implies sorted_by(prefix(xs@, next), ord) by {
                lemma_insert_keeps_sorted(prefix(s, i), x, idx, ord);
            }
        }
        i = next;
    }
}

/// Sorts `xs` by merge-insertion (Ford–Johnson style), asking `cmp` as few
/// questions as it can; it only asks about two elements at different
/// positions of `xs`. The result is always a rearrangement of `xs`; when
/// every answer `cmp` can give follows a total preorder, the result is
/// sorted by it.
pub fn merge_insertion_sort<F: FnMut(i32, i32) -> Ordering>(xs: &mut [i32], cmp: &mut F)
    requires
        accepts_pairs_of(*old(cmp), old(xs)@),
    ensures
        final(xs)@.len() == old(xs)@.len(),
        is_permutation(final(xs)@, old(xs)@),
        keeps_answers(*old(cmp), *final(cmp)),
        forall|ord: spec_fn(i32, i32) -> Ordering|
            #![trigger decides_by(*old(cmp), ord)]
            is_total_preorder(ord) && decides_by(*old(cmp), ord) ==> sorted_by(final(xs)@, ord),
{
    let n: usize = xs.len();
    sort_prefix(xs, n, cmp);
    assert(prefix(xs@, n) =~= xs@);
}

/// Sorts `xs` by selection: for each position in turn, the first of the
/// remaining elements that `cmp` finds least is brought there. The result is
/// always a rearrangement of `xs`; when every answer `cmp` can give follows a
/// total preorder, the result is sorted by it, and a slice already sorted by
/// it (ties included) is left as it is.
pub fn selection_sort<F: FnMut(i32, i32) -> Ordering>(xs: &mut [i32], cmp: F)
    requires
        accepts_pairs_of(cmp, old(xs)@),
    ensures
        final(xs)@.len() == old(xs)@.len(),
        is_permutation(final(xs)@, old(xs)@),
        forall|ord: spec_fn(i32, i32) -> Ordering|
            #![trigger decides_by(cmp, ord)]
            is_total_preorder(ord) && decides_by(cmp, ord) ==> sorted_by(final(xs)@, ord),
        forall|ord: spec_fn(i32, i32) -> Ordering|
            #![trigger decides_by(cmp, ord)]
            is_total_preorder(ord) && decides_by(cmp, ord) && sorted_by(old(xs)@, ord) ==> final(xs)@ == old(xs)@,
{
    let ghost first = cmp;
    let mut cmp = cmp;
    let n: usize = xs.len();
    let mut i: usize = 0;
    while i < n
        invariant
            i <= n,
            n == xs@.len(),
            is_permutation(xs@, old(xs)@),
            keeps_answers(first, cmp),
            accepts_pairs_of(cmp, xs@),
            forall|ord: spec_fn(i32, i32) -> Ordering|
                #![trigger decides_by(first, ord)]
                is_total_preorder(ord) && decides_by(first, ord) && sorted_by(old(xs)@, ord) ==> xs@ == old(xs)@,
            forall|ord: spec_fn(i32, i32) -> Ordering|
                #![trigger decides_by(first, ord)]
                is_total_preorder(ord) && decides_by(first, ord) ==> {
                    &&& sorted_by(prefix(xs@, i), ord)
                    &&& forall|a: int, b: int| 0 <= a < i <= b < n ==> le(ord, #[trigger] xs@[a], #[trigger] xs@[b])
                },
        decreases n - i,
    {
        let mut t: usize = i;
        let mut j: usize = i + 1;
        while j < n
            invariant
                i < n,
                i <= t < j <= n,
                n == xs@.len(),
                keeps_answers(first, cmp),
                accepts_pairs_of(cmp, xs@),
                forall|ord: spec_fn(i32, i32) -> Ordering|
                    #![trigger decides_by(first, ord)]
                    is_total_preorder(ord) && decides_by(first, ord) && sorted_by(old(xs)@, ord) ==> xs@ == old(xs)@ && t == i,
                forall|ord: spec_fn(i32, i32) -> Ordering|
                    #![trigger decides_by(first, ord)]
                    is_total_preorder(ord) && decides_by(first, ord) ==>
                        forall|k: int| i <= k < j ==> le(ord, at(xs@, t), #[trigger] xs@[k]),
            decreases n - j,
        {
            let a: i32 = xs[j];
            let b: i32 = xs[t];
            assert(at_two_positions(xs@, a, b));
            match cmp(a, b) {
                Ordering::Less => {
                    assert forall|ord: spec_fn(i32, i32) -> Ordering|
                        #![trigger decides_by(first, ord)]
                        is_total_preorder(ord) && decides_by(first, ord) && sorted_by(old(xs)@, ord) implies false by {
                        assert(ord(a, b) == Ordering::Less);
                        assert(le(ord, at(old(xs)@, i), at(old(xs)@, j)));
                    }
                    assert forall|ord: spec_fn(i32, i32) -> Ordering|
                        #![trigger decides_by(first, ord)]
                        is_total_preorder(ord) && decides_by(first, ord) implies
                            forall|k: int| i <= k < j + 1 ==> le(ord, a, #[trigger] xs@[k]) by {
                        assert(ord(a, b) == Ordering::Less);
                        assert forall|k: int| i <= k < j + 1 implies le(ord, a, #[trigger] xs@[k]) by {
                            if k < j {
                                assert(le(ord, b, xs@[k]));
                            } else {
                                assert(ord(a, a) != Ordering::Greater);
                            }
                        }
                    }
                    t = j;
                },
                _ => {
                    assert forall|ord: spec_fn(i32, i32) -> Ordering|
                        #![trigger decides_by(first, ord)]
                        is_total_preorder(ord) && decides_by(first, ord) implies
                            forall|k: int| i <= k < j + 1 ==> le(ord, b, #[trigger] xs@[k]) by {
                        assert(ord(a, b) != Ordering::Less);
                        assert(ord(b, a) != Ordering::Greater);
                    }
                },
            }
            j = j + 1;
        }
        let ghost s = xs@;
        swap(xs, i, t);
        let next: usize = i + 1;
        proof {
            lemma_accepts_carry(cmp, cmp, s, xs@);
            assert forall|ord: spec_fn(i32, i32) -> Ordering|
                #![trigger decides_by(first, ord)]
                is_total_preorder(ord) && decides_by(first, ord) && sorted_by(old(xs)@, ord)
                implies xs@ == old(xs)@ by {
                assert(xs@ =~= s);
            }
            assert forall|ord: spec_fn(i32, i32) -> Ordering|
                #![trigger decides_by(first, ord)]
                is_total_preorder(ord) && decides_by(first, ord) implies {
                    &&& sorted_by(prefix(xs@, next), ord)
                    &&& forall|a: int, b: int| 0 <= a < i + 1 <= b < n ==> le(ord, #[trigger] xs@[a], #[trigger] xs@[b])
                } by {
                let m = at(s, t);
                assert(at(xs@, i) == m);
                assert forall|a: int, b: int| 0 <= a < i + 1 <= b < n implies le(ord, #[trigger] xs@[a], #[trigger] xs@[b]) by {
                    let v = xs@[b];
                    if b == t {
                        assert(v == at(s, i));
                    } else {
                        assert(v == s[b]);
                    }
                    assert(le(ord, m, v));
                    if a < i {
                        assert(xs@[a] == s[a]);
                        if b == t {
                            assert(le(ord, s[a], at(s, i)));
                        } else {
                            assert(le(ord, s[a], s[b]));
                        }
                    }
                }
                assert forall|a: int, b: int| 0 <= a < b < prefix(xs@, next).len() implies #[trigger] le(ord, prefix(xs@, next)[a], prefix(xs@, next)[b]) by {
                    assert(xs@[a] == s[a]);
                    if b < i {
                        assert(xs@[b] == s[b]);
                        assert(le(ord, prefix(s, i)[a], prefix(s, i)[b]));
                    } else {
                        assert(le(ord, s[a], m));
                    }
                }
            }
        }
        i = next;
    }
    assert(prefix(xs@, n) =~= xs@);
}

} // verus!
