//! Turning recorded pairwise answers into an ordering of the items, and
//! finding which answer is still needed.

use vstd::prelude::*;
use std::cmp::Ordering;
use std::collections::HashMap;
use crate::order::{is_total_preorder, sorted_by, is_permutation};
use crate::pair::{Pair, Outcome};

verus! {

broadcast use vstd::std_specs::hash::group_hash_axioms;

/// What the recorded answers say about each ordered pair of indices: every
/// record `(p, o)` sets `p` to `o` and its reverse to the flipped answer,
/// later records overriding earlier ones.
pub open spec fn known_of(ords: Seq<(Pair, Outcome)>) -> Map<(usize, usize), Outcome>
    decreases ords.len(),
{
    if ords.len() == 0 {
        Map::empty()
    } else {
        let (p, o) = ords.last();
        known_of(ords.drop_last()).insert((p.0, p.1), o).insert((p.1, p.0), o.flipped())
    }
}

/// The number under which the pair `(a, b)` is stored.
spec fn key_of(a: usize, b: usize) -> u128 {
    (a as int * 0x1_0000_0000_0000_0000 + b as int) as u128
}

/// Distinct pairs are stored under distinct numbers.
proof fn lemma_key_injective(a: usize, b: usize, c: usize, d: usize)
    ensures
        key_of(a, b) == key_of(c, d) ==> a == c && b == d,
{
    assert(a as int * 0x1_0000_0000_0000_0000 + b as int == key_of(a, b) as int);
    assert(c as int * 0x1_0000_0000_0000_0000 + d as int == key_of(c, d) as int);
}

fn key(a: usize, b: usize) -> (k: u128)
    ensures
        k == key_of(a, b),
{
    (a as u128) * 0x1_0000_0000_0000_0000u128 + (b as u128)
}

/// The recorded answers, looked up by pair, together with a count of the
/// questions that could not be answered and the first such question.
struct Answers {
    table: HashMap<u128, Outcome>,
    /// How many questions had no recorded answer (saturating).
    num_missing: usize,
    /// The first question that had no recorded answer.
    first_missing: Option<Pair>,
}

impl Answers {
    /// The recorded answer for each ordered pair.
    spec fn known(&self) -> Map<(usize, usize), Outcome> {
        Map::new(
            |p: (usize, usize)| self.table@.contains_key(key_of(p.0, p.1)),
            |p: (usize, usize)| self.table@[key_of(p.0, p.1)],
        )
    }

    /// The answer that `compare(a, b)` gives: the recorded one, or `Less`
    /// when there is none.
    spec fn answer(&self, a: usize, b: usize) -> Ordering {
        if self.known().contains_key((a, b)) {
            self.known()[(a, b)].as_ordering()
        } else {
            Ordering::Less
        }
    }

    /// A count of zero goes with no first missing question, and the first
    /// missing question has no recorded answer.
    spec fn wf(&self) -> bool {
        &&& (self.num_missing == 0 <==> self.first_missing is None)
        &&& (self.first_missing matches Some(p) ==> !self.known().contains_key((p.0, p.1)))
    }

    /// Records the answers in `ords`, later ones overriding earlier ones.
    fn from_ords(ords: &[(Pair, Outcome)]) -> (r: Answers)
        ensures
            r.wf(),
            r.known() == known_of(ords@),
            r.num_missing == 0,
            r.first_missing is None,
    {
        let mut table: HashMap<u128, Outcome> = HashMap::new();
        let mut i: usize = 0;
        while i < ords.len()
            invariant
                i <= ords@.len(),
                (Answers { table, num_missing: 0, first_missing: None }).known() == known_of(ords@.take(i as int)),
            decreases ords@.len() - i,
        {
            let (p, o) = ords[i];
            table.insert(key(p.0, p.1), o);
            table.insert(key(p.1, p.0), o.reverse());
            proof {
                assert(ords@.take(i + 1).drop_last() =~= ords@.take(i as int));
                assert(ords@.take(i + 1).last() == (p, o));
                let now = (Answers { table, num_missing: 0, first_missing: None }).known();
                let want = known_of(ords@.take(i as int)).insert((p.0, p.1), o).insert((p.1, p.0), o.flipped());
                assert forall|q: (usize, usize)| #[trigger] now.contains_key(q) == want.contains_key(q) by {
                    lemma_key_injective(q.0, q.1, p.0, p.1);
                    lemma_key_injective(q.0, q.1, p.1, p.0);
                }
                assert forall|q: (usize, usize)| now.contains_key(q) implies #[trigger] now[q] == want[q] by {
                    lemma_key_injective(q.0, q.1, p.0, p.1);
                    lemma_key_injective(q.0, q.1, p.1, p.0);
                }
                assert(now =~= want);
            }
            i = i + 1;
        }
        proof {
            assert(ords@.take(ords@.len() as int) =~= ords@);
        }
        Answers { table, num_missing: 0, first_missing: None }
    }

    /// Answers "how does `a` compare to `b`" from the recorded answers. A
    /// question with no recorded answer is counted, kept if it is the first
    /// one, and answered `Less`.
    fn compare(&mut self, a: usize, b: usize) -> (r: Ordering)
        requires
            old(self).wf(),
        ensures
            final(self).wf(),
            final(self).known() == old(self).known(),
            r == old(self).answer(a, b),
            old(self).known().contains_key((a, b)) ==> {
                &&& final(self).num_missing == old(self).num_missing
                &&& final(self).first_missing == old(self).first_missing
            },
            !old(self).known().contains_key((a, b)) && old(self).num_missing < usize::MAX
                ==> final(self).num_missing == old(self).num_missing + 1,
            !old(self).known().contains_key((a, b)) && old(self).num_missing == usize::MAX
                ==> final(self).num_missing == usize::MAX,
            !old(self).known().contains_key((a, b)) ==> {
                &&& final(self).first_missing == (if old(self).first_missing is Some {
                    old(self).first_missing
                } else {
                    Some(Pair(a, b))
                })
            },
    {
        match self.table.get(&key(a, b)) {
            Some(o) => o.to_ordering(),
            None => {
                self.num_missing = self.num_missing.saturating_add(1);
                if self.first_missing.is_none() {
                    self.first_missing = Some(Pair(a, b));
                }
                Ordering::Less
            },
        }
    }
}

/// Every answer that `answers` gives about two different elements of `xs`
/// is the one `ord` gives.
spec fn answers_follow(answers: Answers, xs: Seq<usize>, ord: spec_fn(usize, usize) -> Ordering) -> bool {
    forall|a: usize, b: usize|
        xs.contains(a) && xs.contains(b) && a != b ==> #[trigger] answers.answer(a, b) == ord(a, b)
}

/// Every recorded answer in `answers` about two different elements of `xs`
/// is the one `ord` gives (pairs with no recorded answer are not constrained).
spec fn recorded_follow(answers: Answers, xs: Seq<usize>, ord: spec_fn(usize, usize) -> Ordering) -> bool {
    forall|a: usize, b: usize|
        xs.contains(a) && xs.contains(b) && a != b && #[trigger] answers.known().contains_key((a, b))
            ==> answers.known()[(a, b)].as_ordering() == ord(a, b)
}

/// What `ford_johnson::sort` leaves when it starts from `xs` and its
/// comparisons are answered by recorded answers `known` whose count of
/// unanswered questions and first unanswered question start at
/// `num_missing` and `first_missing`: the rearranged `xs`, the count, and the
/// first unanswered question.
pub uninterp spec fn ford_johnson_outcome(
    xs: Seq<usize>,
    known: Map<(usize, usize), Outcome>,
    num_missing: usize,
    first_missing: Option<Pair>,
) -> (Seq<usize>, usize, Option<Pair>);

/// Sorts `xs` with `ford_johnson::sort`, which is handed a comparator that
/// asks `answers.compare(a, b)`.
///
/// What is claimed of `ford_johnson::sort` (version 0.2.1), from its source:
/// it only swaps, rotates and writes back elements it took from `xs`, so the
/// result is a rearrangement of the input; it never panics; it only compares
/// elements at two different positions, so with no repeated values it never
/// asks about a value against itself; and it inserts each element by binary
/// search into a sorted run, so when every answer it can get follows a total
/// preorder the result is sorted by it. So when no question goes unanswered,
/// every question asked got the answer a total preorder agreeing with the
/// recorded answers would give, the run is the one the sort makes with that
/// order as its comparator, and the result is sorted by it. What `answers` holds afterwards is
/// what some run of `compare` calls leaves. The run is determined by `xs`
/// and the answers (the crate's own map is only looked up, never walked), so
/// the whole outcome is named by `ford_johnson_outcome`; which questions are
/// asked, in which order and how many times is not stated.
#[verifier::external_body]
fn ford_johnson_sort(xs: &mut Vec<usize>, answers: &mut Answers)
    requires
        old(answers).wf(),
        old(xs)@.no_duplicates(),
    ensures
        (final(xs)@, final(answers).num_missing, final(answers).first_missing) == ford_johnson_outcome(
            old(xs)@,
            old(answers).known(),
            old(answers).num_missing,
            old(answers).first_missing,
        ),
        final(xs)@.len() == old(xs)@.len(),
        is_permutation(final(xs)@, old(xs)@),
        final(answers).wf(),
        final(answers).known() == old(answers).known(),
        final(answers).num_missing >= old(answers).num_missing,
        old(answers).first_missing is Some ==> final(answers).first_missing == old(answers).first_missing,
        old(answers).first_missing is None ==> (final(answers).first_missing matches Some(p) ==> {
            &&& p.0 != p.1
            &&& old(xs)@.contains(p.0)
            &&& old(xs)@.contains(p.1)
        }),
        forall|ord: spec_fn(usize, usize) -> Ordering|
            #![trigger answers_follow(*old(answers), old(xs)@, ord)]
            is_total_preorder(ord) && answers_follow(*old(answers), old(xs)@, ord) ==> sorted_by(final(xs)@, ord),
        old(answers).first_missing is None && final(answers).first_missing is None ==>
            forall|ord: spec_fn(usize, usize) -> Ordering|
                #![trigger recorded_follow(*old(answers), old(xs)@, ord)]
                is_total_preorder(ord) && recorded_follow(*old(answers), old(xs)@, ord) ==> sorted_by(final(xs)@, ord),
{
    ford_johnson::sort(xs, &mut |a: usize, b: usize| answers.compare(a, b));
}

/// The indices `0, 1, ..., n - 1` in increasing order.
pub open spec fn indices(n: nat) -> Seq<usize> {
    Seq::new(n, |k: int| k as usize)
}

/// `order` lists each of the indices below `n` exactly once.
pub open spec fn is_index_order(order: Seq<usize>, n: nat) -> bool {
    &&& order.len() == n
    &&& order.no_duplicates()
    &&& forall|k: int| 0 <= k < order.len() ==> #[trigger] order[k] < n
}

/// `p` asks about two different items below `n` whose order is not recorded.
pub open spec fn is_open_question(known: Map<(usize, usize), Outcome>, n: nat, p: Pair) -> bool {
    &&& p.0 < n
    &&& p.1 < n
    &&& p.0 != p.1
    &&& !known.contains_key((p.0, p.1))
}

/// For every two different items below `n` an answer is recorded, and it
/// is the one `ord` gives.
pub open spec fn agrees_on_items(known: Map<(usize, usize), Outcome>, n: nat, ord: spec_fn(usize, usize) -> Ordering) -> bool {
    forall|a: usize, b: usize|
        a < n && b < n && a != b ==> #[trigger] known.contains_key((a, b)) && known[(a, b)].as_ordering() == ord(a, b)
}

/// Every recorded answer about two different items below `n` is the one
/// `ord` gives (pairs with no recorded answer are not constrained).
pub open spec fn agrees_where_recorded(known: Map<(usize, usize), Outcome>, n: nat, ord: spec_fn(usize, usize) -> Ordering) -> bool {
    forall|a: usize, b: usize|
        a < n && b < n && a != b && #[trigger] known.contains_key((a, b)) ==> known[(a, b)].as_ordering() == ord(a, b)
}

/// The result of ordering the items with the answers recorded so far.
#[derive(Debug)]
pub struct SortState {
    /// How many comparisons found no recorded answer.
    pub num_missing_ords: usize,
    /// The first comparison that found no recorded answer: the next
    /// question to put.
    pub next_missing_ord: Option<Pair>,
    /// The item indices, from the lowest ranked to the highest.
    pub current_order: Vec<usize>,
}

impl SortState {
    /// This is a state that `compute_ordering` can give for `n` items and
    /// the records `ords`.
    pub open spec fn describes(&self, n: nat, ords: Seq<(Pair, Outcome)>) -> bool {
        &&& is_index_order(self.current_order@, n)
        &&& (self.num_missing_ords == 0 <==> self.next_missing_ord is None)
        &&& (self.next_missing_ord matches Some(p) ==> is_open_question(known_of(ords), n, p))
        &&& forall|ord: spec_fn(usize, usize) -> Ordering|
            #![trigger agrees_on_items(known_of(ords), n, ord)]
            is_total_preorder(ord) && agrees_on_items(known_of(ords), n, ord) ==> sorted_by(self.current_order@, ord)
        &&& (self.next_missing_ord is None ==> forall|ord: spec_fn(usize, usize) -> Ordering|
            #![trigger agrees_where_recorded(known_of(ords), n, ord)]
            is_total_preorder(ord) && agrees_where_recorded(known_of(ords), n, ord) ==> sorted_by(self.current_order@, ord))
    }

    /// This is the state that `compute_ordering` gives for `n` items and
    /// the records `ords`: what `ford_johnson::sort` leaves when it sorts
    /// the indices below `n` asking the recorded answers.
    pub open spec fn is_computed_for(&self, n: nat, ords: Seq<(Pair, Outcome)>) -> bool {
        (self.current_order@, self.num_missing_ords, self.next_missing_ord)
            == ford_johnson_outcome(indices(n), known_of(ords), 0, None)
    }
}

fn index_vec(n: usize) -> (v: Vec<usize>)
    ensures
        v@ == indices(n as nat),
{
    let mut v: Vec<usize> = Vec::new();
    let mut i: usize = 0;
    while i < n
        invariant
            i <= n,
            v@ == indices(i as nat),
        decreases n - i,
    {
        v.push(i);
        i = i + 1;
        assert(v@ =~= indices(i as nat));
    }
    v
}

/// The indices below `n` are exactly the numbers below `n`.
proof fn lemma_indices_contains(n: usize, a: usize)
    ensures
        indices(n as nat).contains(a) <==> a < n,
{
    if a < n {
        assert(indices(n as nat)[a as int] == a);
    }
    if indices(n as nat).contains(a) {
        let k = choose|k: int| 0 <= k < n && indices(n as nat)[k] == a;
        assert(indices(n as nat)[k] == k as usize);
    }
}

/// A rearrangement of `0, ..., n - 1` lists each of them exactly once.
proof fn lemma_permutation_of_indices(s: Seq<usize>, n: usize)
    requires
        is_permutation(s, indices(n as nat)),
    ensures
        is_index_order(s, n as nat),
{
    broadcast use vstd::seq_lib::group_to_multiset_ensures, vstd::multiset::group_multiset_axioms;
    let ix = indices(n as nat);
    assert(ix.no_duplicates());
    ix.lemma_multiset_has_no_duplicates();
    s.lemma_multiset_has_no_duplicates_conv();
    assert(s.len() == s.to_multiset().len());
    assert forall|k: int| 0 <= k < s.len() implies #[trigger] s[k] < n by {
        assert(s.contains(s[k]));
        assert(s.to_multiset().count(s[k]) > 0);
        assert(ix.contains(s[k]));
    }
}

/// Orders the items by the answers recorded in `ords` (later records
/// overriding earlier ones), counting the comparisons that found no answer
/// and keeping the first of them as the next question to ask.
pub fn compute_ordering(items: &[String], ords: &[(Pair, Outcome)]) -> (s: SortState)
    ensures
        s.is_computed_for(items@.len(), ords@),
        s.describes(items@.len(), ords@),
{
    let mut answers = Answers::from_ords(ords);
    let n: usize = items.len();
    let mut xs = index_vec(n);
    let ghost start = xs@;
    let ghost before = answers;
    proof {
        assert(start.no_duplicates());
    }
    ford_johnson_sort(&mut xs, &mut answers);
    proof {
        lemma_permutation_of_indices(xs@, n);
        if answers.first_missing is Some {
            let p = answers.first_missing->0;
            lemma_indices_contains(n, p.0);
            lemma_indices_contains(n, p.1);
        }
        assert forall|ord: spec_fn(usize, usize) -> Ordering|
            #![trigger agrees_on_items(known_of(ords@), items@.len(), ord)]
            is_total_preorder(ord) && agrees_on_items(known_of(ords@), items@.len(), ord)
            implies sorted_by(xs@, ord) by {
            assert forall|a: usize, b: usize| start.contains(a) && start.contains(b) && a != b
                implies #[trigger] before.answer(a, b) == ord(a, b) by {
                lemma_indices_contains(n, a);
                lemma_indices_contains(n, b);
                assert(known_of(ords@).contains_key((a, b)));
            }
            assert(answers_follow(before, start, ord));
        }
        assert forall|ord: spec_fn(usize, usize) -> Ordering|
            #![trigger agrees_where_recorded(known_of(ords@), items@.len(), ord)]
            answers.first_missing is None && is_total_preorder(ord) && agrees_where_recorded(known_of(ords@), items@.len(), ord)
            implies sorted_by(xs@, ord) by {
            assert forall|a: usize, b: usize| start.contains(a) && start.contains(b) && a != b && #[trigger] before.known().contains_key((a, b))
                implies before.known()[(a, b)].as_ordering() == ord(a, b) by {
                lemma_indices_contains(n, a);
                lemma_indices_contains(n, b);
            }
            assert(recorded_follow(before, start, ord));
        }
    }
    SortState {
        num_missing_ords: answers.num_missing,
        next_missing_ord: answers.first_missing,
        current_order: xs,
    }
}


/// For two different items, an answer is recorded for one order of the
/// pair exactly when one is recorded for the other, and the two answers are
/// each other's flip.
pub proof fn lemma_known_symmetric(ords: Seq<(Pair, Outcome)>, a: usize, b: usize)
    requires
        a != b,
    ensures
        known_of(ords).contains_key((a, b)) == known_of(ords).contains_key((b, a)),
        known_of(ords).contains_key((a, b)) ==> known_of(ords)[(b, a)] == known_of(ords)[(a, b)].flipped(),
    decreases ords.len(),
{
    if ords.len() > 0 {
        lemma_known_symmetric(ords.drop_last(), a, b);
    }
}

/// Recording an answer for a pair of two different items settles both
/// orders of that pair, whatever was recorded before.
pub proof fn lemma_recorded_pair_is_known(ords: Seq<(Pair, Outcome)>, p: Pair, o: Outcome)
    requires
        p.0 != p.1,
    ensures
        known_of(ords.push((p, o))).contains_key((p.0, p.1)),
        known_of(ords.push((p, o)))[(p.0, p.1)] == o,
        known_of(ords.push((p, o))).contains_key((p.1, p.0)),
        known_of(ords.push((p, o)))[(p.1, p.0)] == o.flipped(),
{
    assert(ords.push((p, o)).drop_last() =~= ords);
}

/// Once every pair of two different items has a recorded answer, ordering
/// them leaves no question open.
pub proof fn lemma_complete_answers_leave_no_question(s: SortState, n: nat, ords: Seq<(Pair, Outcome)>)
    requires
        s.describes(n, ords),
        forall|a: usize, b: usize| a < n && b < n && a != b ==> #[trigger] known_of(ords).contains_key((a, b)),
    ensures
        s.num_missing_ords == 0,
        s.next_missing_ord is None,
{
    if s.next_missing_ord is Some {
        let p = s.next_missing_ord->0;
        assert(known_of(ords).contains_key((p.0, p.1)));
    }
}

/// Once every pair of two different items has an answer that follows a
/// total preorder, ordering them leaves no question open and lists the
/// items sorted by that order.
pub proof fn lemma_consistent_answers_sort_the_items(
    s: SortState,
    n: nat,
    ords: Seq<(Pair, Outcome)>,
    ord: spec_fn(usize, usize) -> Ordering,
)
    requires
        s.describes(n, ords),
        is_total_preorder(ord),
        agrees_on_items(known_of(ords), n, ord),
    ensures
        s.num_missing_ords == 0,
        s.next_missing_ord is None,
        sorted_by(s.current_order@, ord),
{
    assert forall|a: usize, b: usize| a < n && b < n && a != b implies #[trigger] known_of(ords).contains_key((a, b)) by {
        assert(agrees_on_items(known_of(ords), n, ord));
    }
    lemma_complete_answers_leave_no_question(s, n, ords);
}

/// The ordered pairs of two different items below `n` that have no
/// recorded answer.
pub open spec fn open_pairs(n: nat, ords: Seq<(Pair, Outcome)>) -> Set<(usize, usize)> {
    Set::new(|q: (usize, usize)| q.0 < n && q.1 < n && q.0 != q.1 && !known_of(ords).contains_key(q))
}

/// There are only finitely many open pairs.
pub proof fn lemma_open_pairs_finite(n: nat, ords: Seq<(Pair, Outcome)>)
    requires
        n <= usize::MAX,
    ensures
        open_pairs(n, ords).finite(),
{
    let r = Set::<usize>::range(0, n as usize);
    vstd::set_lib::range_set_properties::<usize>(0, n as usize);
    let row = |a: usize| r.map(|b: usize| (a, b));
    let rows = r.map(row);
    r.lemma_map_finite(row);
    assert forall|s: Set<(usize, usize)>| rows.contains(s) implies #[trigger] s.finite() by {
        let a = choose|a: usize| r.contains(a) && row(a) == s;
        r.lemma_map_finite(|b: usize| (a, b));
    }
    rows.lemma_flatten_finite();
    assert forall|q: (usize, usize)| open_pairs(n, ords).contains(q) implies rows.flatten().contains(q) by {
        assert(r.contains(q.0));
        assert(r.contains(q.1));
        assert(row(q.0).contains((q.0, q.1)));
        assert(rows.contains(row(q.0)));
    }
    vstd::set_lib::lemma_set_subset_finite(rows.flatten(), open_pairs(n, ords));
}

/// Recording an answer for a pair of two different items takes both
/// orders of that pair out of the open pairs, and nothing else.
pub proof fn lemma_recording_closes_pair(n: nat, ords: Seq<(Pair, Outcome)>, p: Pair, o: Outcome)
    requires
        p.0 != p.1,
    ensures
        open_pairs(n, ords.push((p, o))) == open_pairs(n, ords).remove((p.0, p.1)).remove((p.1, p.0)),
{
    assert(ords.push((p, o)).drop_last() =~= ords);
    assert(open_pairs(n, ords.push((p, o))) =~= open_pairs(n, ords).remove((p.0, p.1)).remove((p.1, p.0)));
}

/// When ordering the items leaves no question open, the order is sorted by
/// every total preorder that agrees with the recorded answers: the answers
/// that were needed are all there, even if most pairs were never asked.
pub proof fn lemma_no_open_question_means_sorted(
    s: SortState,
    n: nat,
    ords: Seq<(Pair, Outcome)>,
    ord: spec_fn(usize, usize) -> Ordering,
)
    requires
        s.describes(n, ords),
        s.next_missing_ord is None,
        is_total_preorder(ord),
        agrees_where_recorded(known_of(ords), n, ord),
    ensures
        s.num_missing_ords == 0,
        sorted_by(s.current_order@, ord),
{
}

} // verus!
