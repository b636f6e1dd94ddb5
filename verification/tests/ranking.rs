use pairwise_ranked::pair::{Outcome, Pair};
use pairwise_ranked::ranking::compute_ordering;
use std::cmp::Ordering;

fn names(n: usize) -> Vec<String> {
    (0..n).map(|i| format!("item {}", i)).collect()
}

#[test]
fn pair_accessors_and_reverse() {
    let p = Pair(2, 7);
    assert_eq!(p.first(), 2);
    assert_eq!(p.second(), 7);
    assert_eq!(p.reverse(), Pair(7, 2));
    assert_eq!(p.reverse().reverse(), p);
}

#[test]
fn outcome_conversions() {
    for o in [Ordering::Less, Ordering::Equal, Ordering::Greater] {
        assert_eq!(Outcome::from_ordering(o).to_ordering(), o);
        assert_eq!(Outcome::from_ordering(o).reverse().to_ordering(), o.reverse());
    }
    assert_eq!(Outcome::Greater.reverse(), Outcome::Less);
    assert_eq!(Outcome::Equal.reverse(), Outcome::Equal);
}

#[test]
fn no_items_no_questions() {
    let s = compute_ordering(&[], &[]);
    assert_eq!(s.current_order, Vec::<usize>::new());
    assert_eq!(s.num_missing_ords, 0);
    assert_eq!(s.next_missing_ord, None);
}

#[test]
fn unranked_items_leave_an_open_question() {
    let items = names(4);
    let s = compute_ordering(&items, &[]);
    let mut order = s.current_order.clone();
    order.sort();
    assert_eq!(order, vec![0, 1, 2, 3]);
    assert!(s.num_missing_ords > 0);
    let p = s.next_missing_ord.expect("a question is open");
    assert!(p.0 < 4 && p.1 < 4 && p.0 != p.1);
}

#[test]
fn one_answer_orders_two_items() {
    let items = names(2);
    // The first item is ranked above the second: lowest first, so [1, 0].
    let s = compute_ordering(&items, &[(Pair(0, 1), Outcome::Greater)]);
    assert_eq!(s.current_order, vec![1, 0]);
    assert_eq!(s.num_missing_ords, 0);
    assert_eq!(s.next_missing_ord, None);
    // The same answer given for the reversed pair.
    let s = compute_ordering(&items, &[(Pair(1, 0), Outcome::Less)]);
    assert_eq!(s.current_order, vec![1, 0]);
}

#[test]
fn complete_consistent_answers_sort_the_items() {
    // Item i is worth WORTH[i]; every pair is answered by worth.
    const WORTH: [i32; 5] = [30, 10, 50, 20, 40];
    let items = names(5);
    let mut ords = Vec::new();
    for a in 0..5 {
        for b in (a + 1)..5 {
            ords.push((Pair(a, b), Outcome::from_ordering(WORTH[a].cmp(&WORTH[b]))));
        }
    }
    let s = compute_ordering(&items, &ords);
    assert_eq!(s.current_order, vec![1, 3, 0, 4, 2]);
    assert_eq!(s.num_missing_ords, 0);
    assert_eq!(s.next_missing_ord, None);
}

#[test]
fn reversed_answers_reverse_the_order() {
    let items = names(3);
    let ords = vec![
        (Pair(0, 1), Outcome::Greater),
        (Pair(1, 2), Outcome::Greater),
        (Pair(0, 2), Outcome::Greater),
    ];
    let s = compute_ordering(&items, &ords);
    assert_eq!(s.current_order, vec![2, 1, 0]);
}

#[test]
fn later_answers_override_earlier_ones() {
    let items = names(2);
    let ords = vec![(Pair(0, 1), Outcome::Greater), (Pair(1, 0), Outcome::Greater)];
    let s = compute_ordering(&items, &ords);
    assert_eq!(s.current_order, vec![0, 1]);
}

#[test]
fn the_open_question_is_not_answered_yet() {
    let items = names(3);
    let mut ords = Vec::new();
    for _ in 0..3 {
        let s = compute_ordering(&items, &ords);
        let p = match s.next_missing_ord {
            Some(p) => p,
            None => break,
        };
        for (q, _) in &ords {
            assert!(*q != p && q.reverse() != p);
        }
        ords.push((p, Outcome::Greater));
        let after = compute_ordering(&items, &ords);
        assert!(after.next_missing_ord != Some(p));
        assert!(after.next_missing_ord != Some(p.reverse()));
    }
}

#[test]
fn no_open_question_means_the_order_follows_the_answers() {
    // Two answers suffice for three items: 1 below 0 below 2.
    let items = names(3);
    let ords = vec![(Pair(0, 1), Outcome::Greater), (Pair(2, 0), Outcome::Greater)];
    let s = compute_ordering(&items, &ords);
    assert_eq!(s.next_missing_ord, None);
    assert_eq!(s.num_missing_ords, 0);
    assert_eq!(s.current_order, vec![1, 0, 2]);
}
