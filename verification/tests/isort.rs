use pairwise_ranked::isort::{find_insert_point, merge_insertion_sort, selection_sort};

#[test]
fn sorts_correctly() {
    let mut xs = vec![3, 5, 1, 2, 4];
    merge_insertion_sort(&mut xs, &mut |a, b| a.cmp(&b));
    assert_eq!(xs, vec![1, 2, 3, 4, 5]);
}

#[test]
fn right_number_of_comparisons() {
    let mut cnt = 0;
    let counting = &mut |a: i32, b: i32| {
        cnt += 1;
        a.cmp(&b)
    };

    let mut xs = vec![3, 5, 1, 2, 4];
    merge_insertion_sort(&mut xs, counting);
    assert_eq!(cnt, 10);
}

#[test]
fn merge_insertion_sort_handles_short_slices() {
    let mut empty: Vec<i32> = vec![];
    merge_insertion_sort(&mut empty, &mut |a, b| a.cmp(&b));
    assert_eq!(empty, Vec::<i32>::new());
    let mut one = vec![7];
    let mut asked = 0;
    merge_insertion_sort(&mut one, &mut |a: i32, b: i32| {
        asked += 1;
        a.cmp(&b)
    });
    assert_eq!(one, vec![7]);
    assert_eq!(asked, 0);
}

#[test]
fn merge_insertion_sort_keeps_duplicates_and_follows_comparator() {
    let mut xs = vec![4, -1, 4, 0, 9, -1, 3, 3, 8];
    merge_insertion_sort(&mut xs, &mut |a, b| b.cmp(&a));
    assert_eq!(xs, vec![9, 8, 4, 4, 3, 3, 0, -1, -1]);
}

#[test]
fn merge_insertion_sort_sorts_by_key_preorder() {
    // Orders by absolute value only: equal magnitudes tie.
    let mut xs = vec![-3, 2, 3, -1, 0, -2];
    merge_insertion_sort(&mut xs, &mut |a: i32, b: i32| a.abs().cmp(&b.abs()));
    let mags: Vec<i32> = xs.iter().map(|x| x.abs()).collect();
    assert_eq!(mags, vec![0, 1, 2, 2, 3, 3]);
    let mut sorted = xs.clone();
    sorted.sort();
    assert_eq!(sorted, vec![-3, -2, -1, 0, 2, 3]);
}

#[test]
fn merge_insertion_sort_rearranges_under_any_comparator() {
    // A comparator that follows no order still leaves a rearrangement.
    let mut xs = vec![5, 1, 4, 2, 3, 6, 0];
    merge_insertion_sort(&mut xs, &mut |_a, _b| std::cmp::Ordering::Less);
    let mut sorted = xs.clone();
    sorted.sort();
    assert_eq!(sorted, vec![0, 1, 2, 3, 4, 5, 6]);
}

#[test]
fn selection_sort_sorts() {
    let mut xs = vec![3, 5, 1, 2, 4, 2];
    selection_sort(&mut xs, |a, b| a.cmp(&b));
    assert_eq!(xs, vec![1, 2, 2, 3, 4, 5]);
    let mut ys = vec![3, 5, 1, 2, 4];
    selection_sort(&mut ys, |a, b| b.cmp(&a));
    assert_eq!(ys, vec![5, 4, 3, 2, 1]);
}

#[test]
fn selection_sort_asks_every_pair_once_per_pass() {
    let mut cnt = 0;
    let mut xs = vec![3, 5, 1, 2, 4];
    selection_sort(&mut xs, |a: i32, b: i32| {
        cnt += 1;
        a.cmp(&b)
    });
    assert_eq!(xs, vec![1, 2, 3, 4, 5]);
    assert_eq!(cnt, 10);
}

#[test]
fn find_insert_point_finds_the_gap() {
    let xs = [1, 3, 5, 7];
    let mut cmp = |a: i32, b: i32| a.cmp(&b);
    assert_eq!(find_insert_point(4, &xs, &mut cmp), 2);
    assert_eq!(find_insert_point(0, &xs, &mut cmp), 0);
    assert_eq!(find_insert_point(9, &xs, &mut cmp), 4);
    assert_eq!(find_insert_point(5, &xs, &mut cmp), 2);
    assert_eq!(find_insert_point(5, &[], &mut cmp), 0);
}

#[test]
fn find_insert_point_probes_each_element_against_x() {
    let xs = [10, 20, 30];
    let mut asked: Vec<(i32, i32)> = Vec::new();
    let idx = find_insert_point(25, &xs, &mut |a: i32, b: i32| {
        asked.push((a, b));
        a.cmp(&b)
    });
    assert_eq!(idx, 2);
    assert_eq!(asked, vec![(20, 25), (30, 25)]);
}

#[test]
fn short_slices_ask_nothing() {
    let mut asked = 0;
    let mut one = vec![4];
    merge_insertion_sort(&mut one, &mut |a: i32, b: i32| {
        asked += 1;
        a.cmp(&b)
    });
    let mut none: Vec<i32> = vec![];
    selection_sort(&mut none, |a: i32, b: i32| a.cmp(&b));
    let idx = find_insert_point(9, &[], &mut |a: i32, b: i32| {
        asked += 1;
        a.cmp(&b)
    });
    assert_eq!((one, none, idx, asked), (vec![4], vec![], 0, 0));
}

#[test]
fn distinct_elements_are_never_compared_with_themselves() {
    let input = vec![6, 2, 9, 4, 1, 8, 3];
    let mut xs = input.clone();
    let mut pairs: Vec<(i32, i32)> = Vec::new();
    merge_insertion_sort(&mut xs, &mut |a: i32, b: i32| {
        pairs.push((a, b));
        a.cmp(&b)
    });
    assert_eq!(xs, vec![1, 2, 3, 4, 6, 8, 9]);
    for (a, b) in pairs {
        assert!(a != b && input.contains(&a) && input.contains(&b));
    }
}

#[test]
fn selection_sort_leaves_a_sorted_slice_alone() {
    // Ties by absolute value keep their places.
    let mut xs = vec![0, 1, -1, 2, -2, 2, 3];
    selection_sort(&mut xs, |a: i32, b: i32| a.abs().cmp(&b.abs()));
    assert_eq!(xs, vec![0, 1, -1, 2, -2, 2, 3]);
    let mut ys = vec![3, -3, 1, -1];
    selection_sort(&mut ys, |a: i32, b: i32| a.abs().cmp(&b.abs()));
    let mut again = ys.clone();
    selection_sort(&mut again, |a: i32, b: i32| a.abs().cmp(&b.abs()));
    assert_eq!(again, ys);
}

#[test]
fn right_number_of_comparisons_big() {
    let mut cnt = 0;
    let counting = &mut |a: i32, b: i32| {
        cnt += 1;
        a.cmp(&b)
    };

    // A fixed rearrangement of 0..100 in place of a seeded shuffle.
    let mut xs: Vec<i32> = (0..100).map(|i| (i * 37) % 100).collect();
    merge_insertion_sort(&mut xs, counting);
    assert_eq!(xs, (0..100).collect::<Vec<_>>());
    // Far fewer than the n(n-1)/2 = 4950 questions that asking every pair takes.
    assert_eq!(cnt, 643);
}
