use pjsekai_soundgen_core::holds::merge_intervals;
use pjsekai_soundgen_core::order::{sorted, sorted_unique};

#[test]
fn overlapping_holds_merge_into_one() {
    assert_eq!(merge_intervals(&vec![0, 3], &vec![5, 8]), Some(vec![(0, 8)]));
}

#[test]
fn disjoint_holds_stay_apart() {
    assert_eq!(merge_intervals(&vec![0, 3], &vec![2, 4]), Some(vec![(0, 2), (3, 4)]));
}

#[test]
fn unmatched_start_is_unbalanced() {
    assert_eq!(merge_intervals(&vec![0], &vec![]), None);
    assert_eq!(merge_intervals(&vec![0, 1], &vec![5]), None);
}

#[test]
fn end_before_start_is_unbalanced() {
    assert_eq!(merge_intervals(&vec![5], &vec![3]), None);
    assert_eq!(merge_intervals(&vec![0, 9], &vec![2, 4]), None);
}

#[test]
fn nested_holds_merge_into_the_outer() {
    assert_eq!(merge_intervals(&vec![0, 2], &vec![10, 4]), Some(vec![(0, 10)]));
}

#[test]
fn touching_holds_run_together() {
    assert_eq!(merge_intervals(&vec![0, 5], &vec![5, 8]), Some(vec![(0, 8)]));
    assert_eq!(merge_intervals(&vec![5, 0], &vec![8, 5]), Some(vec![(0, 8)]));
}

#[test]
fn hold_of_no_length_leaves_no_span() {
    assert_eq!(merge_intervals(&vec![3], &vec![3]), Some(vec![]));
    assert_eq!(merge_intervals(&vec![0, 3], &vec![3, 2]), Some(vec![(0, 2)]));
}

#[test]
fn no_holds_give_no_spans() {
    assert_eq!(merge_intervals(&vec![], &vec![]), Some(vec![]));
}

#[test]
fn order_of_starts_and_ends_does_not_matter() {
    let one = merge_intervals(&vec![7, 0, 3, 20], &vec![25, 8, 5, 9]);
    let other = merge_intervals(&vec![0, 3, 7, 20], &vec![5, 8, 9, 25]);
    assert_eq!(one, other);
    assert_eq!(one, Some(vec![(0, 9), (20, 25)]));
}

#[test]
fn sorted_keeps_every_value() {
    assert_eq!(sorted(&vec![3, -1, 3, 0, 7, -1]), vec![-1, -1, 0, 3, 3, 7]);
    assert_eq!(sorted(&vec![]), Vec::<i64>::new());
    assert_eq!(sorted(&vec![i64::MAX, i64::MIN]), vec![i64::MIN, i64::MAX]);
}

#[test]
fn sorted_unique_drops_repeats() {
    assert_eq!(sorted_unique(&vec![3, -1, 3, 0, 7, -1]), vec![-1, 0, 3, 7]);
    assert_eq!(sorted_unique(&vec![5, 5, 5]), vec![5]);
    assert_eq!(sorted_unique(&vec![]), Vec::<i64>::new());
}
