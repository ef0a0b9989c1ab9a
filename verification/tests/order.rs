use search_select::order::{ascending_within, nth_index};
use std::collections::BTreeSet;

#[test]
fn ascending_within_lists_smallest_first() {
    let set: BTreeSet<usize> = [9, 2, 5].into_iter().collect();
    assert_eq!(ascending_within(&set, 10), vec![2, 5, 9]);
    assert_eq!(ascending_within(&set, usize::MAX), vec![2, 5, 9]);
    assert_eq!(ascending_within(&BTreeSet::new(), 10), Vec::<usize>::new());
}

#[test]
fn ascending_within_stops_at_the_bound() {
    let set: BTreeSet<usize> = [9, 2, 5].into_iter().collect();
    assert_eq!(ascending_within(&set, 9), vec![2, 5]);
    assert_eq!(ascending_within(&set, 5), vec![2]);
    assert_eq!(ascending_within(&set, 3), vec![2]);
    assert_eq!(ascending_within(&set, 2), Vec::<usize>::new());
    assert_eq!(ascending_within(&set, 0), Vec::<usize>::new());
}

#[test]
fn nth_index_is_the_rank_in_ascending_order() {
    let set: BTreeSet<usize> = [9, 2, 5].into_iter().collect();
    assert_eq!(nth_index(&set, 0), Some(2));
    assert_eq!(nth_index(&set, 1), Some(5));
    assert_eq!(nth_index(&set, 2), Some(9));
    assert_eq!(nth_index(&set, 3), None);
    assert_eq!(nth_index(&BTreeSet::new(), 0), None);
}
