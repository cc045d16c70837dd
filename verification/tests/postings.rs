use inverted_index::{append_id, deduplicate, intersection};

#[test]
fn append_id_to_empty_list() {
    assert_eq!(append_id(&vec![], 4), Some(vec![4]));
}

#[test]
fn append_id_other_than_the_last() {
    assert_eq!(append_id(&vec![1], 2), Some(vec![1, 2]));
    assert_eq!(append_id(&vec![1, 2], 1), Some(vec![1, 2, 1]));
    assert_eq!(append_id(&vec![7, 3], 5), Some(vec![7, 3, 5]));
}

#[test]
fn append_id_equal_to_the_last_changes_nothing() {
    assert_eq!(append_id(&vec![1], 1), None);
    assert_eq!(append_id(&vec![2, 1], 1), None);
    assert_eq!(append_id(&vec![usize::MAX], usize::MAX), None);
}

#[test]
fn deduplicate_keeps_first_occurrences_in_order() {
    assert_eq!(deduplicate(&vec![3, 1, 3, 2, 1]), vec![3, 1, 2]);
    assert_eq!(deduplicate(&vec![1, 2, 1]), vec![1, 2]);
    assert_eq!(deduplicate(&vec![5, 5, 5]), vec![5]);
    assert_eq!(deduplicate(&vec![2, 1]), vec![2, 1]);
    assert_eq!(deduplicate(&vec![]), Vec::<usize>::new());
}

#[test]
fn intersection_of_sorted_lists() {
    assert_eq!(intersection(&vec![1, 2, 3], &vec![2, 3, 4]), vec![2, 3]);
    assert_eq!(intersection(&vec![1, 2], &vec![1, 2]), vec![1, 2]);
}

#[test]
fn intersection_of_unsorted_lists() {
    assert_eq!(intersection(&vec![3, 1, 2], &vec![2, 3]), vec![3, 2]);
    assert_eq!(intersection(&vec![5, 2], &vec![2, 5]), vec![5, 2]);
    assert_eq!(intersection(&vec![2, 5], &vec![5, 2]), vec![2, 5]);
    assert_eq!(intersection(&vec![9, 1, 8, 2], &vec![2, 7, 9]), vec![9, 2]);
}

#[test]
fn intersection_of_lists_of_different_lengths() {
    assert_eq!(intersection(&vec![1], &vec![4, 3, 2, 1]), vec![1]);
    assert_eq!(intersection(&vec![4, 3, 2, 1], &vec![1]), vec![1]);
    assert_eq!(intersection(&vec![1, 2, 3, 4, 5, 6], &vec![6]), vec![6]);
}

#[test]
fn intersection_reports_no_id_twice() {
    assert_eq!(intersection(&vec![1, 2, 1], &vec![1]), vec![1]);
    assert_eq!(intersection(&vec![1, 2, 1], &vec![1, 2, 1]), vec![1, 2]);
    assert_eq!(intersection(&vec![1], &vec![1, 1, 1]), vec![1]);
}

#[test]
fn intersection_with_nothing_in_common() {
    assert_eq!(intersection(&vec![1, 2], &vec![3, 4]), Vec::<usize>::new());
    assert_eq!(intersection(&vec![], &vec![1]), Vec::<usize>::new());
    assert_eq!(intersection(&vec![1], &vec![]), Vec::<usize>::new());
    assert_eq!(intersection(&vec![], &vec![]), Vec::<usize>::new());
}

#[test]
fn intersection_holds_what_both_hold() {
    let a = vec![4, 9, 4, 1, 7, 9, 0];
    let b = vec![0, 4, 4, 8, 7];
    let both = intersection(&a, &b);
    for id in 0..10 {
        assert_eq!(both.contains(&id), a.contains(&id) && b.contains(&id));
        assert!(both.iter().filter(|x| **x == id).count() <= 1);
    }
    assert_eq!(both, vec![4, 7, 0]);
}
