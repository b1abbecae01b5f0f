use tuine::flex::distribute;

#[test]
fn unweighted_siblings_take_their_minimums() {
    assert_eq!(distribute(10, &vec![3, 4, 0], &vec![0, 0, 0]), vec![3, 4, 0]);
}

#[test]
fn over_constrained_minimums_are_served_in_order() {
    assert_eq!(distribute(5, &vec![3, 4, 2], &vec![0, 0, 0]), vec![3, 2, 0]);
}

#[test]
fn remaining_room_is_split_by_weight() {
    assert_eq!(distribute(10, &vec![2, 0, 0], &vec![0, 1, 3]), vec![2, 2, 6]);
}

#[test]
fn weighted_shares_round_down() {
    assert_eq!(distribute(10, &vec![0, 0, 0], &vec![1, 1, 1]), vec![3, 3, 3]);
}

#[test]
fn weighted_siblings_get_nothing_when_minimums_fill_the_room() {
    assert_eq!(distribute(4, &vec![5, 9], &vec![0, 2]), vec![4, 0]);
}

#[test]
fn no_siblings_no_shares() {
    assert_eq!(distribute(7, &vec![], &vec![]), Vec::<u16>::new());
}

#[test]
fn full_room_with_large_weights() {
    assert_eq!(distribute(65535, &vec![0, 0], &vec![65535, 65535]), vec![32767, 32767]);
}
