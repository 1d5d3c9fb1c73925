use round_profile::chronological_order;

#[test]
fn orders_by_time_then_position() {
    assert_eq!(chronological_order(&vec![30, 10, 20, 10]), vec![1, 3, 2, 0]);
}

#[test]
fn empty_and_single() {
    assert_eq!(chronological_order(&Vec::new()), Vec::<usize>::new());
    assert_eq!(chronological_order(&vec![5]), vec![0]);
}

#[test]
fn equal_times_keep_order() {
    assert_eq!(chronological_order(&vec![7, 7, 7]), vec![0, 1, 2]);
}
