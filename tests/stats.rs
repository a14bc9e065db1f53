use rust_practice::stats::get_median_mode;

#[test]
fn median_and_mode_of_odd_count() {
    assert_eq!(get_median_mode(vec![3, 1, 2, 2, 5]), (4, 2));
}

#[test]
fn median_of_even_count_is_doubled() {
    let (twice, mode) = get_median_mode(vec![4, 1, 3, 2]);
    assert_eq!(twice, 5);
    assert_eq!(twice as f64 / 2.0, 2.5);
    assert_eq!(mode, 1);
}

#[test]
fn mode_ties_pick_the_smallest() {
    assert_eq!(get_median_mode(vec![9, 7, 9, 7, 1]).1, 7);
    assert_eq!(get_median_mode(vec![-5]), (-10, -5));
}

#[test]
fn extreme_values_do_not_overflow() {
    assert_eq!(get_median_mode(vec![i32::MAX, i32::MAX]), (2 * i32::MAX as i64, i32::MAX));
    assert_eq!(get_median_mode(vec![i32::MIN, i32::MAX]).0, -1);
}
