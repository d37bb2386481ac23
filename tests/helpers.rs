use pattern_detect::{build_vec, factors, max_len, new_table};

#[test]
fn factors_of_twenty_four() {
    assert_eq!(factors(24, 3, 23), vec![3, 4, 6, 8, 12]);
}

#[test]
fn factors_with_inclusive_bounds() {
    assert_eq!(factors(12, 1, 12), vec![1, 2, 3, 4, 6, 12]);
    assert_eq!(factors(12, 4, 4), vec![4]);
}

#[test]
fn factors_of_empty_range() {
    assert_eq!(factors(10, 6, 5), Vec::<usize>::new());
}

#[test]
fn factors_of_a_prime() {
    assert_eq!(factors(13, 2, 12), Vec::<usize>::new());
}

#[test]
fn factors_up_to_the_largest_usize() {
    assert_eq!(factors(usize::MAX, usize::MAX - 1, usize::MAX), vec![usize::MAX]);
}

#[test]
fn build_vec_repeats_the_block() {
    assert_eq!(build_vec(vec![1, 2], 3), vec![1, 2, 1, 2, 1, 2]);
}

#[test]
fn build_vec_with_zero_copies() {
    assert_eq!(build_vec(vec![1, 2], 0), Vec::<i32>::new());
    assert_eq!(build_vec(Vec::<i32>::new(), 5), Vec::<i32>::new());
}

#[test]
fn build_vec_clones_strings() {
    let v = build_vec(vec![String::from("a"), String::from("b")], 2);
    assert_eq!(v, vec!["a", "b", "a", "b"]);
}

#[test]
fn new_table_starts_at_zero_progress() {
    assert_eq!(new_table(3, 5), vec![Some(0), Some(0), Some(0)]);
    assert_eq!(new_table(1, 1), vec![Some(0)]);
}

#[test]
fn max_len_finds_largest_open_length() {
    let t = vec![Some(0), Some(2), None, None];
    assert_eq!(max_len(&t, 3, 6), Some(4));
}

#[test]
fn max_len_of_all_ruled_out() {
    let t: Vec<Option<usize>> = vec![None, None, None];
    assert_eq!(max_len(&t, 2, 4), None);
}

#[test]
fn max_len_prefers_the_top_entry() {
    let t = vec![Some(0), Some(0)];
    assert_eq!(max_len(&t, 7, 8), Some(8));
}
