use pattern_detect::{build_vec, detect_pattern};

fn is_period_of(s: &[i32], len: usize) -> bool {
    len >= 1 && 2 * len <= s.len() && (0..s.len() - len).all(|i| s[i] == s[i + len])
}

#[test]
fn five_block_repeated_thirty_times() {
    let v = build_vec(vec![0, 0, 1, 0, 1], 30);
    assert_eq!(detect_pattern(v, 3, 40), Some(5));
}

#[test]
fn six_block_repeated_twenty_times() {
    let v = build_vec(vec![0, 0, 1, 0, 1, 2], 20);
    assert_eq!(detect_pattern(v, 3, 80), Some(6));
}

#[test]
fn ten_block_repeated_thirty_times() {
    let v = build_vec(vec![0, 0, 1, 0, 1, 2, 1, 1, 1, 1], 30);
    assert_eq!(detect_pattern(v, 3, 100), Some(10));
}

#[test]
fn seventeen_block_repeated_twenty_times() {
    let p = vec![0, 0, 1, 0, 1, 2, 1, 1, 1, 1, 0, 1, 0, 1, 0, 1, 2];
    let v = build_vec(p, 20);
    assert_eq!(detect_pattern(v, 3, 500), Some(17));
}

#[test]
fn eighty_eight_block_repeated_a_hundred_times() {
    let p = vec![
        0, 0, 1, 0, 1, 2, 1, 1, 1, 1, 0, 1, 0, 1, 0, 0, 0, 0, 0, 0, 1, 0,
        0, 0, 1, 0, 1, 2, 1, 1, 1, 1, 0, 1, 0, 1, 0, 0, 0, 0, 0, 0, 1, 1,
        0, 0, 1, 0, 1, 2, 1, 1, 1, 1, 0, 1, 0, 1, 0, 0, 0, 0, 0, 0, 1, 2,
        0, 0, 1, 0, 1, 2, 1, 1, 1, 1, 0, 1, 0, 1, 0, 0, 0, 0, 0, 0, 1, 3,
    ];
    let v = build_vec(p, 100);
    assert_eq!(detect_pattern(v, 3, 2000), Some(88));
}

#[test]
fn all_equal_elements_have_period_one() {
    assert_eq!(detect_pattern(vec![1, 1, 1, 1, 1, 1], 1, 3), Some(1));
}

#[test]
fn no_repetition_gives_none() {
    assert_eq!(detect_pattern(vec![0, 1, 2, 3, 4, 5, 6], 2, 6), None);
}

#[test]
fn sequence_shorter_than_two_minimum_blocks_gives_none() {
    assert_eq!(detect_pattern(vec![7, 7, 7], 2, 5), None);
    assert_eq!(detect_pattern(Vec::<i32>::new(), 1, 4), None);
    assert_eq!(detect_pattern(vec![4], 1, 1), None);
}

#[test]
fn sequence_shorter_than_minimum_gives_none() {
    assert_eq!(detect_pattern(vec![1, 1], 3, 9), None);
}

#[test]
fn truncated_last_copy_is_accepted() {
    let mut v = build_vec(vec![3, 1, 4, 1], 3);
    v.truncate(10);
    assert_eq!(detect_pattern(v, 2, 5), Some(4));
}

#[test]
fn one_full_copy_after_the_block_is_needed() {
    // seven elements: a block of four would need eight
    let v = vec![3, 1, 4, 1, 3, 1, 4];
    assert_eq!(detect_pattern(v, 4, 4), None);
}

#[test]
fn detection_twice_gives_the_same_result() {
    let v = build_vec(vec![0, 0, 1, 0, 1], 30);
    let a = detect_pattern(v.clone(), 3, 40);
    let b = detect_pattern(v, 3, 40);
    assert_eq!(a, b);
    assert_eq!(a, Some(5));
}

#[test]
fn narrower_range_reports_no_larger_length() {
    let v = build_vec(vec![0, 0, 1, 0, 1, 2], 20);
    assert_eq!(detect_pattern(v.clone(), 3, 80), Some(6));
    assert_eq!(detect_pattern(v.clone(), 6, 6), Some(6));
    assert_eq!(detect_pattern(v, 4, 30), Some(6));
}

#[test]
fn reported_length_is_a_period_in_range() {
    let v = build_vec(vec![2, 7, 2, 7, 5], 9);
    let r = detect_pattern(v.clone(), 2, 20).unwrap();
    assert!((2..=20).contains(&r));
    assert!(is_period_of(&v, r));
    assert_eq!(r, 5);
}

#[test]
fn periodic_block_reports_a_divisor() {
    // the block [0, 1, 0, 1] is itself made of [0, 1]
    let v = build_vec(vec![0, 1, 0, 1], 6);
    assert_eq!(detect_pattern(v, 2, 4), Some(2));
}

#[test]
fn least_period_in_range_is_reported() {
    // periods of (0 1)^12 are the even lengths up to 12; the least in
    // [3, 12] and in [4, 10] is 4, though it does not divide 12 or 10
    let v = build_vec(vec![0, 1], 12);
    assert_eq!(detect_pattern(v.clone(), 3, 12), Some(4));
    assert_eq!(detect_pattern(v, 4, 10), Some(4));
}

#[test]
fn least_period_below_a_non_divisor_is_found() {
    // twelve equal elements: every length up to 6 is a period
    let v = build_vec(vec![7, 7, 7], 4);
    assert_eq!(detect_pattern(v.clone(), 3, 5), Some(3));
    assert_eq!(detect_pattern(v.clone(), 3, 6), Some(3));
    assert_eq!(detect_pattern(v.clone(), 4, 5), Some(4));
    assert_eq!(detect_pattern(v, 5, 5), Some(5));
}

#[test]
fn refuted_length_rules_out_its_divisors() {
    // 8 fails, which rules out 4 and 2 as well; 6 and then 3 hold
    let v = build_vec(vec![5, 6, 7], 6);
    assert_eq!(detect_pattern(v, 2, 8), Some(3));
}

#[test]
fn minimum_equal_to_maximum() {
    let v = build_vec(vec![1, 2, 3], 4);
    assert_eq!(detect_pattern(v.clone(), 3, 3), Some(3));
    assert_eq!(detect_pattern(v, 4, 4), None);
}

#[test]
fn works_on_characters() {
    let v: Vec<char> = "abcabcabcab".chars().collect();
    assert_eq!(detect_pattern(v, 1, 5), Some(3));
}
