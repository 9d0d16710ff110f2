use armory::basics::{
    factorize, gauss, in_range, longest_sequence, rotate, subset, substr, to_decimal,
};

#[test]
fn gauss_sums_up_to_n() {
    assert_eq!(gauss(0), 0);
    assert_eq!(gauss(1), 1);
    assert_eq!(gauss(4), 10);
    assert_eq!(gauss(100), 5050);
    assert_eq!(gauss(65535), 2147450880);
}

#[test]
fn gauss_negative_is_minus_one() {
    assert_eq!(gauss(-1), -1);
    assert_eq!(gauss(-100), -1);
}

#[test]
fn in_range_counts_inclusive_bounds() {
    assert_eq!(in_range(&[1, 5, 10], 1, 10), 3);
    assert_eq!(in_range(&[1, 5, 10], 2, 9), 1);
    assert_eq!(in_range(&[], 0, 100), 0);
    assert_eq!(in_range(&[-3, 0, 3], -3, 0), 2);
}

#[test]
fn subset_examples() {
    assert!(subset(&[1, 2, 3, 4, 5], &[1, 3, 2]));
    assert!(subset(&[1, 2, 3], &[]));
    assert!(!subset(&[1, 2, 3], &[4]));
    assert!(subset::<i32>(&[], &[]));
    assert!(!subset(&[], &[1]));
}

#[test]
fn to_decimal_reads_bits_in_order() {
    assert_eq!(to_decimal(&[1, 0, 1, 0]), 10);
    assert_eq!(to_decimal(&[]), 0);
    assert_eq!(to_decimal(&[1]), 1);
    assert_eq!(to_decimal(&[1, 1, 1, 1, 1, 1, 1, 1]), 255);
}

#[test]
fn factorize_gives_sorted_prime_factors() {
    assert_eq!(factorize(36), vec![2, 2, 3, 3]);
    assert_eq!(factorize(2), vec![2]);
    assert_eq!(factorize(97), vec![97]);
    assert_eq!(factorize(60), vec![2, 2, 3, 5]);
}

#[test]
fn rotate_moves_first_to_last() {
    assert_eq!(rotate(&[1, 2, 3, 4]), vec![2, 3, 4, 1]);
    assert_eq!(rotate(&[7]), vec![7]);
    assert_eq!(rotate(&[]), Vec::<i32>::new());
}

#[test]
fn substr_finds_substrings() {
    assert!(substr(&String::from("rustacean"), "ace"));
    assert!(substr(&String::from("rustacean"), ""));
    assert!(substr(&String::from(""), ""));
    assert!(!substr(&String::from(""), "a"));
    assert!(!substr(&String::from("rustacean"), "acean!"));
    assert!(substr(&String::from("aaa"), "aaa"));
}

#[test]
fn longest_sequence_finds_first_longest_run() {
    assert_eq!(longest_sequence("ababbba"), Some("bbb"));
    assert_eq!(longest_sequence("aaabbb"), Some("aaa"));
    assert_eq!(longest_sequence("xyz"), Some("x"));
    assert_eq!(longest_sequence(""), None);
    assert_eq!(longest_sequence("abbb"), Some("bbb"));
    assert_eq!(longest_sequence("c"), Some("c"));
}
