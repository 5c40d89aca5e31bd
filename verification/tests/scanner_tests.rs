use sigpatch::scanner::{find_all_matches, find_first_match, matches_pattern};
use sigpatch::signature::pattern_to_bytes;

#[test]
fn window_matches_exact_and_wildcard_elements() {
    let buffer = [0xAA, 0xBB, 0x01, 0x02, 0xCC, 0xDD];
    let pattern = [Some(0xAA), Some(0xBB), None, None, Some(0xCC)];
    assert!(matches_pattern(&buffer, 0, &pattern));
    assert!(!matches_pattern(&buffer, 1, &pattern));
}

#[test]
fn window_fails_on_one_wrong_byte() {
    let buffer = [1, 2, 3, 4];
    assert!(matches_pattern(&buffer, 1, &[Some(2), Some(3), Some(4)]));
    assert!(!matches_pattern(&buffer, 1, &[Some(9), Some(3), Some(4)]));
    assert!(!matches_pattern(&buffer, 1, &[Some(2), Some(9), Some(4)]));
    assert!(!matches_pattern(&buffer, 1, &[Some(2), Some(3), Some(9)]));
}

#[test]
fn window_that_does_not_fit_does_not_match() {
    let buffer = [7, 7, 7];
    assert!(matches_pattern(&buffer, 1, &[None, None]));
    assert!(!matches_pattern(&buffer, 2, &[None, None]));
    assert!(!matches_pattern(&buffer, 3, &[None]));
    assert!(!matches_pattern(&buffer, 4, &[None]));
    assert!(!matches_pattern(&buffer, 0, &[None, None, None, None]));
}

#[test]
fn window_test_survives_huge_offsets() {
    let buffer = [7, 7, 7];
    assert!(!matches_pattern(&buffer, usize::MAX, &[Some(7)]));
    assert!(!matches_pattern(&buffer, usize::MAX, &[]));
}

#[test]
fn empty_pattern_matches_at_no_offset() {
    let buffer = [7, 7, 7];
    assert!(!matches_pattern(&buffer, 0, &[]));
    assert!(!matches_pattern(&buffer, 1, &[]));
    assert!(!matches_pattern(&buffer, 3, &[]));
    assert!(!matches_pattern(&buffer, 4, &[]));
    assert!(!matches_pattern(&[], 0, &[]));
    let compiled = pattern_to_bytes("no tokens here").unwrap();
    assert!(!matches_pattern(&buffer, 0, &compiled));
}

#[test]
fn first_match_of_the_example() {
    let pattern = pattern_to_bytes("\\xAA\\xBB..\\xCC").unwrap();
    let buffer = [0xAA, 0xBB, 0x01, 0x02, 0xCC, 0xDD];
    assert_eq!(find_first_match(&buffer, &pattern), Some(0));
}

#[test]
fn first_match_is_the_lowest_of_several() {
    let buffer = [0, 5, 6, 0, 5, 6, 5, 6];
    assert_eq!(find_first_match(&buffer, &[Some(5), Some(6)]), Some(1));
    assert_eq!(find_first_match(&buffer, &[Some(5), None]), Some(1));
    assert_eq!(find_first_match(&buffer, &[None, Some(5)]), Some(0));
}

#[test]
fn match_at_the_very_end_is_found() {
    let buffer = [1, 2, 3, 4, 5];
    assert_eq!(find_first_match(&buffer, &[Some(4), Some(5)]), Some(3));
    assert_eq!(find_first_match(&buffer, &[Some(5)]), Some(4));
    assert_eq!(find_first_match(&buffer, &[Some(1), None, None, None, Some(5)]), Some(0));
}

#[test]
fn no_match_gives_none() {
    let buffer = [1, 2, 3, 4, 5];
    assert_eq!(find_first_match(&buffer, &[Some(6)]), None);
    assert_eq!(find_first_match(&buffer, &[Some(5), Some(1)]), None);
    assert_eq!(find_first_match(&buffer, &[Some(5), None]), None);
}

#[test]
fn pattern_longer_than_buffer_gives_none() {
    assert_eq!(find_first_match(&[1, 2], &[None, None, None]), None);
    assert_eq!(find_first_match(&[1, 2], &[Some(1), Some(2), None]), None);
}

#[test]
fn empty_buffer_gives_none() {
    assert_eq!(find_first_match(&[], &[None]), None);
    assert_eq!(find_first_match(&[], &[Some(0)]), None);
}

#[test]
fn empty_pattern_matches_nowhere() {
    assert_eq!(find_first_match(&[1, 2, 3], &[]), None);
    assert_eq!(find_first_match(&[], &[]), None);
    assert_eq!(find_all_matches(&[1, 2, 3], &[]), vec![]);
}

#[test]
fn wildcards_alone_match_at_offset_zero() {
    let buffer = [9, 8, 7, 6];
    for length in 1..=4usize {
        let mut text = String::new();
        for _ in 0..length {
            text.push('.');
        }
        let pattern = pattern_to_bytes(&text).unwrap();
        assert_eq!(pattern, vec![None; length]);
        assert_eq!(find_first_match(&buffer, &pattern), Some(0));
    }
    assert_eq!(find_first_match(&buffer, &[None; 5]), None);
}

#[test]
fn exact_pattern_is_substring_search() {
    let buffer = b"the cat sat on the mat";
    let cases: [(&[u8], Option<usize>); 6] = [
        (b"the", Some(0)),
        (b"at", Some(5)),
        (b"sat", Some(8)),
        (b"mat", Some(19)),
        (b"t", Some(0)),
        (b"dog", None),
    ];
    for (needle, expected) in cases {
        let pattern: Vec<Option<u8>> = needle.iter().map(|b| Some(*b)).collect();
        assert_eq!(find_first_match(buffer, &pattern), expected);
        let by_windows = buffer.windows(needle.len()).position(|w| w == needle);
        assert_eq!(find_first_match(buffer, &pattern), by_windows);
    }
}

#[test]
fn all_matches_come_in_increasing_order() {
    let buffer = [0, 5, 6, 0, 5, 6, 5, 6];
    assert_eq!(find_all_matches(&buffer, &[Some(5), Some(6)]), vec![1, 4, 6]);
    assert_eq!(find_all_matches(&buffer, &[Some(0), None, Some(6)]), vec![0, 3]);
    assert_eq!(find_all_matches(&buffer, &[Some(9)]), vec![]);
}

#[test]
fn all_matches_include_overlapping_windows() {
    assert_eq!(find_all_matches(&[1, 1, 1, 1], &[Some(1), Some(1)]), vec![0, 1, 2]);
    assert_eq!(find_all_matches(&[1, 2, 3], &[None, None]), vec![0, 1]);
}

#[test]
fn all_matches_begin_with_the_first_match() {
    let buffer = [3, 1, 4, 1, 5, 9, 2, 6, 5, 3, 5];
    let patterns: [&[Option<u8>]; 4] =
        [&[Some(5)], &[Some(1), None], &[None, Some(5)], &[Some(7)]];
    for pattern in patterns {
        let all = find_all_matches(&buffer, pattern);
        assert_eq!(all.first().copied(), find_first_match(&buffer, pattern));
        for offset in &all {
            assert!(matches_pattern(&buffer, *offset, pattern));
        }
    }
}
