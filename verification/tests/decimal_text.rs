use slsify::decimal::{format_u64, parse_u64};

#[test]
fn formats_zero_as_one_digit() {
    assert_eq!(format_u64(0), b"0".to_vec());
}

#[test]
fn formats_the_largest_number() {
    assert_eq!(format_u64(u64::MAX), b"18446744073709551615".to_vec());
}

#[test]
fn parses_what_it_formats() {
    for n in [0u64, 1, 9, 10, 99, 100, 12345, u64::MAX - 1, u64::MAX] {
        assert_eq!(parse_u64(&format_u64(n)), Some(n));
    }
}

#[test]
fn parses_a_leading_plus_and_leading_zeros() {
    assert_eq!(parse_u64(b"+17"), Some(17));
    assert_eq!(parse_u64(b"0017"), Some(17));
}

#[test]
fn rejects_what_is_no_number() {
    assert_eq!(parse_u64(b""), None);
    assert_eq!(parse_u64(b"+"), None);
    assert_eq!(parse_u64(b"-1"), None);
    assert_eq!(parse_u64(b"12a"), None);
    assert_eq!(parse_u64(b"1 "), None);
    assert_eq!(parse_u64(b"++1"), None);
}

#[test]
fn rejects_a_number_that_does_not_fit() {
    assert_eq!(parse_u64(b"18446744073709551616"), None);
    assert_eq!(parse_u64(b"99999999999999999999999"), None);
}
