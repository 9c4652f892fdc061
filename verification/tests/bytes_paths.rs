use slsify::bytes::{append, bytes_eq, contains_bytes, contains_nul, join};

#[test]
fn join_puts_one_separator_between_the_parts() {
    assert_eq!(join(b"/tmp/slsdir", b"7"), b"/tmp/slsdir/7".to_vec());
}

#[test]
fn join_adds_no_separator_to_a_directory_that_ends_in_one() {
    assert_eq!(join(b"/tmp/slsdir/", b"seq"), b"/tmp/slsdir/seq".to_vec());
    assert_eq!(join(b"/", b"seq"), b"/seq".to_vec());
}

#[test]
fn join_to_an_empty_directory_is_the_name() {
    assert_eq!(join(b"", b"seq"), b"seq".to_vec());
}

#[test]
fn append_keeps_what_was_there() {
    let mut buf = b"ab".to_vec();
    append(&mut buf, b"cd");
    assert_eq!(buf, b"abcd".to_vec());
    append(&mut buf, b"");
    assert_eq!(buf, b"abcd".to_vec());
}

#[test]
fn bytes_eq_compares_every_byte() {
    assert!(bytes_eq(b"", b""));
    assert!(bytes_eq(b"abc", b"abc"));
    assert!(!bytes_eq(b"abc", b"abd"));
    assert!(!bytes_eq(b"abc", b"ab"));
    assert!(!bytes_eq(b"ab", b"abc"));
}

#[test]
fn contains_bytes_finds_a_run_anywhere() {
    assert!(contains_bytes(b"hello world", b"hello"));
    assert!(contains_bytes(b"hello world", b"o w"));
    assert!(contains_bytes(b"hello world", b"world"));
    assert!(contains_bytes(b"hello world", b""));
    assert!(contains_bytes(b"", b""));
    assert!(!contains_bytes(b"hello world", b"worlds"));
    assert!(!contains_bytes(b"hello", b"hello world"));
    assert!(!contains_bytes(b"aab", b"abb"));
    assert!(contains_bytes(b"aaab", b"aab"));
}

#[test]
fn contains_nul_sees_the_byte_zero() {
    assert!(!contains_nul(b""));
    assert!(!contains_nul(b"/tmp/x"));
    assert!(contains_nul(b"/tmp\0/x"));
    assert!(contains_nul(b"\0"));
}
