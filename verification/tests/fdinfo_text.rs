use slsify::fdinfo::{field_value, flags, parse_octal, position};

const REGULAR: &[u8] = b"pos:\t4096\nflags:\t0100002\nmnt_id:\t29\nino:\t1234\n";

#[test]
fn position_is_the_decimal_value_of_its_line() {
    assert_eq!(position(REGULAR), Some(4096));
    assert_eq!(position(b"pos:\t0\nflags:\t02\n"), Some(0));
    assert_eq!(position(b"flags:\t02\npos:\t18446744073709551615"), Some(u64::MAX));
}

#[test]
fn flags_are_the_octal_value_of_their_line() {
    assert_eq!(flags(REGULAR), Some(0o100002));
    assert_eq!(flags(b"pos:\t0\nflags:\t02004002\n"), Some(0o2004002));
    assert_eq!(flags(b"flags: \t 0"), Some(0));
}

#[test]
fn a_description_without_the_line_gives_nothing() {
    assert_eq!(position(b""), None);
    assert_eq!(position(b"flags:\t02\n"), None);
    assert_eq!(flags(b"pos:\t0\n"), None);
    assert_eq!(position(b"xpos:\t7\n"), None);
    assert_eq!(position(b"pos\t7\n"), None);
    assert_eq!(position(b"pos"), None);
    assert_eq!(position(b"pos:"), None);
}

#[test]
fn a_value_that_is_no_number_gives_nothing() {
    assert_eq!(position(b"pos:\tseven\n"), None);
    assert_eq!(position(b"pos:\t7 \n"), None);
    assert_eq!(position(b"pos:\t\n"), None);
    assert_eq!(position(b"pos:\t18446744073709551616\n"), None);
    assert_eq!(flags(b"flags:\t08\n"), None);
    assert_eq!(flags(b"flags:\t-1\n"), None);
    assert_eq!(flags(b"flags:\t40000000000\n"), None);
    assert_eq!(flags(b"flags:\t37777777777\n"), Some(u32::MAX));
}

#[test]
fn the_first_line_with_the_name_counts() {
    assert_eq!(position(b"pos:\t1\npos:\t2\n"), Some(1));
    assert_eq!(position(b"a pos:\t1\npos:\t2\n"), Some(2));
    assert_eq!(position(b"pos:\tx\npos:\t2\n"), None);
}

#[test]
fn field_value_is_the_line_without_leading_blanks() {
    assert_eq!(field_value(REGULAR, b"mnt_id"), Some(b"29".to_vec()));
    assert_eq!(field_value(REGULAR, b"ino"), Some(b"1234".to_vec()));
    assert_eq!(field_value(b"a: \t b c \nd:e", b"a"), Some(b"b c ".to_vec()));
    assert_eq!(field_value(b"a: \t b c \nd:e", b"d"), Some(b"e".to_vec()));
    assert_eq!(field_value(b"a:\nd:e", b"a"), Some(b"".to_vec()));
    assert_eq!(field_value(b"a:", b"a"), Some(b"".to_vec()));
    assert_eq!(field_value(b"a:1", b""), None);
    assert_eq!(field_value(b":1", b""), Some(b"1".to_vec()));
    assert_eq!(field_value(b"ab:1", b"b"), None);
    assert_eq!(field_value(b"ab:1", b"a"), None);
}

#[test]
fn octal_text_is_read_digit_by_digit() {
    assert_eq!(parse_octal(b"0"), Some(0));
    assert_eq!(parse_octal(b"17"), Some(15));
    assert_eq!(parse_octal(b"0100002"), Some(32770));
    assert_eq!(parse_octal(b""), None);
    assert_eq!(parse_octal(b"9"), None);
    assert_eq!(parse_octal(b"+1"), None);
    assert_eq!(parse_octal(b"37777777777"), Some(u32::MAX));
    assert_eq!(parse_octal(b"40000000000"), None);
    assert_eq!(parse_octal(b"777777777777"), None);
}
