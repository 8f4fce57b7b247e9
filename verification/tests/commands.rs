use talkers::{to_decimal, try_parse};

#[test]
fn decimal_rendering_is_exact() {
    assert_eq!(to_decimal(0), b"0".to_vec());
    assert_eq!(to_decimal(7), b"7".to_vec());
    assert_eq!(to_decimal(10), b"10".to_vec());
    assert_eq!(to_decimal(1048576), b"1048576".to_vec());
    assert_eq!(to_decimal(999999999999999999), b"999999999999999999".to_vec());
}

#[test]
fn try_parse_reads_id_and_offset() {
    assert_eq!(try_parse("2 file.ext"), Some((2, 2)));
    assert_eq!(try_parse("42 rest of line"), Some((42, 3)));
    assert_eq!(try_parse("7"), Some((7, 2)));
}

#[test]
fn try_parse_trims_whitespace() {
    assert_eq!(try_parse("  42 rest \n"), Some((42, 3)));
    assert_eq!(try_parse("\t5\n"), Some((5, 2)));
}

#[test]
fn try_parse_accepts_a_leading_plus() {
    assert_eq!(try_parse("+2 x"), Some((2, 3)));
    assert_eq!(try_parse("+"), None);
    assert_eq!(try_parse("++2"), None);
}

#[test]
fn try_parse_trims_unicode_whitespace() {
    assert_eq!(try_parse("\u{00a0}7\u{2003}"), Some((7, 2)));
}

#[test]
fn try_parse_rejects_non_numbers() {
    assert_eq!(try_parse("abc"), None);
    assert_eq!(try_parse("12x 3"), None);
    assert_eq!(try_parse(""), None);
    assert_eq!(try_parse("   "), None);
}

#[test]
fn try_parse_rejects_overflow() {
    assert_eq!(try_parse("99999999999999999999999999 x"), None);
}
