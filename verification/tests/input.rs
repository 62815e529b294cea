use connect_four::input::InputParseError;
use connect_four::input::parse_positive_usize;

#[test]
fn plain_numerals_in_range_are_accepted() {
    assert_eq!(parse_positive_usize("1"), Ok(1));
    assert_eq!(parse_positive_usize("5"), Ok(5));
    assert_eq!(parse_positive_usize("9"), Ok(9));
}

#[test]
fn surrounding_blanks_are_ignored() {
    assert_eq!(parse_positive_usize("5\n"), Ok(5));
    assert_eq!(parse_positive_usize("  7 \r\n"), Ok(7));
    assert_eq!(parse_positive_usize("\t3\t"), Ok(3));
}

#[test]
fn unicode_whitespace_is_trimmed_like_str_trim() {
    assert_eq!(parse_positive_usize("\u{a0}5"), Ok(5));
    assert_eq!(parse_positive_usize("\u{2003}7\n"), Ok(7));
    assert_eq!(parse_positive_usize("\u{3000}9\u{3000}"), Ok(9));
    assert_eq!(parse_positive_usize("\u{85}\u{2028}4\u{202f}"), Ok(4));
    assert_eq!(parse_positive_usize("8\u{1680}"), Ok(8));
    assert_eq!(parse_positive_usize("\u{200b}5"), Err(InputParseError));
    assert_eq!(parse_positive_usize("e\u{301}5"), Err(InputParseError));
}

#[test]
fn plus_sign_and_leading_zeros_parse_as_usual() {
    assert_eq!(parse_positive_usize("+4"), Ok(4));
    assert_eq!(parse_positive_usize("007"), Ok(7));
    assert_eq!(parse_positive_usize("+09"), Ok(9));
    assert_eq!(parse_positive_usize("++4"), Err(InputParseError));
}

#[test]
fn malformed_text_is_rejected() {
    assert_eq!(parse_positive_usize("abc"), Err(InputParseError));
    assert_eq!(parse_positive_usize(""), Err(InputParseError));
    assert_eq!(parse_positive_usize("\n"), Err(InputParseError));
    assert_eq!(parse_positive_usize("4a"), Err(InputParseError));
    assert_eq!(parse_positive_usize("a4"), Err(InputParseError));
    assert_eq!(parse_positive_usize("4 5"), Err(InputParseError));
    assert_eq!(parse_positive_usize("-3"), Err(InputParseError));
    assert_eq!(parse_positive_usize("+"), Err(InputParseError));
}

#[test]
fn zero_and_out_of_range_values_are_rejected() {
    assert_eq!(parse_positive_usize("0"), Err(InputParseError));
    assert_eq!(parse_positive_usize("10"), Err(InputParseError));
    assert_eq!(parse_positive_usize("999"), Err(InputParseError));
    assert_eq!(
        parse_positive_usize("99999999999999999999999999999"),
        Err(InputParseError)
    );
}
