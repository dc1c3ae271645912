use lps::digits::parse_usize;

#[test]
fn plain_numerals_parse() {
    assert_eq!(parse_usize("42"), Some(42));
    assert_eq!(parse_usize("0"), Some(0));
    assert_eq!(parse_usize("007"), Some(7));
}

#[test]
fn non_numerals_do_not_parse() {
    assert_eq!(parse_usize(""), None);
    assert_eq!(parse_usize("1x"), None);
    assert_eq!(parse_usize("-3"), None);
    assert_eq!(parse_usize(" 7"), None);
}

#[test]
fn numbers_too_large_for_usize_do_not_parse() {
    assert_eq!(parse_usize("99999999999999999999999999"), None);
}
