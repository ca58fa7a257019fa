use vibe_coder::text::{fmt_usize, parse_usize};

#[test]
fn test_fmt_usize_exact() {
    assert_eq!(fmt_usize(0), "0");
    assert_eq!(fmt_usize(7), "7");
    assert_eq!(fmt_usize(907), "907");
    assert_eq!(fmt_usize(1000), "1000");
    assert_eq!(fmt_usize(usize::MAX), usize::MAX.to_string());
}

#[test]
fn test_parse_usize_accepts_digits_and_plus() {
    assert_eq!(parse_usize("0"), Some(0));
    assert_eq!(parse_usize("12345"), Some(12345));
    assert_eq!(parse_usize("+42"), Some(42));
    assert_eq!(parse_usize(&usize::MAX.to_string()), Some(usize::MAX));
}

#[test]
fn test_parse_usize_rejects_other_text() {
    assert_eq!(parse_usize(""), None);
    assert_eq!(parse_usize("+"), None);
    assert_eq!(parse_usize("12a"), None);
    assert_eq!(parse_usize(" 12"), None);
    assert_eq!(parse_usize("-3"), None);
    assert_eq!(parse_usize("99999999999999999999999999999"), None);
}
