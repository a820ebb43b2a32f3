use chuhshell::text::{parse_signed, parse_unsigned};

#[test]
fn signed_integers_parse_like_i64_from_str() {
    assert_eq!(parse_signed("54000"), Some(54_000));
    assert_eq!(parse_signed("+7"), Some(7));
    assert_eq!(parse_signed("-1500"), Some(-1_500));
    assert_eq!(parse_signed("-9223372036854775808"), Some(i64::MIN));
    assert_eq!(parse_signed("9223372036854775807"), Some(i64::MAX));
    assert_eq!(parse_signed("9223372036854775808"), None);
    assert_eq!(parse_signed("-9223372036854775809"), None);
    assert_eq!(parse_signed("-+5"), None);
    assert_eq!(parse_signed("-"), None);
    assert_eq!(parse_signed(""), None);
    assert_eq!(parse_signed("4 2"), None);
    for text in ["0", "-0", "+12", "-12", "x", "12a", "-9223372036854775808"] {
        assert_eq!(parse_signed(text), text.parse::<i64>().ok());
    }
}

#[test]
fn unsigned_integers_respect_the_maximum() {
    assert_eq!(parse_unsigned("4294967295", u32::MAX as u64), Some(4_294_967_295));
    assert_eq!(parse_unsigned("4294967296", u32::MAX as u64), None);
    assert_eq!(parse_unsigned("+3", 10), Some(3));
}
