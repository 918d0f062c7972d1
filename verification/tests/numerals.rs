use nm_parse::parse_u16;
use nm_parse::parse_u64;
use nm_parse::u64_to_string;

#[test]
fn parses_plain_numerals() {
    assert_eq!(parse_u64("0"), Some(0));
    assert_eq!(parse_u64("123"), Some(123));
    assert_eq!(parse_u64("18446744073709551615"), Some(u64::MAX));
}

#[test]
fn accepts_a_leading_plus() {
    assert_eq!(parse_u64("+7"), Some(7));
    assert_eq!(parse_u16("+22"), Some(22));
}

#[test]
fn rejects_what_is_not_a_numeral() {
    assert_eq!(parse_u64(""), None);
    assert_eq!(parse_u64("+"), None);
    assert_eq!(parse_u64("-5"), None);
    assert_eq!(parse_u64("12x"), None);
    assert_eq!(parse_u64(" 12"), None);
}

#[test]
fn rejects_values_out_of_range() {
    assert_eq!(parse_u64("18446744073709551616"), None);
    assert_eq!(parse_u16("65536"), None);
    assert_eq!(parse_u16("65535"), Some(65535));
}

#[test]
fn renders_decimal_numerals() {
    assert_eq!(u64_to_string(0), "0");
    assert_eq!(u64_to_string(42), "42");
    assert_eq!(u64_to_string(u64::MAX), "18446744073709551615");
}

#[test]
fn rendering_then_parsing_is_identity() {
    let values: Vec<u64> = vec![0, 1, 9, 10, 99, 100, 65535, 123456789];
    for v in values {
        assert_eq!(parse_u64(&u64_to_string(v)), Some(v));
    }
}
