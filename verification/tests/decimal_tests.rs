use data_analysis::decimal::{parse_decimal, parse_or_zero};

#[test]
fn parses_plain_numerals() {
    assert_eq!(parse_decimal("0"), Some(0));
    assert_eq!(parse_decimal("1"), Some(100_000_000));
    assert_eq!(parse_decimal("0.5"), Some(50_000_000));
    assert_eq!(parse_decimal("100"), Some(10_000_000_000));
    assert_eq!(parse_decimal("0.92"), Some(92_000_000));
    assert_eq!(parse_decimal("50000.00000000"), Some(5_000_000_000_000));
    assert_eq!(parse_decimal("0.00000001"), Some(1));
}

#[test]
fn parses_signs_and_bare_points() {
    assert_eq!(parse_decimal("-45.30"), Some(-4_530_000_000));
    assert_eq!(parse_decimal("+45.30"), Some(4_530_000_000));
    assert_eq!(parse_decimal("5."), Some(500_000_000));
    assert_eq!(parse_decimal(".5"), Some(50_000_000));
    assert_eq!(parse_decimal("-0"), Some(0));
}

#[test]
fn rejects_what_is_no_numeral() {
    assert_eq!(parse_decimal(""), None);
    assert_eq!(parse_decimal("abc"), None);
    assert_eq!(parse_decimal("."), None);
    assert_eq!(parse_decimal("+"), None);
    assert_eq!(parse_decimal("-"), None);
    assert_eq!(parse_decimal("1.2.3"), None);
    assert_eq!(parse_decimal("--1"), None);
    assert_eq!(parse_decimal(" 1"), None);
    assert_eq!(parse_decimal("1 "), None);
    assert_eq!(parse_decimal("1e3"), None);
    assert_eq!(parse_decimal("12a"), None);
}

#[test]
fn rejects_a_ninth_fraction_digit() {
    assert_eq!(parse_decimal("0.12345678"), Some(12_345_678));
    assert_eq!(parse_decimal("0.123456789"), None);
    assert_eq!(parse_decimal("0.000000000"), None);
}

#[test]
fn keeps_to_the_range() {
    assert_eq!(parse_decimal("92233720368.54775807"), Some(i64::MAX));
    assert_eq!(parse_decimal("-92233720368.54775807"), Some(-i64::MAX));
    assert_eq!(parse_decimal("92233720368.54775808"), None);
    assert_eq!(parse_decimal("-92233720368.54775808"), None);
    assert_eq!(parse_decimal("92233720369"), None);
    assert_eq!(parse_decimal("99999999999999999999999999999999999999999999"), None);
    assert_eq!(parse_decimal("00000000000000000000000000000000000000000001"), Some(100_000_000));
}

#[test]
fn unreadable_counts_as_zero() {
    assert_eq!(parse_or_zero("abc"), 0);
    assert_eq!(parse_or_zero(""), 0);
    assert_eq!(parse_or_zero("0.1"), 10_000_000);
    assert_eq!(parse_or_zero("-2"), -200_000_000);
}
