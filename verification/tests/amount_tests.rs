use ledger::amount::{format_amount, parse_amount, parse_uint};

#[test]
fn amounts_parse_to_fixed_point_units() {
    assert_eq!(parse_amount(b"50"), Some(500000));
    assert_eq!(parse_amount(b"12.50"), Some(125000));
    assert_eq!(parse_amount(b"1.0"), Some(10000));
    assert_eq!(parse_amount(b"0.0001"), Some(1));
    assert_eq!(parse_amount(b"5."), Some(50000));
    assert_eq!(parse_amount(b".5"), Some(5000));
    assert_eq!(parse_amount(b"007"), Some(70000));
}

#[test]
fn amounts_round_at_the_fourth_decimal_place() {
    assert_eq!(parse_amount(b"1.23456789"), Some(12346));
    assert_eq!(parse_amount(b"1.23454"), Some(12345));
    assert_eq!(parse_amount(b"1.00005"), Some(10001));
    assert_eq!(parse_amount(b"0.99999"), Some(10000));
}

#[test]
fn malformed_amounts_are_rejected() {
    assert_eq!(parse_amount(b""), None);
    assert_eq!(parse_amount(b"."), None);
    assert_eq!(parse_amount(b"1.2.3"), None);
    assert_eq!(parse_amount(b"-5"), None);
    assert_eq!(parse_amount(b"1e3"), None);
    assert_eq!(parse_amount(b" 1"), None);
    // one unit above the largest representable amount
    assert_eq!(parse_amount(b"922337203685477.5808"), None);
    assert_eq!(parse_amount(b"922337203685477.5807"), Some(i64::MAX));
}

#[test]
fn amounts_format_with_four_decimal_places() {
    assert_eq!(format_amount(12346), b"1.2346".to_vec());
    assert_eq!(format_amount(0), b"0.0000".to_vec());
    assert_eq!(format_amount(375000), b"37.5000".to_vec());
    assert_eq!(format_amount(-75000), b"-7.5000".to_vec());
    assert_eq!(format_amount(1), b"0.0001".to_vec());
    assert_eq!(format_amount(i64::MIN), b"-922337203685477.5808".to_vec());
}

#[test]
fn uints_parse_in_plain_decimal_only() {
    assert_eq!(parse_uint(b"0"), Some(0));
    assert_eq!(parse_uint(b"65535"), Some(65535));
    assert_eq!(parse_uint(b"18446744073709551615"), Some(u64::MAX));
    assert_eq!(parse_uint(b"18446744073709551616"), None);
    assert_eq!(parse_uint(b""), None);
    assert_eq!(parse_uint(b"+1"), None);
    assert_eq!(parse_uint(b"1 "), None);
}
