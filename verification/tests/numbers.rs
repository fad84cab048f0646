use maximum_league::number::{decimal_i64, decimal_u64, parse_i64, parse_u16, IntParseError};

#[test]
fn u16_parsing_matches_std() {
    for s in ["0", "65535", "65536", "", "+", "-", "+7", "-7", "007", "1 ", "x", "٣", "99999999999999999999x"] {
        let expected = s.parse::<u16>().map_err(|e| e.to_string());
        let got = parse_u16(s).map_err(|e| e.message().to_string());
        assert_eq!(got, expected, "input {:?}", s);
    }
}

#[test]
fn i64_parsing_matches_std() {
    for s in [
        "0", "-0", "+0", "9223372036854775807", "9223372036854775808", "-9223372036854775808",
        "-9223372036854775809", "", "-", "+", "--1", "12a", "a12", "-99999999999999999999x",
    ] {
        let expected = s.parse::<i64>().map_err(|e| e.to_string());
        let got = parse_i64(s).map_err(|e| e.message().to_string());
        assert_eq!(got, expected, "input {:?}", s);
    }
}

#[test]
fn parse_error_kinds() {
    assert_eq!(parse_u16(""), Err(IntParseError::Empty));
    assert_eq!(parse_u16("1x"), Err(IntParseError::InvalidDigit));
    assert_eq!(parse_u16("70000"), Err(IntParseError::PosOverflow));
    assert_eq!(parse_i64("-9223372036854775809"), Err(IntParseError::NegOverflow));
    assert_eq!(parse_u16("-1"), Err(IntParseError::InvalidDigit));
}

#[test]
fn decimal_text_matches_to_string() {
    for n in [0u64, 7, 10, 65535, u64::MAX] {
        assert_eq!(decimal_u64(n), n.to_string());
    }
    for n in [0i64, -1, 42, i64::MIN, i64::MAX] {
        assert_eq!(decimal_i64(n), n.to_string());
    }
}

#[test]
fn decimal_round_trip() {
    for n in [0u16, 1, 9, 10, 443, 65535] {
        assert_eq!(parse_u16(&decimal_u64(n as u64)), Ok(n));
    }
    for n in [i64::MIN, -12345, 0, 12345, i64::MAX] {
        assert_eq!(parse_i64(&decimal_i64(n)), Ok(n));
    }
}
