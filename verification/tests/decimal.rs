use thermostat_pi::decimal::{decimal_string, parse_u16};

#[test]
fn parse_u16_accepts_plain_and_plus() {
    assert_eq!(parse_u16(b"5432"), Some(5432));
    assert_eq!(parse_u16(b"+80"), Some(80));
    assert_eq!(parse_u16(b"0"), Some(0));
    assert_eq!(parse_u16(b"65535"), Some(65535));
    assert_eq!(parse_u16(b"00042"), Some(42));
}

#[test]
fn parse_u16_rejects_what_std_rejects() {
    for text in ["", "+", "-1", "65536", "12a", " 12", "1_000", "99999999999999999999999"] {
        assert_eq!(parse_u16(text.as_bytes()), None, "{text}");
        assert_eq!(text.parse::<u16>().ok(), None, "{text}");
    }
}

#[test]
fn parse_u16_agrees_with_std() {
    for text in ["7", "+7", "065535", "65535", "1234", "+0"] {
        assert_eq!(parse_u16(text.as_bytes()), text.parse::<u16>().ok(), "{text}");
    }
}

#[test]
fn decimal_string_writes_shortest_form() {
    assert_eq!(decimal_string(0), "0");
    assert_eq!(decimal_string(9), "9");
    assert_eq!(decimal_string(10), "10");
    assert_eq!(decimal_string(5432), "5432");
    assert_eq!(decimal_string(u64::MAX), u64::MAX.to_string());
}

#[test]
fn decimal_round_trip() {
    for n in [0u16, 1, 9, 10, 55, 70, 999, 5432, 65535] {
        assert_eq!(parse_u16(decimal_string(n as u64).as_bytes()), Some(n));
    }
}
