use mcp_tools::ip::{is_valid_ipv4, parse_ipv4};

#[test]
fn accepts_well_formed_addresses() {
    assert!(is_valid_ipv4("192.168.1.1"));
    assert!(is_valid_ipv4("0.0.0.0"));
    assert!(is_valid_ipv4("255.255.255.255"));
    assert!(is_valid_ipv4("1.2.3.4"));
    assert!(is_valid_ipv4("10.0.200.9"));
}

#[test]
fn rejects_octets_over_255() {
    assert!(!is_valid_ipv4("256.1.1.1"));
    assert!(!is_valid_ipv4("1.1.1.256"));
    assert!(!is_valid_ipv4("999.1.1.1"));
    assert!(!is_valid_ipv4("1.1.1.1000"));
}

#[test]
fn rejects_non_numeric_text() {
    assert!(!is_valid_ipv4("abc"));
    assert!(!is_valid_ipv4(""));
    assert!(!is_valid_ipv4("1.2.3.x"));
    assert!(!is_valid_ipv4("a.b.c.d"));
}

#[test]
fn rejects_wrong_segment_count() {
    assert!(!is_valid_ipv4("1.2.3"));
    assert!(!is_valid_ipv4("1.2.3.4.5"));
    assert!(!is_valid_ipv4("1"));
    assert!(!is_valid_ipv4("1.2.3.4."));
    assert!(!is_valid_ipv4(".1.2.3.4"));
    assert!(!is_valid_ipv4("1..2.3"));
}

#[test]
fn rejects_leading_zeros_and_signs() {
    assert!(!is_valid_ipv4("01.2.3.4"));
    assert!(!is_valid_ipv4("1.2.3.04"));
    assert!(!is_valid_ipv4("+1.2.3.4"));
    assert!(!is_valid_ipv4("-1.2.3.4"));
    assert!(is_valid_ipv4("0.2.3.4"));
}

#[test]
fn rejects_surrounding_garbage() {
    assert!(!is_valid_ipv4(" 1.2.3.4"));
    assert!(!is_valid_ipv4("1.2.3.4 "));
    assert!(!is_valid_ipv4("1.2.3.4\n"));
    assert!(!is_valid_ipv4("１.2.3.4"));
}

#[test]
fn rejects_ipv6_text() {
    assert!(!is_valid_ipv4("::1"));
    assert!(!is_valid_ipv4("2001:db8::1"));
}

#[test]
fn parse_gives_big_endian_value() {
    assert_eq!(parse_ipv4(b"1.2.3.4"), Some(0x01020304));
    assert_eq!(parse_ipv4(b"0.0.0.0"), Some(0));
    assert_eq!(parse_ipv4(b"255.255.255.255"), Some(0xFFFFFFFF));
    assert_eq!(parse_ipv4(b"192.168.1.0"), Some(0xC0A80100));
    assert_eq!(parse_ipv4(b"256.1.1.1"), None);
    assert_eq!(parse_ipv4(b"1.2.3"), None);
}
