use mcp_tools::cidr::is_ip_in_cidr;

#[test]
fn member_of_a_24_range() {
    assert!(is_ip_in_cidr("192.168.1.5", "192.168.1.0/24"));
    assert!(is_ip_in_cidr("192.168.1.0", "192.168.1.0/24"));
    assert!(is_ip_in_cidr("192.168.1.255", "192.168.1.0/24"));
}

#[test]
fn outside_a_24_range() {
    assert!(!is_ip_in_cidr("192.168.2.5", "192.168.1.0/24"));
    assert!(!is_ip_in_cidr("10.0.0.1", "192.168.1.0/24"));
}

#[test]
fn prefix_zero_matches_everything() {
    assert!(is_ip_in_cidr("10.0.0.1", "0.0.0.0/0"));
    assert!(is_ip_in_cidr("255.255.255.255", "0.0.0.0/0"));
    assert!(is_ip_in_cidr("10.0.0.1", "192.168.1.0/0"));
}

#[test]
fn prefix_32_matches_one_address() {
    assert!(is_ip_in_cidr("192.168.1.1", "192.168.1.1/32"));
    assert!(!is_ip_in_cidr("192.168.1.0", "192.168.1.1/32"));
}

#[test]
fn host_bits_of_the_network_are_ignored() {
    assert!(is_ip_in_cidr("192.168.1.5", "192.168.1.77/24"));
}

#[test]
fn malformed_input_degrades_to_false() {
    assert!(!is_ip_in_cidr("1.2.3.4", "not-a-cidr"));
    assert!(!is_ip_in_cidr("1.2.3.4", "192.168.1.0"));
    assert!(!is_ip_in_cidr("1.2.3.4", "192.168.1.0/24/8"));
    assert!(!is_ip_in_cidr("1.2.3.4", "192.168.1.0/"));
    assert!(!is_ip_in_cidr("1.2.3.4", "/24"));
    assert!(!is_ip_in_cidr("bad", "192.168.1.0/24"));
    assert!(!is_ip_in_cidr("1.2.3.4", "256.0.0.0/8"));
}

#[test]
fn prefix_over_32_is_false() {
    assert!(!is_ip_in_cidr("192.168.1.5", "192.168.1.0/33"));
    assert!(!is_ip_in_cidr("192.168.1.5", "192.168.1.0/255"));
    assert!(!is_ip_in_cidr("192.168.1.5", "192.168.1.0/999"));
}

#[test]
fn prefix_parses_as_a_decimal_unsigned_integer() {
    // A leading plus sign and leading zeros are what standard decimal
    // parsing of an unsigned integer allows.
    assert!(is_ip_in_cidr("192.168.1.5", "192.168.1.0/+24"));
    assert!(is_ip_in_cidr("192.168.1.5", "192.168.1.0/024"));
    assert!(!is_ip_in_cidr("192.168.1.5", "192.168.1.0/-24"));
    assert!(!is_ip_in_cidr("192.168.1.5", "192.168.1.0/+"));
    assert!(!is_ip_in_cidr("192.168.1.5", "192.168.1.0/2a"));
    assert!(!is_ip_in_cidr("192.168.1.5", "192.168.1.0/ 24"));
}

#[test]
fn ipv6_input_degrades_to_false() {
    assert!(!is_ip_in_cidr("::1", "::/0"));
    assert!(!is_ip_in_cidr("::1", "0.0.0.0/0"));
    assert!(!is_ip_in_cidr("2001:db8::1", "2001:db8::/32"));
}
