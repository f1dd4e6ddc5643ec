use dnstest::ip::{ip_to_string, parse_ip};
use dnstest::IpAddress;

#[test]
fn test_parse_ipv4_literals() {
    assert_eq!(parse_ip("8.8.8.8"), Some(IpAddress::V4(8, 8, 8, 8)));
    assert_eq!(parse_ip("0.0.0.0"), Some(IpAddress::V4(0, 0, 0, 0)));
    assert_eq!(parse_ip("255.255.255.255"), Some(IpAddress::V4(255, 255, 255, 255)));
    assert_eq!(parse_ip("208.67.222.222"), Some(IpAddress::V4(208, 67, 222, 222)));
}

#[test]
fn test_parse_ipv4_rejects() {
    assert_eq!(parse_ip("256.1.1.1"), None);
    assert_eq!(parse_ip("01.2.3.4"), None);
    assert_eq!(parse_ip("1.2.3"), None);
    assert_eq!(parse_ip("1.2.3.4.5"), None);
    assert_eq!(parse_ip("1.2.3."), None);
    assert_eq!(parse_ip("a.b.c.d"), None);
    assert_eq!(parse_ip(""), None);
    assert_eq!(parse_ip("invalid_ip"), None);
}

#[test]
fn test_parse_ipv6_literals() {
    assert_eq!(parse_ip("::1"), Some(IpAddress::V6(0, 0, 0, 0, 0, 0, 0, 1)));
    assert_eq!(parse_ip("::"), Some(IpAddress::V6(0, 0, 0, 0, 0, 0, 0, 0)));
    assert_eq!(
        parse_ip("2001:4860:4860::8888"),
        Some(IpAddress::V6(0x2001, 0x4860, 0x4860, 0, 0, 0, 0, 0x8888))
    );
    assert_eq!(
        parse_ip("1:2:3:4:5:6:7:8"),
        Some(IpAddress::V6(1, 2, 3, 4, 5, 6, 7, 8))
    );
    assert_eq!(parse_ip("fe80::"), Some(IpAddress::V6(0xfe80, 0, 0, 0, 0, 0, 0, 0)));
    assert_eq!(
        parse_ip("::ffff:8.8.4.4"),
        Some(IpAddress::V6(0, 0, 0, 0, 0, 0xffff, 0x0808, 0x0404))
    );
    assert_eq!(
        parse_ip("2620:FE::FE"),
        Some(IpAddress::V6(0x2620, 0xfe, 0, 0, 0, 0, 0, 0xfe))
    );
}

#[test]
fn test_parse_ipv6_rejects() {
    assert_eq!(parse_ip("1::2::3"), None);
    assert_eq!(parse_ip(":::"), None);
    assert_eq!(parse_ip(":1:2:3:4:5:6:7"), None);
    assert_eq!(parse_ip("1:2:3:4:5:6:7:"), None);
    assert_eq!(parse_ip("1:2:3:4:5:6:7:8:9"), None);
    assert_eq!(parse_ip("12345::"), None);
    assert_eq!(parse_ip("g::1"), None);
    assert_eq!(parse_ip("1:2:3:4:5:6:7::8"), None);
}

#[test]
fn test_ip_rendering() {
    assert_eq!(ip_to_string(&IpAddress::V4(8, 8, 8, 8)), "8.8.8.8");
    assert_eq!(ip_to_string(&IpAddress::V4(203, 0, 113, 9)), "203.0.113.9");
    assert_eq!(
        ip_to_string(&IpAddress::V6(0x2001, 0x4860, 0x4860, 0, 0, 0, 0, 0x8888)),
        "2001:4860:4860:0:0:0:0:8888"
    );
    assert_eq!(ip_to_string(&IpAddress::V6(0, 0, 0, 0, 0, 0, 0, 1)), "0:0:0:0:0:0:0:1");
}

#[test]
fn test_parse_rendered_round_trip() {
    for ip in [
        IpAddress::V4(1, 0, 0, 1),
        IpAddress::V4(9, 9, 9, 9),
        IpAddress::V6(0x2606, 0x4700, 0x4700, 0, 0, 0, 0, 0x1111),
    ] {
        let text = ip_to_string(&ip);
        assert_eq!(parse_ip(&text), Some(ip));
    }
}
