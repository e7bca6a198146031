use socks5::protocol::Address;
use socks5::protocol::IpAddress;

#[test]
fn test_try_from() {
    let addr = Address::try_from_str("github.com:443").unwrap();
    assert_eq!(addr, Address::Domain(String::from("github.com"), 443));

    let addr = Address::try_from_str("127.0.0.1:80").unwrap();
    assert_eq!(addr, Address::IP(IpAddress::V4(127, 0, 0, 1), 80));

    let addr = Address::try_from_str("[::1]:4433").unwrap();
    assert_eq!(addr, Address::IP(IpAddress::V6(0, 0, 0, 0, 0, 0, 0, 1), 4433));
}

#[test]
fn test_try_from_more_shapes() {
    let addr = Address::try_from_str("[2001:db8::1]:443").unwrap();
    assert_eq!(
        addr,
        Address::IP(IpAddress::V6(0x2001, 0xdb8, 0, 0, 0, 0, 0, 1), 443)
    );

    let addr = Address::try_from_str("[1:2:3:4:5:6:7:8]:1").unwrap();
    assert_eq!(addr, Address::IP(IpAddress::V6(1, 2, 3, 4, 5, 6, 7, 8), 1));

    // A V4-mapped tail stands for the last two groups.
    let addr = Address::try_from_str("[::ffff:192.168.0.1]:80").unwrap();
    assert_eq!(
        addr,
        Address::IP(IpAddress::V6(0, 0, 0, 0, 0, 0xffff, 0xc0a8, 0x0001), 80)
    );

    let addr = Address::try_from_str("[::]:53").unwrap();
    assert_eq!(addr, Address::IP(IpAddress::V6(0, 0, 0, 0, 0, 0, 0, 0), 53));

    let addr = Address::try_from_str("localhost:0").unwrap();
    assert_eq!(addr, Address::Domain(String::from("localhost"), 0));
}

#[test]
fn test_try_from_falls_back_to_domain() {
    // An octet over 255, an octet with a leading zero, and a fifth
    // octet are no V4 address.
    assert_eq!(
        Address::try_from_str("256.1.1.1:80").unwrap(),
        Address::Domain(String::from("256.1.1.1"), 80)
    );
    assert_eq!(
        Address::try_from_str("01.2.3.4:80").unwrap(),
        Address::Domain(String::from("01.2.3.4"), 80)
    );
    assert_eq!(
        Address::try_from_str("1.2.3.4.5:80").unwrap(),
        Address::Domain(String::from("1.2.3.4.5"), 80)
    );
    // Two double colons are no V6 address.
    assert_eq!(
        Address::try_from_str("1::2::3:80").unwrap(),
        Address::Domain(String::from("1::2::3"), 80)
    );
}

#[test]
fn test_try_from_rejects() {
    // No colon at all.
    assert!(Address::try_from_str("github.com").is_none());
    // No port, an overflowing port, and a non-numeric port.
    assert!(Address::try_from_str("host:").is_none());
    assert!(Address::try_from_str("host:99999").is_none());
    assert!(Address::try_from_str("host:12a").is_none());
    assert!(Address::try_from_str("").is_none());
}

#[test]
fn test_try_from_port_leading_zeros() {
    assert_eq!(
        Address::try_from_str("a:00080").unwrap(),
        Address::Domain(String::from("a"), 80)
    );
}

#[test]
fn test_to_string() {
    let ipv4_addr = Address::IP(IpAddress::V4(127, 0, 0, 1), 80);
    assert_eq!(ipv4_addr.to_string_repr(), "127.0.0.1:80");

    let ipv6_addr = Address::IP(IpAddress::V6(0, 0, 0, 0, 0, 0, 0, 1), 80);
    assert_eq!(ipv6_addr.to_string_repr(), "[::1]:80");
}

#[test]
fn test_to_string_more_shapes() {
    let addr = Address::IP(IpAddress::V6(1, 2, 3, 4, 5, 6, 7, 8), 80);
    assert_eq!(addr.to_string_repr(), "[1:2:3:4:5:6:7:8]:80");

    let addr = Address::IP(IpAddress::V6(0x2001, 0xdb8, 0, 0, 0, 0, 0xfe96, 0x8b55), 8080);
    assert_eq!(addr.to_string_repr(), "[2001:db8::fe96:8b55]:8080");

    let addr = Address::IP(IpAddress::V6(0, 0, 0, 0, 0, 0, 0, 0), 9);
    assert_eq!(addr.to_string_repr(), "[::]:9");

    let addr = Address::Domain(String::from("github.com"), 443);
    assert_eq!(addr.to_string_repr(), "github.com:443");
}

#[test]
fn test_render_parse_round_trip() {
    for addr in [
        Address::IP(IpAddress::V4(10, 0, 0, 1), 8080),
        Address::IP(IpAddress::V6(0x2001, 0xdb8, 0, 0, 0x20c, 0, 0, 0x8b55), 443),
        Address::IP(IpAddress::V6(0, 0, 0, 0, 0, 0, 0, 0), 1),
        Address::Domain(String::from("example.org"), 53),
    ] {
        let text = addr.to_string_repr();
        assert_eq!(Address::try_from_str(&text).unwrap(), addr);
    }
}
