use socks5::error::ProtocolError;
use socks5::protocol::Address;
use socks5::protocol::AddressType;
use socks5::protocol::AuthMethod;
use socks5::protocol::Command;
use socks5::protocol::IpAddress;
use socks5::protocol::ReplyField;
use socks5::protocol::UsernamePasswordAuthResult;

#[test]
fn test_auth_method_round_trip() {
    let variants = [
        AuthMethod::NoAuthenticationRequired,
        AuthMethod::GSSApi,
        AuthMethod::UsernameOrPassword,
        AuthMethod::IANAAssigned,
        AuthMethod::ReservedForPrivateMethods,
        AuthMethod::NoAcceptableMethods,
    ];
    for v in variants {
        assert_eq!(AuthMethod::decode(v.encode()), v);
    }
    for x in [0x00u8, 0x01, 0x02, 0x03, 0x80, 0xff] {
        assert_eq!(AuthMethod::decode(x).encode(), x);
    }
    assert_eq!(AuthMethod::decode(0x41), AuthMethod::IANAAssigned);
    assert_eq!(AuthMethod::decode(0x90), AuthMethod::ReservedForPrivateMethods);
}

#[test]
fn test_command_round_trip() {
    let variants = [Command::Connect, Command::Bind, Command::UdpAssociate];
    for v in variants {
        assert_eq!(Command::decode(v.encode()), Ok(v));
    }
    for x in 1u8..=3 {
        assert_eq!(Command::decode(x).unwrap().encode(), x);
    }
    assert_eq!(Command::decode(0x00), Err(ProtocolError::UnknownCommand(0x00)));
    assert_eq!(Command::decode(0x04), Err(ProtocolError::UnknownCommand(0x04)));
}

#[test]
fn test_address_type_round_trip() {
    let variants = [AddressType::IPV4, AddressType::FQDN, AddressType::IPV6];
    for v in variants {
        assert_eq!(AddressType::decode(v.encode()), Ok(v));
    }
    for x in [0x01u8, 0x03, 0x04] {
        assert_eq!(AddressType::decode(x).unwrap().encode(), x);
    }
    assert_eq!(AddressType::decode(0x02), Err(ProtocolError::UnknownAddressType(0x02)));
}

#[test]
fn test_reply_field_round_trip() {
    let variants = [
        ReplyField::Succeeded,
        ReplyField::GeneralSocksServerFailure,
        ReplyField::ConnectionNotAllowedByRuleSet,
        ReplyField::NetworkUnreachable,
        ReplyField::HostUnreachable,
        ReplyField::ConnectionRefused,
        ReplyField::TTLExpired,
        ReplyField::CommandNotSupported,
        ReplyField::AddressTypeNotSupported,
        ReplyField::Unassigned,
    ];
    for v in variants {
        assert_eq!(ReplyField::decode(v.encode()), v);
    }
    for x in 0u8..=9 {
        assert_eq!(ReplyField::decode(x).encode(), x);
    }
    assert_eq!(ReplyField::decode(0x42), ReplyField::Unassigned);
}

#[test]
fn test_auth_result_round_trip() {
    assert_eq!(
        UsernamePasswordAuthResult::decode(UsernamePasswordAuthResult::Succeeded.encode()),
        UsernamePasswordAuthResult::Succeeded
    );
    assert_eq!(
        UsernamePasswordAuthResult::decode(UsernamePasswordAuthResult::Failure.encode()),
        UsernamePasswordAuthResult::Failure
    );
    assert_eq!(UsernamePasswordAuthResult::decode(0x7f), UsernamePasswordAuthResult::Failure);
}

#[test]
fn test_as_bytes() {
    assert_eq!(
        UsernamePasswordAuthResult::Succeeded.as_bytes(),
        vec![socks5::AUTH_VERSION, 0]
    );
    assert_eq!(UsernamePasswordAuthResult::Failure.as_bytes(), vec![socks5::AUTH_VERSION, 1]);
}

#[test]
fn test_from_socks_bytes() {
    let v4bytes = vec![127, 0, 0, 1, 0x00, 0x50];
    let (v4addr, end) = Address::from_socks_bytes(&v4bytes, 0, AddressType::IPV4).unwrap();
    assert_eq!(v4addr, Address::IP(IpAddress::V4(127, 0, 0, 1), 80));
    assert_eq!(end, 6);

    let dnbytes = vec![
        /* dnlen */ 10, /* dnlen */
        103, 105, 116, 104, 117, 98, 46, 99, 111, 109, /* begin port */ 0x01, 0xbb,
    ];
    let (dnaddr, end) = Address::from_socks_bytes(&dnbytes, 0, AddressType::FQDN).unwrap();
    assert_eq!(dnaddr, Address::Domain(String::from("github.com"), 443));
    assert_eq!(end, 13);

    let v6bytes = vec![
        0x20, 0x01, 0x0d, 0xb8, 0x00, 0x01, 0x00, 0x00, 0x02, 0x0c, 0x29, 0xff, 0xfe, 0x96, 0x8b,
        0x55, /* begin port */ 0x1f, 0x90,
    ];
    let (v6addr, end) = Address::from_socks_bytes(&v6bytes, 0, AddressType::IPV6).unwrap();
    assert_eq!(
        v6addr,
        Address::IP(
            IpAddress::V6(0x2001, 0x0db8, 0x0001, 0x0000, 0x020c, 0x29ff, 0xfe96, 0x8b55),
            8080
        )
    );
    assert_eq!(end, 18);
}

#[test]
fn addr_test_as_socks_bytes() {
    let ipv4_addr = Address::IP(IpAddress::V4(127, 0, 0, 1), 80);
    assert_eq!(ipv4_addr.as_socks_bytes(), vec![127, 0, 0, 1, 0x00, 0x50]);

    let addr_dn = Address::Domain(String::from("github.com"), 443);
    assert_eq!(
        addr_dn.as_socks_bytes(),
        vec![
            /* dnlen */ 10, /* dnlen */
            103, 105, 116, 104, 117, 98, 46, 99, 111, 109, /* begin port */ 0x01, 0xbb
        ]
    );

    let ipv6_addr = Address::IP(
        IpAddress::V6(0x2001, 0xdb8, 0x1, 0x0, 0x20c, 0x29ff, 0xfe96, 0x8b55),
        8080,
    );
    assert_eq!(
        ipv6_addr.as_socks_bytes(),
        vec![
            0x20, 0x01, 0x0d, 0xb8, 0x00, 0x01, 0x00, 0x00, 0x02, 0x0c, 0x29, 0xff, 0xfe, 0x96,
            0x8b, 0x55, /* begin port */ 0x1f, 0x90
        ]
    );
}

#[test]
fn test_len() {
    let addr = Address::default();
    assert_eq!(addr.len(), 6);

    let addr = Address::IP(IpAddress::V6(0, 0, 0, 0, 0, 0, 0, 1), 4433);
    assert_eq!(addr.len(), 18);

    // The serialized length counts the length octet in front of the
    // name: one octet, ten octets of name, two of port.
    let addr = Address::Domain(String::from("github.com"), 443);
    assert_eq!(addr.len(), 13);
}

#[test]
fn test_binary_len() {
    let addr = Address::default();
    assert_eq!(addr.binary_len(), 48);

    let addr = Address::IP(IpAddress::V6(0, 0, 0, 0, 0, 0, 0, 1), 4433);
    assert_eq!(addr.binary_len(), 144);

    let addr = Address::Domain(String::from("github.com"), 443);
    assert_eq!(addr.binary_len(), 104);
}

#[test]
fn test_from_address() {
    let addr = Address::default();
    assert_eq!(addr.atyp(), AddressType::IPV4);

    let addr = Address::IP(IpAddress::V6(0, 0, 0, 0, 0, 0, 0, 1), 0);
    assert_eq!(addr.atyp(), AddressType::IPV6);

    let addr = Address::Domain("github.com".to_string(), 443);
    assert_eq!(addr.atyp(), AddressType::FQDN);
}

#[test]
fn test_serialized_len_matches_bytes() {
    for addr in [
        Address::IP(IpAddress::V4(10, 0, 0, 1), 8080),
        Address::IP(IpAddress::V6(0x2001, 0xdb8, 0, 0, 0, 0, 0, 1), 443),
        Address::Domain(String::from("example.org"), 53),
    ] {
        assert_eq!(addr.as_socks_bytes().len(), addr.len());
    }
}

#[test]
fn test_address_decode_short_read() {
    let bytes = vec![127, 0, 0];
    assert_eq!(
        Address::from_socks_bytes(&bytes, 0, AddressType::IPV4),
        Err(ProtocolError::ShortRead)
    );
    assert_eq!(
        Address::from_socks_bytes(&bytes, 0, AddressType::IPV6),
        Err(ProtocolError::ShortRead)
    );
    // The declared name is longer than what follows it.
    let bytes = vec![5, 102, 111, 111];
    assert_eq!(
        Address::from_socks_bytes(&bytes, 0, AddressType::FQDN),
        Err(ProtocolError::ShortRead)
    );
}

#[test]
fn test_address_decode_bad_utf8() {
    let bytes = vec![4, 0xff, 0xfe, 0xfd, 0xfc, 0x00, 0x50];
    assert_eq!(
        Address::from_socks_bytes(&bytes, 0, AddressType::FQDN),
        Err(ProtocolError::BadUtf8Hostname)
    );
}

#[test]
fn test_address_decode_multibyte_name() {
    // The two octets C3 A9 are the UTF-8 encoding of 'e' with an acute
    // accent: the decoded name must be that character, not the raw
    // octets.
    let bytes = vec![2, 0xc3, 0xa9, 0x00, 0x50];
    let (addr, end) = Address::from_socks_bytes(&bytes, 0, AddressType::FQDN).unwrap();
    assert_eq!(addr, Address::Domain(String::from("\u{e9}"), 80));
    assert_eq!(end, 5);
    assert_eq!(addr.as_socks_bytes(), bytes);
    assert_eq!(addr.len(), 5);
}

#[test]
fn test_address_well_formed() {
    assert!(Address::default().well_formed());
    assert!(Address::Domain(String::from("a"), 1).well_formed());
    assert!(!Address::Domain(String::from(""), 1).well_formed());
    assert!(!Address::Domain("x".repeat(256), 1).well_formed());
    assert!(Address::Domain("x".repeat(255), 1).well_formed());
}
