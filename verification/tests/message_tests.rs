use socks5::error::ProtocolError;
use socks5::protocol::Address;
use socks5::protocol::AddressType;
use socks5::protocol::AuthMethod;
use socks5::protocol::Command;
use socks5::protocol::HandshakeRequest;
use socks5::protocol::HandshakeResponse;
use socks5::protocol::IpAddress;
use socks5::protocol::ReplyField;
use socks5::protocol::ReplyResponse;
use socks5::protocol::TellRequest;
use socks5::protocol::UdpPacket;
use socks5::protocol::UsernamePasswordAuth;

#[test]
fn test_handshake_request_codec() {
    let (req, end) = HandshakeRequest::from_socks_bytes(&vec![5, 1, 0], 0).unwrap();
    assert_eq!(req.methods(), vec![AuthMethod::NoAuthenticationRequired]);
    assert_eq!(end, 3);

    let req = HandshakeRequest::new(vec![
        AuthMethod::NoAuthenticationRequired,
        AuthMethod::UsernameOrPassword,
    ]);
    assert_eq!(req.as_bytes(), vec![5, 2, 0, 2]);
    let (back, end) = HandshakeRequest::from_socks_bytes(&req.as_bytes(), 0).unwrap();
    assert_eq!(back.methods(), req.methods());
    assert_eq!(end, 4);

    assert_eq!(HandshakeRequest::from_socks_bytes(&vec![4, 1, 0], 0).unwrap_err(), ProtocolError::UnsupportedVersion(4));
    assert_eq!(HandshakeRequest::from_socks_bytes(&vec![5, 2, 0], 0).unwrap_err(), ProtocolError::ShortRead);
}

#[test]
fn test_handshake_response_codec() {
    let resp = HandshakeResponse::new(AuthMethod::NoAuthenticationRequired);
    assert_eq!(resp.method(), AuthMethod::NoAuthenticationRequired);
    assert_eq!(resp.as_bytes(), vec![5, 0]);
    let (back, end) = HandshakeResponse::from_socks_bytes(&resp.as_bytes(), 0).unwrap();
    assert_eq!(back.method(), AuthMethod::NoAuthenticationRequired);
    assert_eq!(end, 2);
}

#[test]
fn tellreq_test_from() {
    let v4reqbytes = vec![5u8, 1, 0, 1, 127, 0, 0, 1, 0x00, 0x50];
    let (v4req, _) = TellRequest::from_socks_bytes(&v4reqbytes, 0).unwrap();
    assert!(v4req.cmd() == Command::Connect);
    assert!(v4req.atyp() == AddressType::IPV4);
    assert_eq!(v4req.addr(), Address::IP(IpAddress::V4(127, 0, 0, 1), 80));

    let dnreqbytes = vec![
        5u8, 1, 0, 3, /* dnlen */ 10, /* dnlen */
        103, 105, 116, 104, 117, 98, 46, 99, 111, 109, /* begin port */ 0x01, 0xbb,
    ];
    let (dnreq, _) = TellRequest::from_socks_bytes(&dnreqbytes, 0).unwrap();
    assert!(dnreq.atyp() == AddressType::FQDN);
    assert_eq!(dnreq.addr(), Address::Domain(String::from("github.com"), 443));

    let v6reqbytes = vec![
        5u8, 1, 0, 4, 0x20, 0x01, 0x0d, 0xb8, 0x00, 0x01, 0x00, 0x00, 0x02, 0x0c, 0x29, 0xff,
        0xfe, 0x96, 0x8b, 0x55, /* begin port */ 0x1f, 0x90,
    ];
    let (v6req, _) = TellRequest::from_socks_bytes(&v6reqbytes, 0).unwrap();
    assert!(v6req.atyp() == AddressType::IPV6);
    assert_eq!(
        v6req.addr(),
        Address::IP(
            IpAddress::V6(0x2001, 0x0db8, 0x0001, 0x0000, 0x020c, 0x29ff, 0xfe96, 0x8b55),
            8080
        )
    );
}

#[test]
fn rep_resp_test_from() {
    let v4reqbytes = vec![5u8, 1, 0, 1, 127, 0, 0, 1, 0x00, 0x50];
    let (v4req, _) = ReplyResponse::from_socks_bytes(&v4reqbytes, 0).unwrap();
    assert!(v4req.rep() == ReplyField::GeneralSocksServerFailure);
    assert!(v4req.atyp() == AddressType::IPV4);
    assert_eq!(v4req.addr(), Address::IP(IpAddress::V4(127, 0, 0, 1), 80));

    let dnreqbytes = vec![
        5u8, 1, 0, 3, /* dnlen */ 10, /* dnlen */
        103, 105, 116, 104, 117, 98, 46, 99, 111, 109, /* begin port */ 0x01, 0xbb,
    ];
    let (dnreq, _) = ReplyResponse::from_socks_bytes(&dnreqbytes, 0).unwrap();
    assert!(dnreq.atyp() == AddressType::FQDN);
    assert_eq!(dnreq.addr(), Address::Domain(String::from("github.com"), 443));

    let v6reqbytes = vec![
        5u8, 1, 0, 4, 0x20, 0x01, 0x0d, 0xb8, 0x00, 0x01, 0x00, 0x00, 0x02, 0x0c, 0x29, 0xff,
        0xfe, 0x96, 0x8b, 0x55, /* begin port */ 0x1f, 0x90,
    ];
    let (v6req, _) = ReplyResponse::from_socks_bytes(&v6reqbytes, 0).unwrap();
    assert!(v6req.atyp() == AddressType::IPV6);
    assert_eq!(
        v6req.addr(),
        Address::IP(
            IpAddress::V6(0x2001, 0x0db8, 0x0001, 0x0000, 0x020c, 0x29ff, 0xfe96, 0x8b55),
            8080
        )
    );
}

#[test]
fn test_tell_request_round_trip() {
    let cases = vec![
        TellRequest::new(
            Command::Connect,
            AddressType::IPV4,
            Address::IP(IpAddress::V4(127, 0, 0, 1), 80),
        ),
        TellRequest::new(
            Command::UdpAssociate,
            AddressType::FQDN,
            Address::Domain(String::from("github.com"), 443),
        ),
        TellRequest::new(
            Command::Bind,
            AddressType::IPV6,
            Address::IP(IpAddress::V6(0x2001, 0xdb8, 1, 0, 0x20c, 0x29ff, 0xfe96, 0x8b55), 8080),
        ),
    ];
    for req in cases {
        let bytes = req.as_bytes();
        let (back, end) = TellRequest::from_socks_bytes(&bytes, 0).unwrap();
        assert_eq!(back.cmd(), req.cmd());
        assert_eq!(back.atyp(), req.atyp());
        assert_eq!(back.addr(), req.addr());
        assert_eq!(end, bytes.len());
    }
}

#[test]
fn test_reply_response_round_trip() {
    let cases = vec![
        ReplyResponse::new(ReplyField::Succeeded, Address::IP(IpAddress::V4(10, 1, 2, 3), 1080)),
        ReplyResponse::new(ReplyField::ConnectionRefused, Address::default()),
        ReplyResponse::new(
            ReplyField::Succeeded,
            Address::Domain(String::from("proxy.example"), 1080),
        ),
    ];
    for resp in cases {
        let bytes = resp.as_bytes();
        let (back, end) = ReplyResponse::from_socks_bytes(&bytes, 0).unwrap();
        assert_eq!(back.rep(), resp.rep());
        assert_eq!(back.addr(), resp.addr());
        assert_eq!(end, bytes.len());
    }
}

#[test]
fn tellreq_test_errors() {
    assert_eq!(TellRequest::from_socks_bytes(&vec![4, 1, 0, 1], 0).unwrap_err(), ProtocolError::UnsupportedVersion(4));
    assert_eq!(TellRequest::from_socks_bytes(&vec![5, 9, 0, 1], 0).unwrap_err(), ProtocolError::UnknownCommand(9));
    assert_eq!(TellRequest::from_socks_bytes(&vec![5, 1, 7, 1], 0).unwrap_err(), ProtocolError::ReservedNonZero(7));
    assert_eq!(TellRequest::from_socks_bytes(&vec![5, 1, 0, 2, 0, 0], 0).unwrap_err(), ProtocolError::UnknownAddressType(2));
    assert_eq!(TellRequest::from_socks_bytes(&vec![5, 1, 0], 0).unwrap_err(), ProtocolError::ShortRead);
}

#[test]
fn udp_pack_test_as_socks_bytes() {
    let data = vec![
        219u8, 221, 1, 32, 0, 1, 0, 0, 0, 0, 0, 0, 5, 98, 97, 105, 100, 117, 3, 99, 111, 109, 0,
        0, 28, 0, 1,
    ];
    let udp_pack = UdpPacket::new(0, Address::default(), data);
    let udp_pack_bytes = udp_pack.as_socks_bytes();
    assert_eq!(
        udp_pack_bytes,
        vec![
            0u8, 0, 0, 1, 0, 0, 0, 0, /* PROT */ 0u8, 0u8, /* PORT */
            /* DATA */ 219, 221, 1, 32, 0, 1, 0, 0, 0, 0, 0, 0, 5, 98, 97, 105, 100, 117, 3,
            99, 111, 109, 0, 0, 28, 0, 1,
        ]
    )
}

#[test]
fn test_udp_packet_round_trip() {
    let data = vec![0xdbu8, 0xdd, 0x01, 0x20];
    let packet = UdpPacket::new(0, Address::IP(IpAddress::V4(0, 0, 0, 0), 0), data.clone());
    let bytes = packet.as_socks_bytes();
    assert_eq!(bytes, vec![0, 0, 0, 1, 0, 0, 0, 0, 0, 0, 0xdb, 0xdd, 0x01, 0x20]);
    let back = UdpPacket::from_socks_bytes(&bytes).unwrap();
    assert_eq!(back.frag(), 0);
    assert_eq!(back.addr(), Address::IP(IpAddress::V4(0, 0, 0, 0), 0));
    assert_eq!(back.data(), data);

    let dn_packet = UdpPacket::new(
        0,
        Address::Domain(String::from("dns.example"), 53),
        vec![1, 2, 3],
    );
    let bytes = dn_packet.as_socks_bytes();
    let back = UdpPacket::from_socks_bytes(&bytes).unwrap();
    assert_eq!(back.frag(), 0);
    assert_eq!(back.addr(), Address::Domain(String::from("dns.example"), 53));
    assert_eq!(back.data(), vec![1, 2, 3]);
}

#[test]
fn test_udp_packet_short_datagram() {
    assert_eq!(UdpPacket::from_socks_bytes(&vec![0, 0, 0, 1]).unwrap_err(), ProtocolError::ShortDatagram);
    assert_eq!(UdpPacket::from_socks_bytes(&vec![]).unwrap_err(), ProtocolError::ShortDatagram);
}

#[test]
fn test_username_password_auth_codec() {
    let auth = UsernamePasswordAuth::new("user", "pass");
    assert_eq!(auth.uname(), "user");
    assert_eq!(auth.passwd(), "pass");
    assert_eq!(
        auth.as_bytes(),
        vec![1, 4, b'u', b's', b'e', b'r', 4, b'p', b'a', b's', b's']
    );
    let (back, end) = UsernamePasswordAuth::from_socks_bytes(&auth.as_bytes(), 0).unwrap();
    assert_eq!(back.uname(), "user");
    assert_eq!(back.passwd(), "pass");
    assert_eq!(end, 11);

    assert_eq!(UsernamePasswordAuth::from_socks_bytes(&vec![5, 1, b'u', 1, b'p'], 0).unwrap_err(), ProtocolError::UnsupportedVersion(5));
    assert_eq!(UsernamePasswordAuth::from_socks_bytes(&vec![1, 3, b'u'], 0).unwrap_err(), ProtocolError::ShortRead);
}

#[test]
fn test_largest_greeting_round_trip() {
    let methods = vec![AuthMethod::IANAAssigned; 255];
    let req = HandshakeRequest::new(methods.clone());
    let bytes = req.as_bytes();
    assert_eq!(bytes.len(), 257);
    assert_eq!(bytes[1], 255);
    let (back, end) = HandshakeRequest::from_socks_bytes(&bytes, 0).unwrap();
    assert_eq!(back.methods(), methods);
    assert_eq!(end, 257);
}

#[test]
fn test_largest_domain_round_trip() {
    let name = "x".repeat(255);
    let req = TellRequest::new(
        Command::Connect,
        AddressType::FQDN,
        Address::Domain(name.clone(), 65535),
    );
    let bytes = req.as_bytes();
    assert_eq!(bytes.len(), 4 + 1 + 255 + 2);
    let (back, end) = TellRequest::from_socks_bytes(&bytes, 0).unwrap();
    assert_eq!(back.addr(), Address::Domain(name, 65535));
    assert_eq!(end, bytes.len());
}

#[test]
fn test_largest_credentials_round_trip() {
    let uname = "u".repeat(255);
    let passwd = "p".repeat(255);
    let auth = UsernamePasswordAuth::new(&uname, &passwd);
    let bytes = auth.as_bytes();
    assert_eq!(bytes.len(), 1 + 1 + 255 + 1 + 255);
    let (back, end) = UsernamePasswordAuth::from_socks_bytes(&bytes, 0).unwrap();
    assert_eq!(back.uname(), uname);
    assert_eq!(back.passwd(), passwd);
    assert_eq!(end, bytes.len());
}
