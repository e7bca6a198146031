use socks5::error::IoErrorKind;
use socks5::protocol::Address;
use socks5::protocol::HandshakeRequest;
use socks5::protocol::IpAddress;
use socks5::protocol::TellRequest;
use socks5::protocol::UsernamePasswordAuth;
use socks5::session::constant_time_eq;
use socks5::session::Directive;
use socks5::session::Session;
use socks5::session::SessionEvent;
use socks5::session::SessionState;

fn greet_no_auth(session: &mut Session) {
    let (req, _) = HandshakeRequest::from_socks_bytes(&vec![5, 1, 0], 0).unwrap();
    let step = session.handle(SessionEvent::Greeting(req));
    assert_eq!(step.output, vec![5, 0]);
}

#[test]
fn test_greeting_no_auth() {
    let mut session = Session::new(None);
    let (req, _) = HandshakeRequest::from_socks_bytes(&vec![5, 1, 0], 0).unwrap();
    let step = session.handle(SessionEvent::Greeting(req));
    assert_eq!(step.output, vec![5, 0]);
    assert!(matches!(step.next, Directive::Continue));
    assert_eq!(session.state(), SessionState::AuthNegotiated);
}

#[test]
fn test_greeting_no_acceptable_method() {
    let mut session = Session::new(None);
    // Only GSSAPI offered; the policy accepts none of it.
    let (req, _) = HandshakeRequest::from_socks_bytes(&vec![5, 1, 1], 0).unwrap();
    let step = session.handle(SessionEvent::Greeting(req));
    assert_eq!(step.output, vec![5, 0xff]);
    assert!(matches!(step.next, Directive::Close));
    assert_eq!(session.state(), SessionState::Closed);
}

#[test]
fn test_auth_negotiation_and_success() {
    let creds = UsernamePasswordAuth::new("user", "secret");
    let mut session = Session::new(Some(creds));
    let (req, _) = HandshakeRequest::from_socks_bytes(&vec![5, 2, 0, 2], 0).unwrap();
    let step = session.handle(SessionEvent::Greeting(req));
    assert_eq!(step.output, vec![5, 2]);
    assert_eq!(session.state(), SessionState::Greeted);

    let supplied = UsernamePasswordAuth::new("user", "secret");
    let step = session.handle(SessionEvent::Auth(supplied));
    assert_eq!(step.output, vec![1, 0]);
    assert!(matches!(step.next, Directive::Continue));
    assert_eq!(session.state(), SessionState::AuthNegotiated);
}

#[test]
fn test_auth_bad_credentials() {
    let creds = UsernamePasswordAuth::new("user", "secret");
    let mut session = Session::new(Some(creds));
    let (req, _) = HandshakeRequest::from_socks_bytes(&vec![5, 1, 2], 0).unwrap();
    session.handle(SessionEvent::Greeting(req));

    let supplied = UsernamePasswordAuth::new("user", "wrong");
    let step = session.handle(SessionEvent::Auth(supplied));
    assert_eq!(step.output, vec![1, 1]);
    assert!(matches!(step.next, Directive::Close));
    assert_eq!(session.state(), SessionState::Closed);
}

#[test]
fn test_ipv4_connect_flow() {
    let mut session = Session::new(None);
    greet_no_auth(&mut session);

    let reqbytes = vec![5u8, 1, 0, 1, 127, 0, 0, 1, 0x00, 0x50];
    let (req, _) = TellRequest::from_socks_bytes(&reqbytes, 0).unwrap();
    let step = session.handle(SessionEvent::Request(req));
    assert!(step.output.is_empty());
    match step.next {
        Directive::Resolve(addr) => {
            assert_eq!(addr, Address::IP(IpAddress::V4(127, 0, 0, 1), 80))
        },
        _ => panic!("expected a resolve directive"),
    }
    assert_eq!(session.state(), SessionState::Commanded);

    let step = session.handle(SessionEvent::Resolved(Ok((IpAddress::V4(127, 0, 0, 1), 80))));
    assert!(step.output.is_empty());
    assert!(matches!(step.next, Directive::ConnectTo(IpAddress::V4(127, 0, 0, 1), 80)));
    assert_eq!(session.state(), SessionState::Connecting);

    let bound = (IpAddress::V4(192, 168, 0, 9), 41000);
    let step = session.handle(SessionEvent::ConnectOutcome(Ok(bound)));
    assert_eq!(step.output[0..4], [5, 0, 0, 1]);
    assert_eq!(step.output[4..], [192, 168, 0, 9, 0xa0, 0x28]);
    assert!(matches!(step.next, Directive::Continue));
    assert_eq!(session.state(), SessionState::Relaying);

    let step = session.handle(SessionEvent::RelayEnd);
    assert!(step.output.is_empty());
    assert!(matches!(step.next, Directive::Close));
    assert_eq!(session.state(), SessionState::Closed);
}

#[test]
fn test_bind_unsupported() {
    let mut session = Session::new(None);
    greet_no_auth(&mut session);

    let reqbytes = vec![5u8, 2, 0, 1, 0, 0, 0, 0, 0, 0];
    let (req, _) = TellRequest::from_socks_bytes(&reqbytes, 0).unwrap();
    let step = session.handle(SessionEvent::Request(req));
    assert!(step.output.is_empty());
    let step = session.handle(SessionEvent::Resolved(Ok((IpAddress::V4(0, 0, 0, 0), 0))));
    assert_eq!(step.output, vec![5, 7, 0, 1, 0, 0, 0, 0, 0, 0]);
    assert!(matches!(step.next, Directive::Close));
    assert_eq!(session.state(), SessionState::Closed);
}

#[test]
fn test_connection_refused_mapping() {
    let mut session = Session::new(None);
    greet_no_auth(&mut session);

    let reqbytes = vec![5u8, 1, 0, 1, 127, 0, 0, 1, 0x1f, 0x90];
    let (req, _) = TellRequest::from_socks_bytes(&reqbytes, 0).unwrap();
    session.handle(SessionEvent::Request(req));
    session.handle(SessionEvent::Resolved(Ok((IpAddress::V4(127, 0, 0, 1), 8080))));
    let step = session.handle(SessionEvent::ConnectOutcome(Err(IoErrorKind::ConnectionRefused)));
    assert_eq!(step.output, vec![5, 5, 0, 1, 0, 0, 0, 0, 0, 0]);
    assert!(matches!(step.next, Directive::Close));
    assert_eq!(session.state(), SessionState::Closed);
}

#[test]
fn test_timeout_mapping_depends_on_command() {
    // A timed-out CONNECT reports TTL expired.
    let mut session = Session::new(None);
    greet_no_auth(&mut session);
    let (req, _) =
        TellRequest::from_socks_bytes(&vec![5u8, 1, 0, 1, 10, 0, 0, 1, 0, 80], 0).unwrap();
    session.handle(SessionEvent::Request(req));
    session.handle(SessionEvent::Resolved(Ok((IpAddress::V4(10, 0, 0, 1), 80))));
    let step = session.handle(SessionEvent::ConnectOutcome(Err(IoErrorKind::TimedOut)));
    assert_eq!(step.output, vec![5, 6, 0, 1, 0, 0, 0, 0, 0, 0]);

    // A timed-out UDP association reports network-unreachable.
    let mut session = Session::new(None);
    greet_no_auth(&mut session);
    let (req, _) =
        TellRequest::from_socks_bytes(&vec![5u8, 3, 0, 1, 10, 0, 0, 1, 0, 80], 0).unwrap();
    session.handle(SessionEvent::Request(req));
    session.handle(SessionEvent::Resolved(Ok((IpAddress::V4(10, 0, 0, 1), 80))));
    let step = session.handle(SessionEvent::UdpOutcome(Err(IoErrorKind::TimedOut)));
    assert_eq!(step.output, vec![5, 3, 0, 1, 0, 0, 0, 0, 0, 0]);
}

#[test]
fn test_udp_associate_flow() {
    let mut session = Session::new(None);
    greet_no_auth(&mut session);

    let reqbytes = vec![5u8, 3, 0, 1, 8, 8, 8, 8, 0, 53];
    let (req, _) = TellRequest::from_socks_bytes(&reqbytes, 0).unwrap();
    session.handle(SessionEvent::Request(req));
    let step = session.handle(SessionEvent::Resolved(Ok((IpAddress::V4(8, 8, 8, 8), 53))));
    assert!(matches!(step.next, Directive::UdpOpen(IpAddress::V4(8, 8, 8, 8), 53)));
    assert_eq!(session.state(), SessionState::UdpAssociating);

    let local = (IpAddress::V4(192, 168, 1, 2), 40000);
    let step = session.handle(SessionEvent::UdpOutcome(Ok(local)));
    assert_eq!(step.output, vec![5, 0, 0, 1, 192, 168, 1, 2, 0x9c, 0x40]);
    assert_eq!(session.state(), SessionState::Relaying);
}

#[test]
fn test_resolution_failure_closes_without_reply() {
    let mut session = Session::new(None);
    greet_no_auth(&mut session);
    let (req, _) = TellRequest::from_socks_bytes(
        &vec![5u8, 1, 0, 3, 4, b'n', b'o', b'p', b'e', 0, 80],
        0,
    )
    .unwrap();
    session.handle(SessionEvent::Request(req));
    let step = session.handle(SessionEvent::Resolved(Err(IoErrorKind::Other)));
    assert!(step.output.is_empty());
    assert!(matches!(step.next, Directive::Close));
    assert_eq!(session.state(), SessionState::Closed);
}

#[test]
fn test_abort_closes_without_reply() {
    let mut session = Session::new(None);
    let step = session.handle(SessionEvent::Abort);
    assert!(step.output.is_empty());
    assert!(matches!(step.next, Directive::Close));
    assert_eq!(session.state(), SessionState::Closed);
}

#[test]
fn test_close_directive_appears_exactly_once() {
    // A full CONNECT run: the close directive is produced by exactly
    // one step, the terminal one.
    let mut session = Session::new(None);
    let mut closes = 0;
    let (greeting, _) = HandshakeRequest::from_socks_bytes(&vec![5, 1, 0], 0).unwrap();
    let (req, _) =
        TellRequest::from_socks_bytes(&vec![5u8, 1, 0, 1, 127, 0, 0, 1, 0, 80], 0).unwrap();
    let events = vec![
        SessionEvent::Greeting(greeting),
        SessionEvent::Request(req),
        SessionEvent::Resolved(Ok((IpAddress::V4(127, 0, 0, 1), 80))),
        SessionEvent::ConnectOutcome(Ok((IpAddress::V4(0, 0, 0, 0), 0))),
        SessionEvent::RelayEnd,
    ];
    for ev in events {
        let step = session.handle(ev);
        if matches!(step.next, Directive::Close) {
            closes += 1;
            assert_eq!(session.state(), SessionState::Closed);
        } else {
            assert!(session.state() != SessionState::Closed);
        }
    }
    assert_eq!(closes, 1);
    assert_eq!(session.state(), SessionState::Closed);
}

#[test]
fn test_constant_time_eq() {
    assert!(constant_time_eq(&vec![], &vec![]));
    assert!(constant_time_eq(&vec![1, 2, 3], &vec![1, 2, 3]));
    assert!(!constant_time_eq(&vec![1, 2, 3], &vec![1, 2, 4]));
    assert!(!constant_time_eq(&vec![1, 2, 3], &vec![1, 2]));
    assert!(!constant_time_eq(&vec![0, 2, 3], &vec![1, 2, 3]));
}
