//! The SOCKS5 wire protocol: code-point enumerations, the address codec,
//! and the message codecs of RFC 1928 and RFC 1929.

pub mod addr;
pub mod atyp;
pub mod cmd;
pub mod handreq;
pub mod handresp;
pub mod method;
pub mod rep;
pub mod rep_resp;
pub mod tellreq;
pub mod text;
pub mod udp_pack;
pub mod upauth;
pub mod upauthret;

pub use addr::Address;
pub use addr::AddressView;
pub use addr::IpAddress;
pub use atyp::AddressType;
pub use cmd::Command;
pub use handreq::HandshakeRequest;
pub use handresp::HandshakeResponse;
pub use method::AuthMethod;
pub use rep::ReplyField;
pub use rep_resp::ReplyResponse;
pub use rep_resp::ReplyResponseView;
pub use tellreq::TellRequest;
pub use tellreq::TellRequestView;
pub use udp_pack::UdpPacket;
pub use udp_pack::UdpPacketView;
pub use upauth::UsernamePasswordAuth;
pub use upauth::UsernamePasswordAuthView;
pub use upauthret::UsernamePasswordAuthResult;
