//! A SOCKS5 (RFC 1928) and username/password authentication (RFC 1929)
//! protocol library: byte-exact message codecs and the per-connection
//! session state machine, with machine-checked contracts.
//!
//! The [`protocol`] module holds the wire code points, the address
//! codec and the message codecs, each with a serializer and a decoder
//! proved inverse to one another. The [`session`] module holds the
//! driver state machine: a pure transition function from protocol
//! events to the bytes owed to the client and the next action, so that
//! a connection handler around it performs no protocol decision of its
//! own. All I/O stays with the caller.

use vstd::prelude::*;

pub mod error;
pub mod protocol;
pub mod session;
pub mod wire;

verus! {

/// The protocol version octet of every SOCKS5 message (RFC 1928).
pub const SOCKS_VERSION: u8 = 0x05;

/// The version octet of the username/password subnegotiation (RFC 1929).
pub const AUTH_VERSION: u8 = 0x01;

/// The only value the reserved octets may carry.
pub const RSV_RESERVED: u8 = 0x00;

} // verus!
