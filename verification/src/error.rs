//! The error taxonomy: malformed frames and the OS failures that the
//! session maps to reply code points.

use vstd::prelude::*;

verus! {

/// A malformed SOCKS5 or subnegotiation frame. Each variant that carries
/// an octet names the offending value as it was read.
#[derive(Debug, Clone, Copy, PartialEq, Eq, Structural)]
pub enum ProtocolError {
    /// The version octet was not the one the frame demands.
    UnsupportedVersion(u8),
    /// The CMD octet is outside the three commands.
    UnknownCommand(u8),
    /// The ATYP octet is outside the three address types.
    UnknownAddressType(u8),
    /// A reserved octet held something other than zero.
    ReservedNonZero(u8),
    /// The input ended before the frame did.
    ShortRead,
    /// A UDP datagram too short to hold even its fixed header.
    ShortDatagram,
    /// A domain name on the wire that is not valid UTF-8.
    BadUtf8Hostname,
}

/// The OS-level socket failures that the session distinguishes when it
/// maps an I/O error to a reply code point. Every other failure is
/// `Other`.
#[derive(Debug, Clone, Copy, PartialEq, Eq, Structural)]
pub enum IoErrorKind {
    ConnectionRefused,
    ConnectionReset,
    NotConnected,
    ConnectionAborted,
    TimedOut,
    Other,
}

} // verus!
