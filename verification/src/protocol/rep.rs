//! The REP code points of RFC 1928: the status the proxy reports, and
//! the mapping from OS failures onto it.

use vstd::prelude::*;

use crate::error::IoErrorKind;
use crate::protocol::cmd::Command;

verus! {

/// The reply field of a SOCKS5 response. Decoding is total: the
/// unassigned range `0x09..=0xFF` collapses onto one variant.
#[derive(Debug, Clone, Copy, PartialEq, Eq, Structural)]
pub enum ReplyField {
    Succeeded,
    GeneralSocksServerFailure,
    ConnectionNotAllowedByRuleSet,
    NetworkUnreachable,
    HostUnreachable,
    ConnectionRefused,
    TTLExpired,
    CommandNotSupported,
    AddressTypeNotSupported,
    Unassigned,
}

impl ReplyField {
    /// The octet emitted for this reply; `Unassigned` emits the first
    /// octet of its range.
    pub open spec fn spec_octet(self) -> u8 {
        match self {
            ReplyField::Succeeded => 0x00,
            ReplyField::GeneralSocksServerFailure => 0x01,
            ReplyField::ConnectionNotAllowedByRuleSet => 0x02,
            ReplyField::NetworkUnreachable => 0x03,
            ReplyField::HostUnreachable => 0x04,
            ReplyField::ConnectionRefused => 0x05,
            ReplyField::TTLExpired => 0x06,
            ReplyField::CommandNotSupported => 0x07,
            ReplyField::AddressTypeNotSupported => 0x08,
            ReplyField::Unassigned => 0x09,
        }
    }

    /// The reply any octet stands for; total.
    pub open spec fn spec_decode(x: u8) -> ReplyField {
        match x {
            0x00 => ReplyField::Succeeded,
            0x01 => ReplyField::GeneralSocksServerFailure,
            0x02 => ReplyField::ConnectionNotAllowedByRuleSet,
            0x03 => ReplyField::NetworkUnreachable,
            0x04 => ReplyField::HostUnreachable,
            0x05 => ReplyField::ConnectionRefused,
            0x06 => ReplyField::TTLExpired,
            0x07 => ReplyField::CommandNotSupported,
            0x08 => ReplyField::AddressTypeNotSupported,
            _ => ReplyField::Unassigned,
        }
    }

    /// Emit the reply as its wire octet.
    pub fn encode(self) -> (r: u8)
        ensures
            r == self.spec_octet(),
    {
        match self {
            ReplyField::Succeeded => 0x00,
            ReplyField::GeneralSocksServerFailure => 0x01,
            ReplyField::ConnectionNotAllowedByRuleSet => 0x02,
            ReplyField::NetworkUnreachable => 0x03,
            ReplyField::HostUnreachable => 0x04,
            ReplyField::ConnectionRefused => 0x05,
            ReplyField::TTLExpired => 0x06,
            ReplyField::CommandNotSupported => 0x07,
            ReplyField::AddressTypeNotSupported => 0x08,
            ReplyField::Unassigned => 0x09,
        }
    }

    /// Read the reply an octet stands for.
    pub fn decode(x: u8) -> (r: ReplyField)
        ensures
            r == ReplyField::spec_decode(x),
    {
        match x {
            0x00 => ReplyField::Succeeded,
            0x01 => ReplyField::GeneralSocksServerFailure,
            0x02 => ReplyField::ConnectionNotAllowedByRuleSet,
            0x03 => ReplyField::NetworkUnreachable,
            0x04 => ReplyField::HostUnreachable,
            0x05 => ReplyField::ConnectionRefused,
            0x06 => ReplyField::TTLExpired,
            0x07 => ReplyField::CommandNotSupported,
            0x08 => ReplyField::AddressTypeNotSupported,
            _ => ReplyField::Unassigned,
        }
    }

    /// The reply reported when an OS failure ends command setup: refusal,
    /// reset and abort map to their own code points; a timeout maps to
    /// TTL-expired while connecting and to network-unreachable while
    /// setting up a UDP association; anything else is unassigned.
    pub open spec fn spec_for_io_error(kind: IoErrorKind, cmd: Command) -> ReplyField {
        match kind {
            IoErrorKind::ConnectionRefused => ReplyField::ConnectionRefused,
            IoErrorKind::ConnectionReset => ReplyField::GeneralSocksServerFailure,
            IoErrorKind::NotConnected => ReplyField::GeneralSocksServerFailure,
            IoErrorKind::ConnectionAborted => ReplyField::ConnectionNotAllowedByRuleSet,
            IoErrorKind::TimedOut => if cmd is Connect {
                ReplyField::TTLExpired
            } else {
                ReplyField::NetworkUnreachable
            },
            IoErrorKind::Other => ReplyField::Unassigned,
        }
    }

    /// Map an OS failure during setup of the given command to the reply
    /// the client is sent.
    pub fn for_io_error(kind: IoErrorKind, cmd: Command) -> (r: ReplyField)
        ensures
            r == ReplyField::spec_for_io_error(kind, cmd),
    {
        match kind {
            IoErrorKind::ConnectionRefused => ReplyField::ConnectionRefused,
            IoErrorKind::ConnectionReset => ReplyField::GeneralSocksServerFailure,
            IoErrorKind::NotConnected => ReplyField::GeneralSocksServerFailure,
            IoErrorKind::ConnectionAborted => ReplyField::ConnectionNotAllowedByRuleSet,
            IoErrorKind::TimedOut => match cmd {
                Command::Connect => ReplyField::TTLExpired,
                _ => ReplyField::NetworkUnreachable,
            },
            IoErrorKind::Other => ReplyField::Unassigned,
        }
    }
}

impl Default for ReplyField {
    /// Success, the code point of every ordinary reply.
    fn default() -> (r: ReplyField)
        ensures
            r == ReplyField::Succeeded,
    {
        ReplyField::Succeeded
    }
}

/// Decoding the octet a reply encodes to yields the reply again.
pub proof fn lemma_reply_field_decode_encode(v: ReplyField)
    ensures
        ReplyField::spec_decode(v.spec_octet()) == v,
{
}

/// Encoding the reply an octet decodes to yields the octet again, for
/// the nine assigned octets; an octet from inside the unassigned range
/// decodes to `Unassigned`, which encodes back to the first octet of
/// the range.
pub proof fn lemma_reply_field_encode_decode(x: u8)
    requires
        x <= 0x09,
    ensures
        ReplyField::spec_decode(x).spec_octet() == x,
{
}

} // verus!
