//! The CMD code points of RFC 1928: what the client asks the proxy to do.

use vstd::prelude::*;

use crate::error::ProtocolError;

verus! {

/// The command of a SOCKS5 request.
#[derive(Debug, Clone, Copy, PartialEq, Eq, Structural)]
pub enum Command {
    Connect,
    Bind,
    UdpAssociate,
}

impl Command {
    /// The octet that stands for this command on the wire.
    pub open spec fn spec_octet(self) -> u8 {
        match self {
            Command::Connect => 0x01,
            Command::Bind => 0x02,
            Command::UdpAssociate => 0x03,
        }
    }

    /// The command an octet stands for; octets outside the three code
    /// points are a decode error.
    pub open spec fn spec_decode(x: u8) -> Result<Command, ProtocolError> {
        match x {
            0x01 => Ok(Command::Connect),
            0x02 => Ok(Command::Bind),
            0x03 => Ok(Command::UdpAssociate),
            _ => Err(ProtocolError::UnknownCommand(x)),
        }
    }

    /// Emit the command as its wire octet.
    pub fn encode(self) -> (r: u8)
        ensures
            r == self.spec_octet(),
    {
        match self {
            Command::Connect => 0x01,
            Command::Bind => 0x02,
            Command::UdpAssociate => 0x03,
        }
    }

    /// Read a command back from its wire octet.
    pub fn decode(x: u8) -> (r: Result<Command, ProtocolError>)
        ensures
            r == Command::spec_decode(x),
    {
        match x {
            0x01 => Ok(Command::Connect),
            0x02 => Ok(Command::Bind),
            0x03 => Ok(Command::UdpAssociate),
            _ => Err(ProtocolError::UnknownCommand(x)),
        }
    }
}

/// Decoding the octet a command encodes to yields the command again.
pub proof fn lemma_command_decode_encode(v: Command)
    ensures
        Command::spec_decode(v.spec_octet()) == Ok::<Command, ProtocolError>(v),
{
}

/// Encoding the command an octet decodes to yields the octet again.
pub proof fn lemma_command_encode_decode(x: u8)
    requires
        Command::spec_decode(x) is Ok,
    ensures
        Command::spec_decode(x)->Ok_0.spec_octet() == x,
{
}

} // verus!
