//! The ATYP code points of RFC 1928: the tag in front of every address.

use vstd::prelude::*;

use crate::error::ProtocolError;

verus! {

/// The address-type tag carried in request, reply and UDP headers.
#[derive(Debug, Clone, Copy, PartialEq, Eq, Structural)]
pub enum AddressType {
    /// A version-4 IP address, four octets long.
    IPV4,
    /// A fully-qualified domain name: one length octet, then that many
    /// octets of name, with no terminating NUL.
    FQDN,
    /// A version-6 IP address, sixteen octets long.
    IPV6,
}

impl AddressType {
    /// The octet that stands for this tag on the wire.
    pub open spec fn spec_octet(self) -> u8 {
        match self {
            AddressType::IPV4 => 0x01,
            AddressType::FQDN => 0x03,
            AddressType::IPV6 => 0x04,
        }
    }

    /// The tag an octet stands for; octets outside the three code points
    /// are a decode error.
    pub open spec fn spec_decode(x: u8) -> Result<AddressType, ProtocolError> {
        match x {
            0x01 => Ok(AddressType::IPV4),
            0x03 => Ok(AddressType::FQDN),
            0x04 => Ok(AddressType::IPV6),
            _ => Err(ProtocolError::UnknownAddressType(x)),
        }
    }

    /// Emit the tag as its wire octet.
    pub fn encode(self) -> (r: u8)
        ensures
            r == self.spec_octet(),
    {
        match self {
            AddressType::IPV4 => 0x01,
            AddressType::FQDN => 0x03,
            AddressType::IPV6 => 0x04,
        }
    }

    /// Read a tag back from its wire octet.
    pub fn decode(x: u8) -> (r: Result<AddressType, ProtocolError>)
        ensures
            r == AddressType::spec_decode(x),
    {
        match x {
            0x01 => Ok(AddressType::IPV4),
            0x03 => Ok(AddressType::FQDN),
            0x04 => Ok(AddressType::IPV6),
            _ => Err(ProtocolError::UnknownAddressType(x)),
        }
    }
}

impl Default for AddressType {
    /// The tag of the conventional failure-reply address, which is a
    /// V4 address.
    fn default() -> (r: AddressType)
        ensures
            r == AddressType::IPV4,
    {
        AddressType::IPV4
    }
}

/// Decoding the octet a tag encodes to yields the tag again.
pub proof fn lemma_address_type_decode_encode(v: AddressType)
    ensures
        AddressType::spec_decode(v.spec_octet()) == Ok::<AddressType, ProtocolError>(v),
{
}

/// Encoding the tag an octet decodes to yields the octet again.
pub proof fn lemma_address_type_encode_decode(x: u8)
    requires
        AddressType::spec_decode(x) is Ok,
    ensures
        AddressType::spec_decode(x)->Ok_0.spec_octet() == x,
{
}

} // verus!
