//! The METHOD code points of RFC 1928: how client and server agree on
//! authentication.

use vstd::prelude::*;

verus! {

/// An authentication method octet. Decoding is total over all 256
/// octets: the two IANA ranges collapse onto one variant each.
#[derive(Debug, Clone, Copy, PartialEq, Eq, Structural)]
pub enum AuthMethod {
    /// `0x00` NO AUTHENTICATION REQUIRED
    NoAuthenticationRequired,
    /// `0x01` GSSAPI
    GSSApi,
    /// `0x02` USERNAME/PASSWORD
    UsernameOrPassword,
    /// `0x03` to `0x7F` IANA ASSIGNED
    IANAAssigned,
    /// `0x80` to `0xFE` RESERVED FOR PRIVATE METHODS
    ReservedForPrivateMethods,
    /// `0xFF` NO ACCEPTABLE METHODS
    NoAcceptableMethods,
}

impl AuthMethod {
    /// The octet emitted for this method; a range variant emits the
    /// first octet of its range.
    pub open spec fn spec_octet(self) -> u8 {
        match self {
            AuthMethod::NoAuthenticationRequired => 0x00,
            AuthMethod::GSSApi => 0x01,
            AuthMethod::UsernameOrPassword => 0x02,
            AuthMethod::IANAAssigned => 0x03,
            AuthMethod::ReservedForPrivateMethods => 0x80,
            AuthMethod::NoAcceptableMethods => 0xff,
        }
    }

    /// The method any octet stands for; total.
    pub open spec fn spec_decode(x: u8) -> AuthMethod {
        if x == 0x00 {
            AuthMethod::NoAuthenticationRequired
        } else if x == 0x01 {
            AuthMethod::GSSApi
        } else if x == 0x02 {
            AuthMethod::UsernameOrPassword
        } else if x <= 0x7f {
            AuthMethod::IANAAssigned
        } else if x <= 0xfe {
            AuthMethod::ReservedForPrivateMethods
        } else {
            AuthMethod::NoAcceptableMethods
        }
    }

    /// Emit the method as its wire octet.
    pub fn encode(self) -> (r: u8)
        ensures
            r == self.spec_octet(),
    {
        match self {
            AuthMethod::NoAuthenticationRequired => 0x00,
            AuthMethod::GSSApi => 0x01,
            AuthMethod::UsernameOrPassword => 0x02,
            AuthMethod::IANAAssigned => 0x03,
            AuthMethod::ReservedForPrivateMethods => 0x80,
            AuthMethod::NoAcceptableMethods => 0xff,
        }
    }

    /// Read the method an octet stands for.
    pub fn decode(x: u8) -> (r: AuthMethod)
        ensures
            r == AuthMethod::spec_decode(x),
    {
        if x == 0x00 {
            AuthMethod::NoAuthenticationRequired
        } else if x == 0x01 {
            AuthMethod::GSSApi
        } else if x == 0x02 {
            AuthMethod::UsernameOrPassword
        } else if x <= 0x7f {
            AuthMethod::IANAAssigned
        } else if x <= 0xfe {
            AuthMethod::ReservedForPrivateMethods
        } else {
            AuthMethod::NoAcceptableMethods
        }
    }
}

/// Decoding the octet a method encodes to yields the method again.
pub proof fn lemma_auth_method_decode_encode(v: AuthMethod)
    ensures
        AuthMethod::spec_decode(v.spec_octet()) == v,
{
}

/// Encoding the method an octet decodes to yields the octet again, for
/// the six octets that name a method exactly; an octet from inside an
/// IANA or private range decodes to the range's variant, which encodes
/// back to the first octet of the range.
pub proof fn lemma_auth_method_encode_decode(x: u8)
    requires
        x == 0x00 || x == 0x01 || x == 0x02 || x == 0x03 || x == 0x80 || x == 0xff,
    ensures
        AuthMethod::spec_decode(x).spec_octet() == x,
{
}

} // verus!
