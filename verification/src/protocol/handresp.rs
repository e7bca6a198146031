//! The method-selection reply of RFC 1928: `VER | METHOD`.

use vstd::prelude::*;

use crate::error::ProtocolError;
use crate::protocol::method::AuthMethod;

verus! {

/// The server's answer to the greeting: the one method it selected, or
/// `NoAcceptableMethods`, after which the client must close.
#[derive(Debug, Clone)]
pub struct HandshakeResponse {
    method: AuthMethod,
}

impl View for HandshakeResponse {
    type V = AuthMethod;

    closed spec fn view(&self) -> AuthMethod {
        self.method
    }
}

impl HandshakeResponse {
    /// The wire form: the version octet, then the selected method.
    pub open spec fn spec_bytes(method: AuthMethod) -> Seq<u8> {
        seq![crate::SOCKS_VERSION, method.spec_octet()]
    }

    /// Decode a method selection at `pos`: the version octet, which
    /// must be the SOCKS version, then the method octet.
    pub open spec fn spec_decode(bytes: Seq<u8>, pos: int) -> Result<
        (AuthMethod, int),
        ProtocolError,
    > {
        if pos + 1 > bytes.len() {
            Err(ProtocolError::ShortRead)
        } else if bytes[pos] != crate::SOCKS_VERSION {
            Err(ProtocolError::UnsupportedVersion(bytes[pos]))
        } else if pos + 2 > bytes.len() {
            Err(ProtocolError::ShortRead)
        } else {
            Ok((AuthMethod::spec_decode(bytes[pos + 1]), pos + 2))
        }
    }

    /// Wrap a selected method.
    pub fn new(method: AuthMethod) -> (r: HandshakeResponse)
        ensures
            r@ == method,
    {
        HandshakeResponse { method }
    }

    /// The selected method.
    pub fn method(&self) -> (r: AuthMethod)
        ensures
            r == self@,
    {
        self.method
    }

    /// Serialize the reply: `VER | METHOD`.
    pub fn as_bytes(&self) -> (r: Vec<u8>)
        ensures
            r@ == HandshakeResponse::spec_bytes(self@),
    {
        let mut ret: Vec<u8> = Vec::new();
        ret.push(crate::SOCKS_VERSION);
        ret.push(self.method.encode());
        proof {
            assert(ret@ =~= HandshakeResponse::spec_bytes(self@));
        }
        ret
    }

    /// Decode a method selection at `pos`.
    pub fn from_socks_bytes(buf: &Vec<u8>, pos: usize) -> (r: Result<
        (HandshakeResponse, usize),
        ProtocolError,
    >)
        ensures
            match r {
                Ok((m, end)) => HandshakeResponse::spec_decode(buf@, pos as int) == Ok::<
                    _,
                    ProtocolError,
                >((m@, end as int)),
                Err(e) => HandshakeResponse::spec_decode(buf@, pos as int) == Err::<
                    (AuthMethod, int),
                    _,
                >(e),
            },
    {
        if buf.len() < 1 || pos > buf.len() - 1 {
            return Err(ProtocolError::ShortRead);
        }
        let ver = buf[pos];
        if ver != crate::SOCKS_VERSION {
            return Err(ProtocolError::UnsupportedVersion(ver));
        }
        if buf.len() < 2 || pos > buf.len() - 2 {
            return Err(ProtocolError::ShortRead);
        }
        Ok((HandshakeResponse { method: AuthMethod::decode(buf[pos + 1]) }, pos + 2))
    }
}

/// Decoding a serialized method selection yields the method again, for
/// the six octets that name a method exactly; a range variant comes
/// back as itself because its canonical octet decodes to it.
pub proof fn lemma_handshake_response_round_trip(method: AuthMethod, bytes: Seq<u8>, pos: int)
    requires
        0 <= pos,
        pos + 2 <= bytes.len(),
        bytes.subrange(pos, pos + 2) == HandshakeResponse::spec_bytes(method),
    ensures
        HandshakeResponse::spec_decode(bytes, pos) == Ok::<_, ProtocolError>((method, pos + 2)),
{
    let sub = bytes.subrange(pos, pos + 2);
    assert(bytes[pos] == sub[0]);
    assert(bytes[pos + 1] == sub[1]);
    crate::protocol::method::lemma_auth_method_decode_encode(method);
}

} // verus!
