//! The version/method-selection message that opens every SOCKS5
//! session (RFC 1928): `VER | NMETHODS | METHODS`.

use vstd::prelude::*;

use crate::error::ProtocolError;
use crate::protocol::method::AuthMethod;

verus! {

/// The client's greeting: the ordered list of authentication methods it
/// offers, 1 to 255 of them.
#[derive(Debug, Clone)]
pub struct HandshakeRequest {
    methods: Vec<AuthMethod>,
}

impl View for HandshakeRequest {
    type V = Seq<AuthMethod>;

    closed spec fn view(&self) -> Seq<AuthMethod> {
        self.methods@
    }
}

impl HandshakeRequest {
    /// A greeting must offer between 1 and 255 methods: the count is
    /// emitted as a single octet and may not be zero.
    pub open spec fn spec_wf(methods: Seq<AuthMethod>) -> bool {
        1 <= methods.len() <= 255
    }

    /// The wire form: the version octet, the method count, then one
    /// octet per offered method.
    pub open spec fn spec_bytes(methods: Seq<AuthMethod>) -> Seq<u8> {
        seq![crate::SOCKS_VERSION, methods.len() as u8] + Seq::new(
            methods.len(),
            |i: int| methods[i].spec_octet(),
        )
    }

    /// Decode a greeting at `pos`: the version octet, which must be the
    /// SOCKS version, the method count, then that many method octets.
    pub open spec fn spec_decode(bytes: Seq<u8>, pos: int) -> Result<
        (Seq<AuthMethod>, int),
        ProtocolError,
    > {
        if pos + 1 > bytes.len() {
            Err(ProtocolError::ShortRead)
        } else if bytes[pos] != crate::SOCKS_VERSION {
            Err(ProtocolError::UnsupportedVersion(bytes[pos]))
        } else if pos + 2 > bytes.len() {
            Err(ProtocolError::ShortRead)
        } else if pos + 2 + bytes[pos + 1] > bytes.len() {
            Err(ProtocolError::ShortRead)
        } else {
            Ok(
                (
                    Seq::new(
                        bytes[pos + 1] as nat,
                        |i: int| AuthMethod::spec_decode(bytes[pos + 2 + i]),
                    ),
                    pos + 2 + bytes[pos + 1],
                ),
            )
        }
    }

    /// Wrap an offered-method list.
    pub fn new(methods: Vec<AuthMethod>) -> (r: HandshakeRequest)
        ensures
            r@ == methods@,
    {
        HandshakeRequest { methods }
    }

    /// The offered methods, in the order they were offered.
    pub fn methods(&self) -> (r: Vec<AuthMethod>)
        ensures
            r@ == self@,
    {
        let mut out: Vec<AuthMethod> = Vec::new();
        let mut i: usize = 0;
        while i < self.methods.len()
            invariant
                i <= self.methods@.len(),
                out@ == self.methods@.subrange(0, i as int),
            decreases self.methods@.len() - i,
        {
            out.push(self.methods[i]);
            i = i + 1;
            proof {
                assert(out@ =~= self.methods@.subrange(0, i as int));
            }
        }
        proof {
            assert(out@ =~= self.methods@);
        }
        out
    }

    /// Serialize the greeting: `VER | NMETHODS | METHODS`.
    pub fn as_bytes(&self) -> (r: Vec<u8>)
        requires
            HandshakeRequest::spec_wf(self@),
        ensures
            r@ == HandshakeRequest::spec_bytes(self@),
    {
        let mut ret: Vec<u8> = Vec::new();
        ret.push(crate::SOCKS_VERSION);
        ret.push(self.methods.len() as u8);
        let mut i: usize = 0;
        while i < self.methods.len()
            invariant
                i <= self.methods@.len(),
                self.methods@.len() <= 255,
                ret@ == seq![crate::SOCKS_VERSION, (self.methods@.len() as u8)] + Seq::new(
                    i as nat,
                    |j: int| self.methods@[j].spec_octet(),
                ),
            decreases self.methods@.len() - i,
        {
            ret.push(self.methods[i].encode());
            i = i + 1;
            proof {
                assert(ret@ =~= seq![crate::SOCKS_VERSION, (self.methods@.len() as u8)]
                    + Seq::new(i as nat, |j: int| self.methods@[j].spec_octet()));
            }
        }
        ret
    }

    /// Decode a greeting at `pos`.
    pub fn from_socks_bytes(buf: &Vec<u8>, pos: usize) -> (r: Result<
        (HandshakeRequest, usize),
        ProtocolError,
    >)
        ensures
            match r {
                Ok((m, end)) => HandshakeRequest::spec_decode(buf@, pos as int) == Ok::<
                    _,
                    ProtocolError,
                >((m@, end as int)),
                Err(e) => HandshakeRequest::spec_decode(buf@, pos as int) == Err::<
                    (Seq<AuthMethod>, int),
                    _,
                >(e),
            },
    {
        if buf.len() < 1 || pos > buf.len() - 1 {
            return Err(ProtocolError::ShortRead);
        }
        let ver = buf[pos];
        if ver != crate::SOCKS_VERSION {
            return Err(ProtocolError::UnsupportedVersion(ver));
        }
        if buf.len() < 2 || pos > buf.len() - 2 {
            return Err(ProtocolError::ShortRead);
        }
        let n = buf[pos + 1] as usize;
        if buf.len() < n + 2 || pos > buf.len() - n - 2 {
            return Err(ProtocolError::ShortRead);
        }
        let mut methods: Vec<AuthMethod> = Vec::new();
        let mut i: usize = 0;
        proof {
            assert(buf@.len() <= usize::MAX);
        }
        while i < n
            invariant
                i <= n,
                pos + 2 + n <= buf@.len(),
                buf@.len() <= usize::MAX,
                methods@.len() == i,
                forall|j: int|
                    0 <= j < i ==> methods@[j] == AuthMethod::spec_decode(buf@[pos + 2 + j]),
            decreases n - i,
        {
            methods.push(AuthMethod::decode(buf[pos + 2 + i]));
            i = i + 1;
        }
        proof {
            assert(methods@ =~= Seq::new(
                buf@[pos + 1] as nat,
                |i: int| AuthMethod::spec_decode(buf@[pos + 2 + i]),
            ));
        }
        Ok((HandshakeRequest { methods }, pos + 2 + n))
    }
}

/// Decoding a serialized greeting out of any enclosing buffer yields the
/// offered methods again, and consumes exactly the serialized length.
pub proof fn lemma_handshake_request_round_trip(methods: Seq<AuthMethod>, bytes: Seq<u8>, pos: int)
    requires
        HandshakeRequest::spec_wf(methods),
        0 <= pos,
        pos + 2 + methods.len() <= bytes.len(),
        bytes.subrange(pos, pos + 2 + methods.len()) == HandshakeRequest::spec_bytes(methods),
    ensures
        HandshakeRequest::spec_decode(bytes, pos) == Ok::<_, ProtocolError>(
            (methods, pos + 2 + methods.len()),
        ),
{
    let n = methods.len() as int;
    let sub = bytes.subrange(pos, pos + 2 + n);
    assert(sub[0] == crate::SOCKS_VERSION);
    assert(bytes[pos] == sub[0]);
    assert(sub[1] == n as u8);
    assert(bytes[pos + 1] == sub[1]);
    assert(bytes[pos + 1] as int == n);
    assert forall|i: int| 0 <= i < n implies AuthMethod::spec_decode(bytes[pos + 2 + i])
        == methods[i] by {
        assert(bytes[pos + 2 + i] == sub[2 + i]);
        assert(sub[2 + i] == methods[i].spec_octet());
        crate::protocol::method::lemma_auth_method_decode_encode(methods[i]);
    }
    assert(Seq::new(bytes[pos + 1] as nat, |i: int| AuthMethod::spec_decode(bytes[pos + 2 + i]))
        =~= methods);
}

} // verus!
