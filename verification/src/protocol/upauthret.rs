//! The status message that closes the RFC 1929 subnegotiation.

use vstd::prelude::*;

verus! {

/// The server's verdict on the supplied username and password. A status
/// octet of zero is success; every other octet is a failure, after which
/// the server closes the connection.
#[derive(Debug, Clone, Copy, PartialEq, Eq, Structural)]
pub enum UsernamePasswordAuthResult {
    Succeeded,
    Failure,
}

impl UsernamePasswordAuthResult {
    /// The status octet emitted for this verdict; a failure emits `0x01`.
    pub open spec fn spec_octet(self) -> u8 {
        match self {
            UsernamePasswordAuthResult::Succeeded => 0x00,
            UsernamePasswordAuthResult::Failure => 0x01,
        }
    }

    /// The verdict any status octet stands for; total.
    pub open spec fn spec_decode(x: u8) -> UsernamePasswordAuthResult {
        if x == 0x00 {
            UsernamePasswordAuthResult::Succeeded
        } else {
            UsernamePasswordAuthResult::Failure
        }
    }

    /// The two octets of the message on the wire: the subnegotiation
    /// version, then the status.
    pub open spec fn spec_bytes(self) -> Seq<u8> {
        seq![crate::AUTH_VERSION, self.spec_octet()]
    }

    /// Emit the verdict as its status octet.
    pub fn encode(self) -> (r: u8)
        ensures
            r == self.spec_octet(),
    {
        match self {
            UsernamePasswordAuthResult::Succeeded => 0x00,
            UsernamePasswordAuthResult::Failure => 0x01,
        }
    }

    /// Read the verdict a status octet stands for.
    pub fn decode(x: u8) -> (r: UsernamePasswordAuthResult)
        ensures
            r == UsernamePasswordAuthResult::spec_decode(x),
    {
        if x == 0x00 {
            UsernamePasswordAuthResult::Succeeded
        } else {
            UsernamePasswordAuthResult::Failure
        }
    }

    /// Serialize the whole message: `VER | STATUS`.
    pub fn as_bytes(&self) -> (r: Vec<u8>)
        ensures
            r@ == self.spec_bytes(),
    {
        let mut ret: Vec<u8> = Vec::new();
        ret.push(crate::AUTH_VERSION);
        ret.push(self.encode());
        proof {
            assert(ret@ =~= self.spec_bytes());
        }
        ret
    }

    /// Decode a whole message at `pos`: the version octet, which must
    /// be the subnegotiation version, then the status octet.
    pub open spec fn spec_decode_bytes(bytes: Seq<u8>, pos: int) -> Result<
        (UsernamePasswordAuthResult, int),
        crate::error::ProtocolError,
    > {
        if pos + 1 > bytes.len() {
            Err(crate::error::ProtocolError::ShortRead)
        } else if bytes[pos] != crate::AUTH_VERSION {
            Err(crate::error::ProtocolError::UnsupportedVersion(bytes[pos]))
        } else if pos + 2 > bytes.len() {
            Err(crate::error::ProtocolError::ShortRead)
        } else {
            Ok((UsernamePasswordAuthResult::spec_decode(bytes[pos + 1]), pos + 2))
        }
    }

    /// Decode the whole message at `pos`.
    pub fn from_socks_bytes(buf: &Vec<u8>, pos: usize) -> (r: Result<
        (UsernamePasswordAuthResult, usize),
        crate::error::ProtocolError,
    >)
        ensures
            match r {
                Ok((m, end)) => UsernamePasswordAuthResult::spec_decode_bytes(buf@, pos as int)
                    == Ok::<_, crate::error::ProtocolError>((m, end as int)),
                Err(e) => UsernamePasswordAuthResult::spec_decode_bytes(buf@, pos as int)
                    == Err::<(UsernamePasswordAuthResult, int), _>(e),
            },
    {
        if buf.len() < 1 || buf.len() - 1 < pos {
            return Err(crate::error::ProtocolError::ShortRead);
        }
        let ver = buf[pos];
        if ver != crate::AUTH_VERSION {
            return Err(crate::error::ProtocolError::UnsupportedVersion(ver));
        }
        if buf.len() < 2 || buf.len() - 2 < pos {
            return Err(crate::error::ProtocolError::ShortRead);
        }
        Ok((UsernamePasswordAuthResult::decode(buf[pos + 1]), pos + 2))
    }
}

/// Decoding the octet a verdict encodes to yields the verdict again.
pub proof fn lemma_auth_result_decode_encode(v: UsernamePasswordAuthResult)
    ensures
        UsernamePasswordAuthResult::spec_decode(v.spec_octet()) == v,
{
}

/// Decoding a serialized verdict out of any enclosing buffer yields
/// the verdict again, and consumes exactly its two octets.
pub proof fn lemma_auth_result_round_trip(v: UsernamePasswordAuthResult, bytes: Seq<u8>, pos: int)
    requires
        0 <= pos,
        pos + 2 <= bytes.len(),
        bytes.subrange(pos, pos + 2) == v.spec_bytes(),
    ensures
        UsernamePasswordAuthResult::spec_decode_bytes(bytes, pos) == Ok::<
            _,
            crate::error::ProtocolError,
        >((v, pos + 2)),
{
    let sub = bytes.subrange(pos, pos + 2);
    assert(bytes[pos] == sub[0]);
    assert(bytes[pos + 1] == sub[1]);
    lemma_auth_result_decode_encode(v);
}

} // verus!
