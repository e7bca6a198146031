//! The SOCKS5 reply PDU (RFC 1928):
//! `VER | REP | RSV | ATYP | BND.ADDR | BND.PORT`.

use vstd::prelude::*;

use crate::error::ProtocolError;
use crate::protocol::addr::Address;
use crate::protocol::addr::AddressView;
use crate::protocol::atyp::AddressType;
use crate::protocol::rep::ReplyField;

verus! {

/// The mathematical value of a [`ReplyResponse`]. The address-type tag
/// is not stored: it is derived from the address when emitting.
pub struct ReplyResponseView {
    pub rep: ReplyField,
    pub addr: AddressView,
}

/// The server's answer to a request: a status code point and the bound
/// address it reports. On failure the address is conventionally the
/// unspecified `0.0.0.0:0`.
#[derive(Debug, Clone)]
pub struct ReplyResponse {
    rep: ReplyField,
    addr: Address,
}

impl View for ReplyResponse {
    type V = ReplyResponseView;

    closed spec fn view(&self) -> ReplyResponseView {
        ReplyResponseView { rep: self.rep, addr: self.addr@ }
    }
}

impl ReplyResponse {
    /// The carried address must obey its own invariant.
    pub open spec fn spec_wf(v: ReplyResponseView) -> bool {
        v.addr.wf()
    }

    /// The wire form: the four header octets (the tag derived from the
    /// address), then the address triple.
    pub open spec fn spec_bytes(v: ReplyResponseView) -> Seq<u8> {
        seq![
            crate::SOCKS_VERSION,
            v.rep.spec_octet(),
            crate::RSV_RESERVED,
            v.addr.spec_atyp().spec_octet(),
        ] + v.addr.spec_socks_bytes()
    }

    /// The serialized length: four header octets plus the address.
    pub open spec fn spec_len(v: ReplyResponseView) -> int {
        4 + v.addr.spec_len()
    }

    /// Decode a reply at `pos`: version, reply octet (total), reserved
    /// octet (which must be zero), address type, then the address.
    pub open spec fn spec_decode(bytes: Seq<u8>, pos: int) -> Result<
        (ReplyResponseView, int),
        ProtocolError,
    > {
        if pos + 1 > bytes.len() {
            Err(ProtocolError::ShortRead)
        } else if bytes[pos] != crate::SOCKS_VERSION {
            Err(ProtocolError::UnsupportedVersion(bytes[pos]))
        } else if pos + 3 > bytes.len() {
            Err(ProtocolError::ShortRead)
        } else if bytes[pos + 2] != crate::RSV_RESERVED {
            Err(ProtocolError::ReservedNonZero(bytes[pos + 2]))
        } else if pos + 4 > bytes.len() {
            Err(ProtocolError::ShortRead)
        } else {
            match AddressType::spec_decode(bytes[pos + 3]) {
                Err(e) => Err(e),
                Ok(atyp) => match AddressView::spec_decode(bytes, pos + 4, atyp) {
                    Err(e) => Err(e),
                    Ok((addr, end)) => Ok(
                        (ReplyResponseView { rep: ReplyField::spec_decode(bytes[pos + 1]), addr },
                        end),
                    ),
                },
            }
        }
    }

    /// Wrap a reply code point and a bound address.
    pub fn new(rep: ReplyField, addr: Address) -> (r: ReplyResponse)
        ensures
            r@ == (ReplyResponseView { rep, addr: addr@ }),
    {
        ReplyResponse { rep, addr }
    }

    /// The reply code point.
    pub fn rep(&self) -> (r: ReplyField)
        ensures
            r == self@.rep,
    {
        self.rep
    }

    /// The address-type tag of the carried address.
    pub fn atyp(&self) -> (r: AddressType)
        ensures
            r == self@.addr.spec_atyp(),
    {
        self.addr.atyp()
    }

    /// The bound address.
    pub fn addr(&self) -> (r: Address)
        ensures
            r@ == self@.addr,
    {
        self.addr.clone()
    }

    /// Serialize the reply.
    pub fn as_bytes(&self) -> (r: Vec<u8>)
        requires
            ReplyResponse::spec_wf(self@),
        ensures
            r@ == ReplyResponse::spec_bytes(self@),
    {
        let mut ret: Vec<u8> = Vec::new();
        ret.push(crate::SOCKS_VERSION);
        ret.push(self.rep.encode());
        ret.push(crate::RSV_RESERVED);
        ret.push(self.addr.atyp().encode());
        let mut addr_bytes = self.addr.as_socks_bytes();
        ret.append(&mut addr_bytes);
        proof {
            assert(ret@ =~= ReplyResponse::spec_bytes(self@));
        }
        ret
    }

    /// Decode a reply at `pos`.
    pub fn from_socks_bytes(buf: &Vec<u8>, pos: usize) -> (r: Result<
        (ReplyResponse, usize),
        ProtocolError,
    >)
        ensures
            match r {
                Ok((m, end)) => ReplyResponse::spec_decode(buf@, pos as int) == Ok::<
                    _,
                    ProtocolError,
                >((m@, end as int)),
                Err(e) => ReplyResponse::spec_decode(buf@, pos as int) == Err::<
                    (ReplyResponseView, int),
                    _,
                >(e),
            },
    {
        if buf.len() < 1 || pos > buf.len() - 1 {
            return Err(ProtocolError::ShortRead);
        }
        let ver = buf[pos];
        if ver != crate::SOCKS_VERSION {
            return Err(ProtocolError::UnsupportedVersion(ver));
        }
        if buf.len() < 3 || pos > buf.len() - 3 {
            return Err(ProtocolError::ShortRead);
        }
        let rep = ReplyField::decode(buf[pos + 1]);
        let rsv = buf[pos + 2];
        if rsv != crate::RSV_RESERVED {
            return Err(ProtocolError::ReservedNonZero(rsv));
        }
        if buf.len() < 4 || pos > buf.len() - 4 {
            return Err(ProtocolError::ShortRead);
        }
        let atyp = match AddressType::decode(buf[pos + 3]) {
            Err(e) => {
                return Err(e);
            },
            Ok(a) => a,
        };
        match Address::from_socks_bytes(buf, pos + 4, atyp) {
            Err(e) => Err(e),
            Ok((addr, end)) => Ok((ReplyResponse { rep, addr }, end)),
        }
    }
}

/// Decoding a serialized reply out of any enclosing buffer yields the
/// reply again, and consumes exactly its serialized length.
pub proof fn lemma_reply_response_round_trip(v: ReplyResponseView, bytes: Seq<u8>, pos: int)
    requires
        ReplyResponse::spec_wf(v),
        0 <= pos,
        pos + ReplyResponse::spec_len(v) <= bytes.len(),
        bytes.subrange(pos, pos + ReplyResponse::spec_len(v)) == ReplyResponse::spec_bytes(v),
    ensures
        ReplyResponse::spec_decode(bytes, pos) == Ok::<_, ProtocolError>(
            (v, pos + ReplyResponse::spec_len(v)),
        ),
{
    let sub = bytes.subrange(pos, pos + ReplyResponse::spec_len(v));
    assert(sub[0] == crate::SOCKS_VERSION);
    assert(bytes[pos] == sub[0]);
    assert(sub[1] == v.rep.spec_octet());
    assert(bytes[pos + 1] == sub[1]);
    crate::protocol::rep::lemma_reply_field_decode_encode(v.rep);
    assert(sub[2] == crate::RSV_RESERVED);
    assert(bytes[pos + 2] == sub[2]);
    assert(sub[3] == v.addr.spec_atyp().spec_octet());
    assert(bytes[pos + 3] == sub[3]);
    crate::protocol::atyp::lemma_address_type_decode_encode(v.addr.spec_atyp());
    assert forall|k: int| 0 <= k < v.addr.spec_len() implies bytes[pos + 4 + k]
        == v.addr.spec_socks_bytes()[k] by {
        assert(bytes[pos + 4 + k] == sub[4 + k]);
        assert(sub[4 + k] == v.addr.spec_socks_bytes()[k]);
    }
    assert(bytes.subrange(pos + 4, pos + 4 + v.addr.spec_len()) =~= v.addr.spec_socks_bytes());
    crate::protocol::addr::lemma_address_round_trip(v.addr, bytes, pos + 4);
}

} // verus!
