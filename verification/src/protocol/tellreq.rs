//! The SOCKS5 request PDU (RFC 1928):
//! `VER | CMD | RSV | ATYP | DST.ADDR | DST.PORT`.

use vstd::prelude::*;

use crate::error::ProtocolError;
use crate::protocol::addr::Address;
use crate::protocol::addr::AddressView;
use crate::protocol::atyp::AddressType;
use crate::protocol::cmd::Command;

verus! {

/// The mathematical value of a [`TellRequest`].
pub struct TellRequestView {
    pub cmd: Command,
    pub atyp: AddressType,
    pub addr: AddressView,
}

/// The request the client sends once negotiation is done: a command and
/// the destination address it applies to.
#[derive(Debug, Clone)]
pub struct TellRequest {
    cmd: Command,
    atyp: AddressType,
    addr: Address,
}

impl View for TellRequest {
    type V = TellRequestView;

    closed spec fn view(&self) -> TellRequestView {
        TellRequestView { cmd: self.cmd, atyp: self.atyp, addr: self.addr@ }
    }
}

impl TellRequest {
    /// The address-type tag must match the shape of the address, and
    /// the address must obey its own invariant.
    pub open spec fn spec_wf(v: TellRequestView) -> bool {
        &&& v.atyp == v.addr.spec_atyp()
        &&& v.addr.wf()
    }

    /// The wire form: the four header octets, then the address triple.
    pub open spec fn spec_bytes(v: TellRequestView) -> Seq<u8> {
        seq![
            crate::SOCKS_VERSION,
            v.cmd.spec_octet(),
            crate::RSV_RESERVED,
            v.atyp.spec_octet(),
        ] + v.addr.spec_socks_bytes()
    }

    /// The serialized length: four header octets plus the address.
    pub open spec fn spec_len(v: TellRequestView) -> int {
        4 + v.addr.spec_len()
    }

    /// Decode a request at `pos`: version, command, reserved octet
    /// (which must be zero), address type, then the address.
    pub open spec fn spec_decode(bytes: Seq<u8>, pos: int) -> Result<
        (TellRequestView, int),
        ProtocolError,
    > {
        if pos + 1 > bytes.len() {
            Err(ProtocolError::ShortRead)
        } else if bytes[pos] != crate::SOCKS_VERSION {
            Err(ProtocolError::UnsupportedVersion(bytes[pos]))
        } else if pos + 2 > bytes.len() {
            Err(ProtocolError::ShortRead)
        } else {
            match Command::spec_decode(bytes[pos + 1]) {
                Err(e) => Err(e),
                Ok(cmd) => if pos + 3 > bytes.len() {
                    Err(ProtocolError::ShortRead)
                } else if bytes[pos + 2] != crate::RSV_RESERVED {
                    Err(ProtocolError::ReservedNonZero(bytes[pos + 2]))
                } else if pos + 4 > bytes.len() {
                    Err(ProtocolError::ShortRead)
                } else {
                    match AddressType::spec_decode(bytes[pos + 3]) {
                        Err(e) => Err(e),
                        Ok(atyp) => match AddressView::spec_decode(bytes, pos + 4, atyp) {
                            Err(e) => Err(e),
                            Ok((addr, end)) => Ok((TellRequestView { cmd, atyp, addr }, end)),
                        },
                    }
                },
            }
        }
    }

    /// Wrap a command, tag and destination.
    pub fn new(cmd: Command, atyp: AddressType, addr: Address) -> (r: TellRequest)
        ensures
            r@ == (TellRequestView { cmd, atyp, addr: addr@ }),
    {
        TellRequest { cmd, atyp, addr }
    }

    /// The command.
    pub fn cmd(&self) -> (r: Command)
        ensures
            r == self@.cmd,
    {
        self.cmd
    }

    /// The address-type tag.
    pub fn atyp(&self) -> (r: AddressType)
        ensures
            r == self@.atyp,
    {
        self.atyp
    }

    /// The destination address.
    pub fn addr(&self) -> (r: Address)
        ensures
            r@ == self@.addr,
    {
        self.addr.clone()
    }

    /// Serialize the request.
    pub fn as_bytes(&self) -> (r: Vec<u8>)
        requires
            TellRequest::spec_wf(self@),
        ensures
            r@ == TellRequest::spec_bytes(self@),
    {
        let mut ret: Vec<u8> = Vec::new();
        ret.push(crate::SOCKS_VERSION);
        ret.push(self.cmd.encode());
        ret.push(crate::RSV_RESERVED);
        ret.push(self.atyp.encode());
        let mut addr_bytes = self.addr.as_socks_bytes();
        ret.append(&mut addr_bytes);
        proof {
            assert(ret@ =~= TellRequest::spec_bytes(self@));
        }
        ret
    }

    /// Decode a request at `pos`.
    pub fn from_socks_bytes(buf: &Vec<u8>, pos: usize) -> (r: Result<
        (TellRequest, usize),
        ProtocolError,
    >)
        ensures
            match r {
                Ok((m, end)) => TellRequest::spec_decode(buf@, pos as int) == Ok::<
                    _,
                    ProtocolError,
                >((m@, end as int)),
                Err(e) => TellRequest::spec_decode(buf@, pos as int) == Err::<
                    (TellRequestView, int),
                    _,
                >(e),
            },
    {
        if buf.len() < 1 || pos > buf.len() - 1 {
            return Err(ProtocolError::ShortRead);
        }
        let ver = buf[pos];
        if ver != crate::SOCKS_VERSION {
            return Err(ProtocolError::UnsupportedVersion(ver));
        }
        if buf.len() < 2 || pos > buf.len() - 2 {
            return Err(ProtocolError::ShortRead);
        }
        let cmd = match Command::decode(buf[pos + 1]) {
            Err(e) => {
                return Err(e);
            },
            Ok(c) => c,
        };
        if buf.len() < 3 || pos > buf.len() - 3 {
            return Err(ProtocolError::ShortRead);
        }
        let rsv = buf[pos + 2];
        if rsv != crate::RSV_RESERVED {
            return Err(ProtocolError::ReservedNonZero(rsv));
        }
        if buf.len() < 4 || pos > buf.len() - 4 {
            return Err(ProtocolError::ShortRead);
        }
        let atyp = match AddressType::decode(buf[pos + 3]) {
            Err(e) => {
                return Err(e);
            },
            Ok(a) => a,
        };
        match Address::from_socks_bytes(buf, pos + 4, atyp) {
            Err(e) => Err(e),
            Ok((addr, end)) => Ok((TellRequest { cmd, atyp, addr }, end)),
        }
    }
}

/// Decoding a serialized request out of any enclosing buffer yields the
/// request again, and consumes exactly its serialized length.
pub proof fn lemma_tell_request_round_trip(v: TellRequestView, bytes: Seq<u8>, pos: int)
    requires
        TellRequest::spec_wf(v),
        0 <= pos,
        pos + TellRequest::spec_len(v) <= bytes.len(),
        bytes.subrange(pos, pos + TellRequest::spec_len(v)) == TellRequest::spec_bytes(v),
    ensures
        TellRequest::spec_decode(bytes, pos) == Ok::<_, ProtocolError>(
            (v, pos + TellRequest::spec_len(v)),
        ),
{
    let sub = bytes.subrange(pos, pos + TellRequest::spec_len(v));
    assert(sub[0] == crate::SOCKS_VERSION);
    assert(bytes[pos] == sub[0]);
    assert(sub[1] == v.cmd.spec_octet());
    assert(bytes[pos + 1] == sub[1]);
    crate::protocol::cmd::lemma_command_decode_encode(v.cmd);
    assert(sub[2] == crate::RSV_RESERVED);
    assert(bytes[pos + 2] == sub[2]);
    assert(sub[3] == v.atyp.spec_octet());
    assert(bytes[pos + 3] == sub[3]);
    crate::protocol::atyp::lemma_address_type_decode_encode(v.atyp);
    assert forall|k: int| 0 <= k < v.addr.spec_len() implies bytes[pos + 4 + k]
        == v.addr.spec_socks_bytes()[k] by {
        assert(bytes[pos + 4 + k] == sub[4 + k]);
        assert(sub[4 + k] == v.addr.spec_socks_bytes()[k]);
    }
    assert(bytes.subrange(pos + 4, pos + 4 + v.addr.spec_len()) =~= v.addr.spec_socks_bytes());
    crate::protocol::addr::lemma_address_round_trip(v.addr, bytes, pos + 4);
}

} // verus!
