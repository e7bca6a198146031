//! The UDP request header of RFC 1928: every datagram a client relays
//! carries `RSV | FRAG | ATYP | DST.ADDR | DST.PORT | DATA`.

use vstd::prelude::*;

use crate::error::ProtocolError;
use crate::protocol::addr::Address;
use crate::protocol::addr::AddressView;
use crate::protocol::atyp::AddressType;

verus! {

/// The mathematical value of a [`UdpPacket`].
pub struct UdpPacketView {
    pub frag: u8,
    pub addr: AddressView,
    pub data: Seq<u8>,
}

/// One encapsulated UDP datagram: a fragment number (only zero is ever
/// emitted here), the destination or origin address, and the inner
/// payload. Everything after the address is payload.
#[derive(Debug, Clone)]
pub struct UdpPacket {
    frag: u8,
    addr: Address,
    data: Vec<u8>,
}

impl View for UdpPacket {
    type V = UdpPacketView;

    closed spec fn view(&self) -> UdpPacketView {
        UdpPacketView { frag: self.frag, addr: self.addr@, data: self.data@ }
    }
}

impl UdpPacket {
    /// The carried address must obey its own invariant.
    pub open spec fn spec_wf(v: UdpPacketView) -> bool {
        v.addr.wf()
    }

    /// The wire form: two zero reserved octets, the fragment number,
    /// the address-type tag, the address triple, then the payload.
    pub open spec fn spec_bytes(v: UdpPacketView) -> Seq<u8> {
        seq![0u8, 0u8, v.frag, v.addr.spec_atyp().spec_octet()] + v.addr.spec_socks_bytes()
            + v.data
    }

    /// Decode a whole datagram. A datagram of at most four octets is a
    /// `ShortDatagram`; the reserved octets are read but, as in the
    /// relay this header serves, not checked. Everything after the
    /// address is the payload.
    pub open spec fn spec_decode(bytes: Seq<u8>) -> Result<UdpPacketView, ProtocolError> {
        if bytes.len() <= 4 {
            Err(ProtocolError::ShortDatagram)
        } else {
            match AddressType::spec_decode(bytes[3]) {
                Err(e) => Err(e),
                Ok(atyp) => match AddressView::spec_decode(bytes, 4, atyp) {
                    Err(e) => Err(e),
                    Ok((addr, end)) => Ok(
                        UdpPacketView {
                            frag: bytes[2],
                            addr,
                            data: bytes.subrange(end, bytes.len() as int),
                        },
                    ),
                },
            }
        }
    }

    /// Wrap a fragment number, destination and payload.
    pub fn new(frag: u8, addr: Address, data: Vec<u8>) -> (r: UdpPacket)
        ensures
            r@ == (UdpPacketView { frag, addr: addr@, data: data@ }),
    {
        UdpPacket { frag, addr, data }
    }

    /// The fragment number.
    pub fn frag(&self) -> (r: u8)
        ensures
            r == self@.frag,
    {
        self.frag
    }

    /// The carried address.
    pub fn addr(&self) -> (r: Address)
        ensures
            r@ == self@.addr,
    {
        self.addr.clone()
    }

    /// The inner payload.
    pub fn data(&self) -> (r: Vec<u8>)
        ensures
            r@ == self@.data,
    {
        let mut out: Vec<u8> = Vec::new();
        let mut i: usize = 0;
        while i < self.data.len()
            invariant
                i <= self.data@.len(),
                out@ == self.data@.subrange(0, i as int),
            decreases self.data@.len() - i,
        {
            out.push(self.data[i]);
            i = i + 1;
            proof {
                assert(out@ =~= self.data@.subrange(0, i as int));
            }
        }
        proof {
            assert(out@ =~= self.data@);
        }
        out
    }

    /// Serialize the datagram.
    pub fn as_socks_bytes(&self) -> (r: Vec<u8>)
        requires
            UdpPacket::spec_wf(self@),
        ensures
            r@ == UdpPacket::spec_bytes(self@),
    {
        let mut ret: Vec<u8> = Vec::new();
        ret.push(0u8);
        ret.push(0u8);
        ret.push(self.frag);
        ret.push(self.addr.atyp().encode());
        let mut addr_bytes = self.addr.as_socks_bytes();
        ret.append(&mut addr_bytes);
        let ghost head = ret@;
        let mut i: usize = 0;
        while i < self.data.len()
            invariant
                i <= self.data@.len(),
                ret@ == head + self.data@.subrange(0, i as int),
            decreases self.data@.len() - i,
        {
            ret.push(self.data[i]);
            i = i + 1;
            proof {
                assert(ret@ =~= head + self.data@.subrange(0, i as int));
            }
        }
        proof {
            assert(ret@ =~= UdpPacket::spec_bytes(self@));
        }
        ret
    }

    /// Decode a whole received datagram.
    pub fn from_socks_bytes(datagram: &Vec<u8>) -> (r: Result<UdpPacket, ProtocolError>)
        ensures
            match r {
                Ok(m) => UdpPacket::spec_decode(datagram@) == Ok::<_, ProtocolError>(m@),
                Err(e) => UdpPacket::spec_decode(datagram@) == Err::<UdpPacketView, _>(e),
            },
    {
        if datagram.len() <= 4 {
            return Err(ProtocolError::ShortDatagram);
        }
        let frag = datagram[2];
        let atyp = match AddressType::decode(datagram[3]) {
            Err(e) => {
                return Err(e);
            },
            Ok(a) => a,
        };
        let (addr, end) = match Address::from_socks_bytes(datagram, 4, atyp) {
            Err(e) => {
                return Err(e);
            },
            Ok(x) => x,
        };
        let mut data: Vec<u8> = Vec::new();
        let mut i: usize = end;
        while i < datagram.len()
            invariant
                end <= i <= datagram@.len(),
                data@ == datagram@.subrange(end as int, i as int),
            decreases datagram@.len() - i,
        {
            data.push(datagram[i]);
            i = i + 1;
            proof {
                assert(data@ =~= datagram@.subrange(end as int, i as int));
            }
        }
        Ok(UdpPacket { frag, addr, data })
    }
}

/// Decoding a serialized datagram yields the packet again: the fragment
/// number, the address and the payload all come back unchanged.
pub proof fn lemma_udp_packet_round_trip(v: UdpPacketView)
    requires
        UdpPacket::spec_wf(v),
    ensures
        UdpPacket::spec_decode(UdpPacket::spec_bytes(v)) == Ok::<_, ProtocolError>(v),
{
    let bytes = UdpPacket::spec_bytes(v);
    let alen = v.addr.spec_len();
    crate::protocol::addr::lemma_address_serialized_len(v.addr);
    assert(bytes.len() == 4 + alen + v.data.len());
    assert(alen >= 4) by {
        match v.addr {
            AddressView::IP(..) => {},
            AddressView::Domain(name, _) => {},
        }
    }
    assert(bytes[3] == v.addr.spec_atyp().spec_octet());
    crate::protocol::atyp::lemma_address_type_decode_encode(v.addr.spec_atyp());
    assert forall|k: int| 0 <= k < alen implies bytes[4 + k] == v.addr.spec_socks_bytes()[k] by {}
    assert(bytes.subrange(4, 4 + alen) =~= v.addr.spec_socks_bytes());
    crate::protocol::addr::lemma_address_round_trip(v.addr, bytes, 4);
    assert(bytes[2] == v.frag);
    assert(bytes.subrange(4 + alen, bytes.len() as int) =~= v.data);
}

} // verus!
