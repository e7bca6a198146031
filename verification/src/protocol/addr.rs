//! The address triple `ADDR | PORT` of RFC 1928, used in every SOCKS5
//! PDU. The ATYP tag itself is read and emitted by the enclosing
//! message, never here.

use vstd::prelude::*;
use vstd::string::StrSliceExecFns;
use vstd::utf8::decode_utf8;
use vstd::utf8::encode_utf8;
use vstd::utf8::encode_utf8_decode_utf8;
use vstd::utf8::encode_utf8_valid_utf8;
use vstd::utf8::valid_utf8;

use crate::error::ProtocolError;
use crate::protocol::atyp::AddressType;
use crate::wire::be_hi;
use crate::wire::be_lo;
use crate::wire::lemma_u16_be_split;
use crate::wire::u16_be;
use crate::wire::u16_from_be;
use crate::wire::u16_hi;
use crate::wire::u16_lo;

verus! {

/// A numeric IP address: four octets, or eight 16-bit groups in
/// network order.
#[derive(Debug, Clone, Copy, PartialEq, Eq, Structural)]
pub enum IpAddress {
    V4(u8, u8, u8, u8),
    V6(u16, u16, u16, u16, u16, u16, u16, u16),
}

impl IpAddress {
    /// The octets of the address body on the wire: four for a V4
    /// address, sixteen for a V6 address (each group most significant
    /// octet first).
    pub open spec fn spec_bytes(self) -> Seq<u8> {
        match self {
            IpAddress::V4(a, b, c, d) => seq![a, b, c, d],
            IpAddress::V6(g0, g1, g2, g3, g4, g5, g6, g7) => seq![
                be_hi(g0),
                be_lo(g0),
                be_hi(g1),
                be_lo(g1),
                be_hi(g2),
                be_lo(g2),
                be_hi(g3),
                be_lo(g3),
                be_hi(g4),
                be_lo(g4),
                be_hi(g5),
                be_lo(g5),
                be_hi(g6),
                be_lo(g6),
                be_hi(g7),
                be_lo(g7),
            ],
        }
    }
}

/// The mathematical value of an [`Address`]: a domain name is the
/// sequence of its characters.
pub enum AddressView {
    IP(IpAddress, u16),
    Domain(Seq<char>, u16),
}

impl AddressView {
    /// The port of the address.
    pub open spec fn spec_port(self) -> u16 {
        match self {
            AddressView::IP(_, port) => port,
            AddressView::Domain(_, port) => port,
        }
    }

    /// The address-type tag this address is emitted under.
    pub open spec fn spec_atyp(self) -> AddressType {
        match self {
            AddressView::IP(IpAddress::V4(..), _) => AddressType::IPV4,
            AddressView::IP(IpAddress::V6(..), _) => AddressType::IPV6,
            AddressView::Domain(..) => AddressType::FQDN,
        }
    }

    /// A domain name occupies 1 to 255 octets of UTF-8; IP addresses
    /// carry no constraint.
    pub open spec fn wf(self) -> bool {
        match self {
            AddressView::IP(..) => true,
            AddressView::Domain(name, _) => 1 <= encode_utf8(name).len() <= 255,
        }
    }

    /// The `ADDR` part of the wire form: the IP octets, or one length
    /// octet followed by the name's UTF-8 octets.
    pub open spec fn spec_body(self) -> Seq<u8> {
        match self {
            AddressView::IP(ip, _) => ip.spec_bytes(),
            AddressView::Domain(name, _) => seq![encode_utf8(name).len() as u8] + encode_utf8(
                name,
            ),
        }
    }

    /// The full wire form `ADDR | PORT`, port most significant octet
    /// first.
    pub open spec fn spec_socks_bytes(self) -> Seq<u8> {
        self.spec_body() + seq![be_hi(self.spec_port()), be_lo(self.spec_port())]
    }

    /// The serialized length: 6 for a V4 address, 18 for a V6 address,
    /// `3 + len(name)` for a domain.
    pub open spec fn spec_len(self) -> int {
        match self {
            AddressView::IP(IpAddress::V4(..), _) => 6,
            AddressView::IP(IpAddress::V6(..), _) => 18,
            AddressView::Domain(name, _) => 3 + encode_utf8(name).len() as int,
        }
    }

    /// Decode an address at `pos`, the ATYP tag already known. An input
    /// that ends before the address does is a `ShortRead`; a domain
    /// name that is not valid UTF-8 is a `BadUtf8Hostname`.
    pub open spec fn spec_decode(bytes: Seq<u8>, pos: int, atyp: AddressType) -> Result<
        (AddressView, int),
        ProtocolError,
    > {
        match atyp {
            AddressType::IPV4 => if pos + 6 <= bytes.len() {
                Ok(
                    (
                        AddressView::IP(
                            IpAddress::V4(
                                bytes[pos],
                                bytes[pos + 1],
                                bytes[pos + 2],
                                bytes[pos + 3],
                            ),
                            u16_be(bytes[pos + 4], bytes[pos + 5]),
                        ),
                        pos + 6,
                    ),
                )
            } else {
                Err(ProtocolError::ShortRead)
            },
            AddressType::IPV6 => if pos + 18 <= bytes.len() {
                Ok(
                    (
                        AddressView::IP(
                            IpAddress::V6(
                                u16_be(bytes[pos], bytes[pos + 1]),
                                u16_be(bytes[pos + 2], bytes[pos + 3]),
                                u16_be(bytes[pos + 4], bytes[pos + 5]),
                                u16_be(bytes[pos + 6], bytes[pos + 7]),
                                u16_be(bytes[pos + 8], bytes[pos + 9]),
                                u16_be(bytes[pos + 10], bytes[pos + 11]),
                                u16_be(bytes[pos + 12], bytes[pos + 13]),
                                u16_be(bytes[pos + 14], bytes[pos + 15]),
                            ),
                            u16_be(bytes[pos + 16], bytes[pos + 17]),
                        ),
                        pos + 18,
                    ),
                )
            } else {
                Err(ProtocolError::ShortRead)
            },
            AddressType::FQDN => if pos + 1 > bytes.len() {
                Err(ProtocolError::ShortRead)
            } else {
                if pos + 3 + bytes[pos] > bytes.len() {
                    Err(ProtocolError::ShortRead)
                } else {
                    if valid_utf8(bytes.subrange(pos + 1, pos + 1 + bytes[pos])) {
                        Ok(
                            (
                                AddressView::Domain(
                                    decode_utf8(bytes.subrange(pos + 1, pos + 1 + bytes[pos])),
                                    u16_be(bytes[pos + 1 + bytes[pos]], bytes[pos + 2 + bytes[pos]]),
                                ),
                                pos + 3 + bytes[pos],
                            ),
                        )
                    } else {
                        Err(ProtocolError::BadUtf8Hostname)
                    }
                }
            },
        }
    }
}

/// A destination or bound address of a SOCKS5 message: a numeric IP
/// address with a port, or a domain name with a port.
#[derive(Debug)]
pub enum Address {
    IP(IpAddress, u16),
    Domain(String, u16),
}

impl View for Address {
    type V = AddressView;

    open spec fn view(&self) -> AddressView {
        match self {
            Address::IP(ip, port) => AddressView::IP(*ip, *port),
            Address::Domain(name, port) => AddressView::Domain(name@, *port),
        }
    }
}

impl PartialEq for Address {
    fn eq(&self, other: &Address) -> (r: bool) {
        match (self, other) {
            (Address::IP(ip, port), Address::IP(oip, oport)) => *ip == *oip && *port == *oport,
            (Address::Domain(name, port), Address::Domain(oname, oport)) => name.eq(oname)
                && *port == *oport,
            _ => false,
        }
    }
}

impl vstd::std_specs::cmp::PartialEqSpecImpl for Address {
    open spec fn obeys_eq_spec() -> bool {
        true
    }

    open spec fn eq_spec(&self, other: &Address) -> bool {
        self@ == other@
    }
}

impl Eq for Address {}

impl Clone for Address {
    /// A clone carries the same mathematical value.
    fn clone(&self) -> (r: Address)
        ensures
            r@ == self@,
    {
        match self {
            Address::IP(ip, port) => Address::IP(*ip, *port),
            Address::Domain(name, port) => Address::Domain(name.clone(), *port),
        }
    }
}

impl Default for Address {
    /// The unspecified V4 address `0.0.0.0:0`, emitted with every
    /// failure reply.
    fn default() -> (r: Address)
        ensures
            r@ == AddressView::IP(IpAddress::V4(0, 0, 0, 0), 0),
    {
        Address::IP(IpAddress::V4(0, 0, 0, 0), 0)
    }
}

/// Relies on `String::from_utf8`: it succeeds exactly on valid UTF-8
/// input, and the returned string's UTF-8 encoding is the input.
#[verifier::external_body]
pub(crate) fn string_from_utf8(v: Vec<u8>) -> (r: Option<String>)
    ensures
        r is Some <==> valid_utf8(v@),
        r matches Some(s) ==> encode_utf8(s@) == v@,
{
    String::from_utf8(v).ok()
}

impl Address {
    /// The port of the address.
    pub fn port(&self) -> (r: u16)
        ensures
            r == self@.spec_port(),
    {
        match self {
            Address::IP(_, port) => *port,
            Address::Domain(_, port) => *port,
        }
    }

    /// The address-type tag this address is emitted under.
    pub fn atyp(&self) -> (r: AddressType)
        ensures
            r == self@.spec_atyp(),
    {
        match self {
            Address::IP(IpAddress::V4(..), _) => AddressType::IPV4,
            Address::IP(IpAddress::V6(..), _) => AddressType::IPV6,
            Address::Domain(..) => AddressType::FQDN,
        }
    }

    /// Whether the address obeys its invariant: a domain name of 1 to
    /// 255 octets of UTF-8.
    pub fn well_formed(&self) -> (r: bool)
        ensures
            r == self@.wf(),
    {
        match self {
            Address::IP(..) => true,
            Address::Domain(name, _) => {
                let name_bytes = name.as_str().as_bytes_vec();
                let n = name_bytes.len();
                1 <= n && n <= 255
            },
        }
    }

    /// The serialized length of the address: 6 for a V4 address, 18 for
    /// a V6 address, `3 + len(name)` for a domain.
    pub fn len(&self) -> (r: usize)
        requires
            self@.wf(),
        ensures
            r as int == self@.spec_len(),
    {
        match self {
            Address::IP(IpAddress::V4(..), _) => 6,
            Address::IP(IpAddress::V6(..), _) => 18,
            Address::Domain(name, _) => 3 + name.as_str().len(),
        }
    }

    /// The serialized length in bits.
    pub fn binary_len(&self) -> (r: usize)
        requires
            self@.wf(),
        ensures
            r as int == self@.spec_len() * 8,
    {
        self.len() * 8
    }

    /// Serialize the address as `ADDR | PORT`.
    pub fn as_socks_bytes(&self) -> (r: Vec<u8>)
        requires
            self@.wf(),
        ensures
            r@ == self@.spec_socks_bytes(),
    {
        let mut ret: Vec<u8> = Vec::new();
        match self {
            Address::IP(IpAddress::V4(a, b, c, d), _) => {
                ret.push(*a);
                ret.push(*b);
                ret.push(*c);
                ret.push(*d);
            },
            Address::IP(IpAddress::V6(g0, g1, g2, g3, g4, g5, g6, g7), _) => {
                ret.push(u16_hi(*g0));
                ret.push(u16_lo(*g0));
                ret.push(u16_hi(*g1));
                ret.push(u16_lo(*g1));
                ret.push(u16_hi(*g2));
                ret.push(u16_lo(*g2));
                ret.push(u16_hi(*g3));
                ret.push(u16_lo(*g3));
                ret.push(u16_hi(*g4));
                ret.push(u16_lo(*g4));
                ret.push(u16_hi(*g5));
                ret.push(u16_lo(*g5));
                ret.push(u16_hi(*g6));
                ret.push(u16_lo(*g6));
                ret.push(u16_hi(*g7));
                ret.push(u16_lo(*g7));
            },
            Address::Domain(name, _) => {
                let name_bytes = name.as_str().as_bytes_vec();
                ret.push(name_bytes.len() as u8);
                let mut i: usize = 0;
                while i < name_bytes.len()
                    invariant
                        i <= name_bytes@.len(),
                        name_bytes@ == encode_utf8(name@),
                        ret@ == seq![(name_bytes@.len() as u8)] + name_bytes@.subrange(0, i as int),
                    decreases name_bytes@.len() - i,
                {
                    ret.push(name_bytes[i]);
                    i = i + 1;
                    proof {
                        assert(ret@ =~= seq![(name_bytes@.len() as u8)] + name_bytes@.subrange(
                            0,
                            i as int,
                        ));
                    }
                }
                proof {
                    assert(name_bytes@.subrange(0, name_bytes@.len() as int) =~= name_bytes@);
                }
            },
        }
        let port = self.port();
        ret.push(u16_hi(port));
        ret.push(u16_lo(port));
        proof {
            assert(ret@ =~= self@.spec_socks_bytes());
        }
        ret
    }

    /// Decode an address at `pos`, the ATYP tag already known.
    pub fn from_socks_bytes(buf: &Vec<u8>, pos: usize, atyp: AddressType) -> (r: Result<
        (Address, usize),
        ProtocolError,
    >)
        ensures
            match r {
                Ok((a, end)) => AddressView::spec_decode(buf@, pos as int, atyp) == Ok::<
                    _,
                    ProtocolError,
                >((a@, end as int)),
                Err(e) => AddressView::spec_decode(buf@, pos as int, atyp) == Err::<
                    (AddressView, int),
                    _,
                >(e),
            },
    {
        match atyp {
            AddressType::IPV4 => {
                if buf.len() < 6 || pos > buf.len() - 6 {
                    return Err(ProtocolError::ShortRead);
                }
                let ip = IpAddress::V4(buf[pos], buf[pos + 1], buf[pos + 2], buf[pos + 3]);
                let port = u16_from_be(buf[pos + 4], buf[pos + 5]);
                Ok((Address::IP(ip, port), pos + 6))
            },
            AddressType::IPV6 => {
                if buf.len() < 18 || pos > buf.len() - 18 {
                    return Err(ProtocolError::ShortRead);
                }
                let ip = IpAddress::V6(
                    u16_from_be(buf[pos], buf[pos + 1]),
                    u16_from_be(buf[pos + 2], buf[pos + 3]),
                    u16_from_be(buf[pos + 4], buf[pos + 5]),
                    u16_from_be(buf[pos + 6], buf[pos + 7]),
                    u16_from_be(buf[pos + 8], buf[pos + 9]),
                    u16_from_be(buf[pos + 10], buf[pos + 11]),
                    u16_from_be(buf[pos + 12], buf[pos + 13]),
                    u16_from_be(buf[pos + 14], buf[pos + 15]),
                );
                let port = u16_from_be(buf[pos + 16], buf[pos + 17]);
                Ok((Address::IP(ip, port), pos + 18))
            },
            AddressType::FQDN => {
                if buf.len() < 1 || pos > buf.len() - 1 {
                    return Err(ProtocolError::ShortRead);
                }
                let n = buf[pos] as usize;
                if buf.len() < n + 3 || pos > buf.len() - n - 3 {
                    return Err(ProtocolError::ShortRead);
                }
                let mut name_bytes: Vec<u8> = Vec::new();
                let mut i: usize = 0;
                proof {
                    assert(buf@.len() <= usize::MAX);
                }
                while i < n
                    invariant
                        i <= n,
                        pos + 3 + n <= buf@.len(),
                        buf@.len() <= usize::MAX,
                        name_bytes@ == buf@.subrange(pos + 1, pos + 1 + i),
                    decreases n - i,
                {
                    name_bytes.push(buf[pos + 1 + i]);
                    i = i + 1;
                    proof {
                        assert(name_bytes@ =~= buf@.subrange(pos + 1, pos + 1 + i));
                    }
                }
                match string_from_utf8(name_bytes) {
                    None => Err(ProtocolError::BadUtf8Hostname),
                    Some(name) => {
                        let port = u16_from_be(buf[pos + 1 + n], buf[pos + 2 + n]);
                        proof {
                            encode_utf8_decode_utf8(name@);
                        }
                        Ok((Address::Domain(name, port), pos + 3 + n))
                    },
                }
            },
        }
    }
}

/// The serialized length of an address is 6 octets for a V4 address,
/// 18 for a V6 address, and `3 + len(name)` for a domain name.
pub proof fn lemma_address_serialized_len(v: AddressView)
    ensures
        v.spec_socks_bytes().len() == v.spec_len(),
{
}

/// Decoding a serialized address out of any enclosing buffer yields the
/// address again, and consumes exactly its serialized length.
pub proof fn lemma_address_round_trip(v: AddressView, bytes: Seq<u8>, pos: int)
    requires
        v.wf(),
        0 <= pos,
        pos + v.spec_len() <= bytes.len(),
        bytes.subrange(pos, pos + v.spec_len()) == v.spec_socks_bytes(),
    ensures
        AddressView::spec_decode(bytes, pos, v.spec_atyp()) == Ok::<_, ProtocolError>(
            (v, pos + v.spec_len()),
        ),
{
    let sub = bytes.subrange(pos, pos + v.spec_len());
    assert forall|k: int| 0 <= k < v.spec_len() implies bytes[pos + k] == sub[k] by {}
    match v {
        AddressView::IP(IpAddress::V4(a, b, c, d), port) => {
            assert(v.spec_socks_bytes() =~= seq![a, b, c, d, be_hi(port), be_lo(port)]);
            assert(bytes[pos] == a);
            assert(bytes[pos + 1] == b);
            assert(bytes[pos + 2] == c);
            assert(bytes[pos + 3] == d);
            assert(bytes[pos + 4] == be_hi(port));
            assert(bytes[pos + 5] == be_lo(port));
            lemma_u16_be_split(port);
        },
        AddressView::IP(IpAddress::V6(g0, g1, g2, g3, g4, g5, g6, g7), port) => {
            assert(v.spec_socks_bytes() =~= seq![
                be_hi(g0),
                be_lo(g0),
                be_hi(g1),
                be_lo(g1),
                be_hi(g2),
                be_lo(g2),
                be_hi(g3),
                be_lo(g3),
                be_hi(g4),
                be_lo(g4),
                be_hi(g5),
                be_lo(g5),
                be_hi(g6),
                be_lo(g6),
                be_hi(g7),
                be_lo(g7),
                be_hi(port),
                be_lo(port),
            ]);
            lemma_u16_be_split(g0);
            lemma_u16_be_split(g1);
            lemma_u16_be_split(g2);
            lemma_u16_be_split(g3);
            lemma_u16_be_split(g4);
            lemma_u16_be_split(g5);
            lemma_u16_be_split(g6);
            lemma_u16_be_split(g7);
            lemma_u16_be_split(port);
            assert(AddressView::spec_decode(bytes, pos, v.spec_atyp()) == Ok::<_, ProtocolError>(
                (v, pos + v.spec_len()),
            ));
        },
        AddressView::Domain(name, port) => {
            let enc = encode_utf8(name);
            let n = enc.len() as int;
            assert(v.spec_socks_bytes() =~= seq![(n as u8)] + enc + seq![be_hi(port), be_lo(port)]);
            assert(bytes[pos] == sub[0]);
            assert(sub[0] == n as u8);
            assert(bytes[pos] as int == n);
            assert(pos + 3 + bytes[pos] <= bytes.len());
            assert forall|k: int| 0 <= k < n implies bytes.subrange(pos + 1, pos + 1 + n)[k]
                == enc[k] by {
                assert(bytes.subrange(pos + 1, pos + 1 + n)[k] == bytes[pos + 1 + k]);
                assert(bytes[pos + 1 + k] == sub[1 + k]);
                assert(sub[1 + k] == enc[k]);
            }
            assert(bytes.subrange(pos + 1, pos + 1 + n) =~= enc);
            encode_utf8_valid_utf8(name);
            encode_utf8_decode_utf8(name);
            assert(bytes[pos + 1 + n] == sub[1 + n]);
            assert(sub[1 + n] == be_hi(port));
            assert(bytes[pos + 2 + n] == sub[2 + n]);
            assert(sub[2 + n] == be_lo(port));
            lemma_u16_be_split(port);
        },
    }
}

} // verus!
