//! Big-endian 16-bit fields: every multi-octet integer of RFC 1928 and
//! RFC 1929 travels most-significant octet first.

use vstd::prelude::*;

verus! {

/// The most significant octet of a 16-bit field.
pub open spec fn be_hi(x: u16) -> u8 {
    (x >> 8) as u8
}

/// The least significant octet of a 16-bit field.
pub open spec fn be_lo(x: u16) -> u8 {
    (x & 0xff) as u8
}

/// The 16-bit value carried by two octets, most significant first.
pub open spec fn u16_be(hi: u8, lo: u8) -> u16 {
    ((hi as u16) << 8) | (lo as u16)
}

/// Splitting a 16-bit value into its two octets and reading them back
/// yields the value again.
pub proof fn lemma_u16_be_split(x: u16)
    ensures
        u16_be(be_hi(x), be_lo(x)) == x,
{
    assert((((x >> 8) as u8 as u16) << 8) | ((x & 0xff) as u8 as u16) == x) by (bit_vector);
}

/// The most significant octet, executably.
pub fn u16_hi(x: u16) -> (r: u8)
    ensures
        r == be_hi(x),
{
    proof {
        assert((x >> 8) <= 0xff) by (bit_vector);
    }
    (x >> 8) as u8
}

/// The least significant octet, executably.
pub fn u16_lo(x: u16) -> (r: u8)
    ensures
        r == be_lo(x),
{
    proof {
        assert((x & 0xff) <= 0xff) by (bit_vector);
    }
    (x & 0xff) as u8
}

/// Assemble a 16-bit value from its two octets, most significant first.
pub fn u16_from_be(hi: u8, lo: u8) -> (r: u16)
    ensures
        r == u16_be(hi, lo),
{
    ((hi as u16) << 8) | (lo as u16)
}

} // verus!
