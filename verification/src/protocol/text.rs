//! The textual form of addresses: turning a free-form `host:port`
//! string into an [`Address`], and rendering an [`Address`] back to
//! text. The tie-break when parsing: try a V4 address first, then a V6
//! address with its brackets stripped, else a domain name. The port is
//! the substring after the final colon.

use vstd::prelude::*;
use vstd::string::StrSliceExecFns;

use crate::protocol::addr::Address;
use crate::protocol::addr::AddressView;
use crate::protocol::addr::IpAddress;

verus! {

/// A decimal digit.
pub open spec fn is_dec_digit(c: char) -> bool {
    '0' as u32 <= c as u32 <= '9' as u32
}

/// The value of a decimal digit.
pub open spec fn dec_digit_val(c: char) -> int {
    c as u32 - '0' as u32
}

/// The value of a digit string, most significant digit first.
pub open spec fn spec_dec_val(s: Seq<char>) -> int
    decreases s.len(),
{
    if s.len() == 0 {
        0
    } else {
        spec_dec_val(s.drop_last()) * 10 + dec_digit_val(s.last())
    }
}

/// Whether every character is a decimal digit.
pub open spec fn all_dec_digits(s: Seq<char>) -> bool {
    forall|i: int| 0 <= i < s.len() ==> is_dec_digit(s[i])
}

/// The value of a digit string is never negative.
proof fn lemma_dec_val_nonneg(s: Seq<char>)
    requires
        all_dec_digits(s),
    ensures
        spec_dec_val(s) >= 0,
    decreases s.len(),
{
    if s.len() > 0 {
        assert(all_dec_digits(s.drop_last()));
        lemma_dec_val_nonneg(s.drop_last());
    }
}

/// A prefix of a digit string never has a larger value than the whole.
proof fn lemma_dec_val_prefix_le(s: Seq<char>, i: int)
    requires
        all_dec_digits(s),
        0 <= i <= s.len(),
    ensures
        spec_dec_val(s.take(i)) <= spec_dec_val(s),
    decreases s.len() - i,
{
    if i < s.len() {
        lemma_dec_val_prefix_le(s, i + 1);
        let t = s.take(i + 1);
        assert(t.drop_last() =~= s.take(i));
        assert(all_dec_digits(s.take(i)));
        lemma_dec_val_nonneg(s.take(i));
        assert(spec_dec_val(t) == spec_dec_val(s.take(i)) * 10 + dec_digit_val(t.last()));
    } else {
        assert(s.take(i) =~= s);
    }
}

/// A digit string of at most three digits stays under one thousand.
proof fn lemma_dec_val_le(s: Seq<char>)
    requires
        all_dec_digits(s),
    ensures
        s.len() == 0 ==> spec_dec_val(s) == 0,
        s.len() <= 1 ==> spec_dec_val(s) <= 9,
        s.len() <= 2 ==> spec_dec_val(s) <= 99,
        s.len() <= 3 ==> spec_dec_val(s) <= 999,
    decreases s.len(),
{
    if s.len() > 0 {
        assert(all_dec_digits(s.drop_last()));
        lemma_dec_val_le(s.drop_last());
    }
}

/// The port a digit string names: it must be non-empty, all digits, and
/// fit in sixteen bits. Leading zeros are allowed.
pub open spec fn spec_parse_port(s: Seq<char>) -> Option<u16> {
    if s.len() >= 1 && all_dec_digits(s) && spec_dec_val(s) <= 0xffff {
        Some(spec_dec_val(s) as u16)
    } else {
        None
    }
}

/// Parse the port from the whole of `s`.
fn parse_port(s: &str) -> (r: Option<u16>)
    ensures
        r == spec_parse_port(s@),
{
    let n = s.unicode_len();
    if n == 0 {
        return None;
    }
    let mut val: u32 = 0;
    let mut i: usize = 0;
    while i < n
        invariant
            0 <= i <= n,
            n == s@.len(),
            all_dec_digits(s@.take(i as int)),
            val == spec_dec_val(s@.take(i as int)),
            val <= 0xffff,
        decreases n - i,
    {
        let c = s.get_char(i);
        let u = c as u32;
        if u < 48 || u > 57 {
            return None;
        }
        let d = u - 48;
        proof {
            assert(s@.take(i + 1).drop_last() =~= s@.take(i as int));
        }
        if val > 6553 || (val == 6553 && d > 5) {
            proof {
                if all_dec_digits(s@) {
                    assert(all_dec_digits(s@.take(i + 1)));
                    assert(spec_dec_val(s@.take(i + 1)) == val * 10 + d);
                    lemma_dec_val_prefix_le(s@, i + 1);
                    assert(s@.take(s@.len() as int) =~= s@);
                }
            }
            return None;
        }
        val = val * 10 + d;
        i = i + 1;
    }
    proof {
        assert(s@.take(n as int) =~= s@);
    }
    Some(val as u16)
}

/// The index just past the run of decimal digits that starts at `pos`.
pub open spec fn dec_run_end(s: Seq<char>, pos: int) -> int
    recommends
        0 <= pos <= s.len(),
    decreases s.len() - pos
        when 0 <= pos <= s.len()
{
    if pos < s.len() && is_dec_digit(s[pos]) {
        dec_run_end(s, pos + 1)
    } else {
        pos
    }
}

proof fn lemma_dec_run_end_bounds(s: Seq<char>, pos: int)
    requires
        0 <= pos <= s.len(),
    ensures
        pos <= dec_run_end(s, pos) <= s.len(),
        all_dec_digits(s.subrange(pos, dec_run_end(s, pos))),
        dec_run_end(s, pos) < s.len() ==> !is_dec_digit(s[dec_run_end(s, pos)]),
    decreases s.len() - pos,
{
    if pos < s.len() && is_dec_digit(s[pos]) {
        lemma_dec_run_end_bounds(s, pos + 1);
        assert(s.subrange(pos + 1, dec_run_end(s, pos + 1)) =~= s.subrange(
            pos,
            dec_run_end(s, pos),
        ).skip(1));
        assert forall|i: int|
            0 <= i < s.subrange(pos, dec_run_end(s, pos)).len() implies is_dec_digit(
            s.subrange(pos, dec_run_end(s, pos))[i],
        ) by {
            if i > 0 {
                assert(s.subrange(pos, dec_run_end(s, pos))[i] == s.subrange(
                    pos + 1,
                    dec_run_end(s, pos + 1),
                )[i - 1]);
            }
        }
    }
}

/// Find the run of digits that starts at `pos`.
fn find_dec_run_end(s: &str, pos: usize) -> (r: usize)
    requires
        pos <= s@.len(),
    ensures
        r as int == dec_run_end(s@, pos as int),
        pos <= r <= s@.len(),
    decreases s@.len() - pos,
{
    proof {
        lemma_dec_run_end_bounds(s@, pos as int);
    }
    if pos < s.unicode_len() {
        let c = s.get_char(pos);
        let u = c as u32;
        if 48 <= u && u <= 57 {
            return find_dec_run_end(s, pos + 1);
        }
    }
    pos
}

/// One decimal octet of a dotted V4 address: one to three digits, no
/// leading zero unless it is exactly `0`, and a value of at most 255.
pub open spec fn spec_valid_octet(s: Seq<char>) -> bool {
    &&& 1 <= s.len() <= 3
    &&& all_dec_digits(s)
    &&& (s.len() == 1 || s[0] != '0')
    &&& spec_dec_val(s) <= 255
}

/// The four positions of a dotted-decimal V4 address within `s`: the
/// three dots split it into four valid octets.
pub open spec fn spec_parse_ipv4(s: Seq<char>) -> Option<IpAddress> {
    let e0 = dec_run_end(s, 0);
    if e0 < s.len() && s[e0] == '.' {
        let e1 = dec_run_end(s, e0 + 1);
        if e1 < s.len() && s[e1] == '.' {
            let e2 = dec_run_end(s, e1 + 1);
            if e2 < s.len() && s[e2] == '.' {
                let e3 = dec_run_end(s, e2 + 1);
                if e3 == s.len() && spec_valid_octet(s.subrange(0, e0)) && spec_valid_octet(
                    s.subrange(e0 + 1, e1),
                ) && spec_valid_octet(s.subrange(e1 + 1, e2)) && spec_valid_octet(
                    s.subrange(e2 + 1, e3),
                ) {
                    Some(
                        IpAddress::V4(
                            spec_dec_val(s.subrange(0, e0)) as u8,
                            spec_dec_val(s.subrange(e0 + 1, e1)) as u8,
                            spec_dec_val(s.subrange(e1 + 1, e2)) as u8,
                            spec_dec_val(s.subrange(e2 + 1, e3)) as u8,
                        ),
                    )
                } else {
                    None
                }
            } else {
                None
            }
        } else {
            None
        }
    } else {
        None
    }
}

/// Parse one octet field spanning `lo..hi`, already known to be a digit
/// run.
fn parse_octet(s: &str, lo: usize, hi: usize) -> (r: Option<u8>)
    requires
        lo <= hi <= s@.len(),
        all_dec_digits(s@.subrange(lo as int, hi as int)),
    ensures
        spec_valid_octet(s@.subrange(lo as int, hi as int)) ==> r == Some(
            spec_dec_val(s@.subrange(lo as int, hi as int)) as u8,
        ),
        !spec_valid_octet(s@.subrange(lo as int, hi as int)) ==> r is None,
{
    let ghost field = s@.subrange(lo as int, hi as int);
    if hi - lo < 1 || hi - lo > 3 {
        return None;
    }
    if hi - lo > 1 {
        let c0 = s.get_char(lo);
        if c0 == '0' {
            return None;
        }
    }
    let mut val: u32 = 0;
    let mut i: usize = lo;
    while i < hi
        invariant
            lo <= i <= hi <= s@.len(),
            hi - lo <= 3,
            field == s@.subrange(lo as int, hi as int),
            all_dec_digits(field),
            val == spec_dec_val(field.take(i - lo)),
            val <= 999,
        decreases hi - i,
    {
        let c = s.get_char(i);
        let u = c as u32;
        proof {
            assert(field[i - lo] == s@[i as int]);
            assert(is_dec_digit(field[i - lo]));
            assert(field.take(i + 1 - lo).drop_last() =~= field.take(i - lo));
            assert(all_dec_digits(field.take(i - lo)));
            lemma_dec_val_le(field.take(i - lo));
            assert(all_dec_digits(field.take(i + 1 - lo)));
            lemma_dec_val_le(field.take(i + 1 - lo));
        }
        val = val * 10 + (u - 48);
        i = i + 1;
    }
    proof {
        assert(field.take(hi - lo) =~= field);
    }
    if val > 255 {
        return None;
    }
    Some(val as u8)
}

/// Parse the whole of `s` as a dotted-decimal V4 address.
pub fn parse_ipv4(s: &str) -> (r: Option<IpAddress>)
    ensures
        r == spec_parse_ipv4(s@),
{
    let n = s.unicode_len();
    let e0 = find_dec_run_end(s, 0);
    if !(e0 < n && s.get_char(e0) == '.') {
        return None;
    }
    let e1 = find_dec_run_end(s, e0 + 1);
    if !(e1 < n && s.get_char(e1) == '.') {
        return None;
    }
    let e2 = find_dec_run_end(s, e1 + 1);
    if !(e2 < n && s.get_char(e2) == '.') {
        return None;
    }
    let e3 = find_dec_run_end(s, e2 + 1);
    if e3 != n {
        return None;
    }
    proof {
        lemma_dec_run_end_bounds(s@, 0);
        lemma_dec_run_end_bounds(s@, e0 + 1);
        lemma_dec_run_end_bounds(s@, e1 + 1);
        lemma_dec_run_end_bounds(s@, e2 + 1);
    }
    let a = match parse_octet(s, 0, e0) {
        None => {
            return None;
        },
        Some(v) => v,
    };
    let b = match parse_octet(s, e0 + 1, e1) {
        None => {
            return None;
        },
        Some(v) => v,
    };
    let c = match parse_octet(s, e1 + 1, e2) {
        None => {
            return None;
        },
        Some(v) => v,
    };
    let d = match parse_octet(s, e2 + 1, e3) {
        None => {
            return None;
        },
        Some(v) => v,
    };
    Some(IpAddress::V4(a, b, c, d))
}

/// A hexadecimal digit.
pub open spec fn is_hex_digit(c: char) -> bool {
    ||| '0' as u32 <= c as u32 <= '9' as u32
    ||| 'a' as u32 <= c as u32 <= 'f' as u32
    ||| 'A' as u32 <= c as u32 <= 'F' as u32
}

/// The value of a hexadecimal digit.
pub open spec fn hex_digit_val(c: char) -> int {
    if '0' as u32 <= c as u32 <= '9' as u32 {
        c as u32 - '0' as u32
    } else if 'a' as u32 <= c as u32 <= 'f' as u32 {
        c as u32 - 'a' as u32 + 10
    } else {
        c as u32 - 'A' as u32 + 10
    }
}

/// The value of a hex-digit string, most significant digit first.
pub open spec fn spec_hex_val(s: Seq<char>) -> int
    decreases s.len(),
{
    if s.len() == 0 {
        0
    } else {
        spec_hex_val(s.drop_last()) * 16 + hex_digit_val(s.last())
    }
}

/// Whether every character is a hexadecimal digit.
pub open spec fn all_hex_digits(s: Seq<char>) -> bool {
    forall|i: int| 0 <= i < s.len() ==> is_hex_digit(s[i])
}

/// A hex-digit string of at most four digits fits in sixteen bits.
proof fn lemma_hex_val_le(s: Seq<char>)
    requires
        all_hex_digits(s),
    ensures
        s.len() == 0 ==> spec_hex_val(s) == 0,
        s.len() <= 1 ==> spec_hex_val(s) <= 0xf,
        s.len() <= 2 ==> spec_hex_val(s) <= 0xff,
        s.len() <= 3 ==> spec_hex_val(s) <= 0xfff,
        s.len() <= 4 ==> spec_hex_val(s) <= 0xffff,
        spec_hex_val(s) >= 0,
    decreases s.len(),
{
    if s.len() > 0 {
        assert(all_hex_digits(s.drop_last()));
        lemma_hex_val_le(s.drop_last());
    }
}

/// The index just past the run of hex digits that starts at `pos`.
pub open spec fn hex_run_end(s: Seq<char>, pos: int) -> int
    recommends
        0 <= pos <= s.len(),
    decreases s.len() - pos
        when 0 <= pos <= s.len()
{
    if pos < s.len() && is_hex_digit(s[pos]) {
        hex_run_end(s, pos + 1)
    } else {
        pos
    }
}

proof fn lemma_hex_run_end_bounds(s: Seq<char>, pos: int)
    requires
        0 <= pos <= s.len(),
    ensures
        pos <= hex_run_end(s, pos) <= s.len(),
        all_hex_digits(s.subrange(pos, hex_run_end(s, pos))),
        hex_run_end(s, pos) < s.len() ==> !is_hex_digit(s[hex_run_end(s, pos)]),
    decreases s.len() - pos,
{
    if pos < s.len() && is_hex_digit(s[pos]) {
        lemma_hex_run_end_bounds(s, pos + 1);
        assert forall|i: int|
            0 <= i < s.subrange(pos, hex_run_end(s, pos)).len() implies is_hex_digit(
            s.subrange(pos, hex_run_end(s, pos))[i],
        ) by {
            if i > 0 {
                assert(s.subrange(pos, hex_run_end(s, pos))[i] == s.subrange(
                    pos + 1,
                    hex_run_end(s, pos + 1),
                )[i - 1]);
            }
        }
    }
}

/// Find the run of hex digits that starts at `pos`.
fn find_hex_run_end(s: &str, pos: usize) -> (r: usize)
    requires
        pos <= s@.len(),
    ensures
        r as int == hex_run_end(s@, pos as int),
        pos <= r <= s@.len(),
    decreases s@.len() - pos,
{
    if pos < s.unicode_len() {
        let c = s.get_char(pos);
        let u = c as u32;
        if (48 <= u && u <= 57) || (97 <= u && u <= 102) || (65 <= u && u <= 70) {
            return find_hex_run_end(s, pos + 1);
        }
    }
    pos
}

/// Parse one hex group spanning `lo..hi`, already known to be a run of
/// one to four hex digits.
fn parse_hex_group(s: &str, lo: usize, hi: usize) -> (r: u16)
    requires
        lo <= hi <= s@.len(),
        1 <= hi - lo <= 4,
        all_hex_digits(s@.subrange(lo as int, hi as int)),
    ensures
        r == spec_hex_val(s@.subrange(lo as int, hi as int)) as u16,
{
    let ghost field = s@.subrange(lo as int, hi as int);
    let mut val: u32 = 0;
    let mut i: usize = lo;
    while i < hi
        invariant
            lo <= i <= hi <= s@.len(),
            hi - lo <= 4,
            field == s@.subrange(lo as int, hi as int),
            all_hex_digits(field),
            val == spec_hex_val(field.take(i - lo)),
            val <= 0xffff,
        decreases hi - i,
    {
        let c = s.get_char(i);
        let u = c as u32;
        proof {
            assert(field[i - lo] == s@[i as int]);
            assert(is_hex_digit(field[i - lo]));
        }
        let d: u32 = if 48 <= u && u <= 57 {
            u - 48
        } else if 97 <= u && u <= 102 {
            u - 97 + 10
        } else {
            u - 65 + 10
        };
        proof {
            assert(field.take(i + 1 - lo).drop_last() =~= field.take(i - lo));
            assert(all_hex_digits(field.take(i - lo)));
            lemma_hex_val_le(field.take(i - lo));
            assert(all_hex_digits(field.take(i + 1 - lo)));
            lemma_hex_val_le(field.take(i + 1 - lo));
        }
        val = val * 16 + d;
        i = i + 1;
    }
    proof {
        assert(field.take(hi - lo) =~= field);
        lemma_hex_val_le(field);
    }
    val as u16
}

/// The group values of a colon-separated list of hex groups starting
/// at `pos` and running to the end of `s`. Each group is one to four
/// hex digits; when `v4_tail` is set, the final group may instead be a
/// dotted-decimal V4 address, which stands for two groups.
pub open spec fn spec_group_seq(s: Seq<char>, pos: int, v4_tail: bool) -> Option<Seq<u16>>
    recommends
        0 <= pos <= s.len(),
    decreases s.len() - pos
        when 0 <= pos <= s.len()
{
    let end = hex_run_end(s, pos);
    if end <= pos || s.len() < end {
        None
    } else if end == s.len() {
        if end - pos <= 4 {
            Some(seq![spec_hex_val(s.subrange(pos, end)) as u16])
        } else {
            None
        }
    } else if s[end] == ':' {
        if end - pos <= 4 {
            match spec_group_seq(s, end + 1, v4_tail) {
                None => None,
                Some(rest) => Some(seq![spec_hex_val(s.subrange(pos, end)) as u16] + rest),
            }
        } else {
            None
        }
    } else if s[end] == '.' && v4_tail {
        match spec_parse_ipv4(s.subrange(pos, s.len() as int)) {
            Some(ip) => match ip {
                IpAddress::V4(a, b, c, d) => Some(
                    seq![crate::wire::u16_be(a, b), crate::wire::u16_be(c, d)],
                ),
                _ => None,
            },
            None => None,
        }
    } else {
        None
    }
}

/// Parse the colon-separated group list beginning at `pos`.
fn parse_group_seq(s: &str, pos: usize, v4_tail: bool) -> (r: Option<Vec<u16>>)
    requires
        pos <= s@.len(),
    ensures
        match r {
            Some(g) => spec_group_seq(s@, pos as int, v4_tail) == Some(g@),
            None => spec_group_seq(s@, pos as int, v4_tail) is None,
        },
    decreases s@.len() - pos,
{
    let n = s.unicode_len();
    let end = find_hex_run_end(s, pos);
    if end == pos {
        return None;
    }
    if end == n {
        if end - pos <= 4 {
            proof {
                lemma_hex_run_end_bounds(s@, pos as int);
            }
            let v = parse_hex_group(s, pos, end);
            let mut g: Vec<u16> = Vec::new();
            g.push(v);
            proof {
                assert(g@ =~= seq![spec_hex_val(s@.subrange(pos as int, end as int)) as u16]);
            }
            return Some(g);
        } else {
            return None;
        }
    }
    let sep = s.get_char(end);
    if sep == ':' {
        if end - pos <= 4 {
            proof {
                lemma_hex_run_end_bounds(s@, pos as int);
            }
            let v = parse_hex_group(s, pos, end);
            match parse_group_seq(s, end + 1, v4_tail) {
                None => None,
                Some(mut rest) => {
                    rest.insert(0, v);
                    proof {
                        assert(rest@ =~= seq![
                            spec_hex_val(s@.subrange(pos as int, end as int)) as u16,
                        ] + rest@.skip(1));
                    }
                    Some(rest)
                },
            }
        } else {
            None
        }
    } else if sep == '.' && v4_tail {
        let tail = s.substring_char(pos, n);
        match parse_ipv4(tail) {
            Some(IpAddress::V4(a, b, c, d)) => {
                let mut g: Vec<u16> = Vec::new();
                g.push(crate::wire::u16_from_be(a, b));
                g.push(crate::wire::u16_from_be(c, d));
                proof {
                    assert(g@ =~= seq![crate::wire::u16_be(a, b), crate::wire::u16_be(c, d)]);
                }
                Some(g)
            },
            _ => None,
        }
    } else {
        None
    }
}

/// The position of the first `::`, or a negative value if there is
/// none.
pub open spec fn double_colon_at(s: Seq<char>, pos: int) -> int
    recommends
        0 <= pos,
    decreases s.len() - pos
        when 0 <= pos
{
    if pos + 2 > s.len() {
        -1
    } else if s[pos] == ':' && s[pos + 1] == ':' {
        pos
    } else {
        double_colon_at(s, pos + 1)
    }
}

/// Find the first `::` at or after `pos`.
fn find_double_colon(s: &str, pos: usize) -> (r: Option<usize>)
    requires
        pos <= s@.len(),
    ensures
        match r {
            Some(i) => i as int == double_colon_at(s@, pos as int) && pos <= i && i + 2 <= s@.len(),
            None => double_colon_at(s@, pos as int) < 0,
        },
    decreases s@.len() - pos,
{
    let n = s.unicode_len();
    if n < 2 || pos > n - 2 {
        return None;
    }
    if s.get_char(pos) == ':' && s.get_char(pos + 1) == ':' {
        return Some(pos);
    }
    find_double_colon(s, pos + 1)
}

/// Assemble a V6 address from left groups, a zero gap, and right
/// groups.
pub open spec fn spec_v6_from_groups(g: Seq<u16>) -> IpAddress
    recommends
        g.len() == 8,
{
    IpAddress::V6(g[0], g[1], g[2], g[3], g[4], g[5], g[6], g[7])
}

/// Parse the whole of `s` as a textual V6 address: either eight
/// colon-separated groups, or two shorter group lists joined by one
/// `::` that stands for the missing zero groups. A dotted-decimal V4
/// tail stands for the last two groups.
pub open spec fn spec_parse_ipv6(s: Seq<char>) -> Option<IpAddress> {
    let dc = double_colon_at(s, 0);
    if dc < 0 {
        match spec_group_seq(s, 0, true) {
            Some(g) => if g.len() == 8 {
                Some(spec_v6_from_groups(g))
            } else {
                None
            },
            None => None,
        }
    } else {
        let left = s.take(dc);
        let right = s.skip(dc + 2);
        let lg = if left.len() == 0 {
            Some(Seq::<u16>::empty())
        } else {
            spec_group_seq(left, 0, false)
        };
        let rg = if right.len() == 0 {
            Some(Seq::<u16>::empty())
        } else {
            spec_group_seq(right, 0, true)
        };
        match (lg, rg) {
            (Some(l), Some(t)) => if l.len() + t.len() <= 7 {
                Some(spec_v6_from_groups(l + Seq::new((8 - l.len() - t.len()) as nat, |i: int| 0u16) + t))
            } else {
                None
            },
            _ => None,
        }
    }
}

/// Parse the whole of `s` as a textual V6 address.
pub fn parse_ipv6(s: &str) -> (r: Option<IpAddress>)
    ensures
        r == spec_parse_ipv6(s@),
{
    let n = s.unicode_len();
    match find_double_colon(s, 0) {
        None => {
            match parse_group_seq(s, 0, true) {
                None => None,
                Some(g) => {
                    if g.len() == 8 {
                        Some(IpAddress::V6(g[0], g[1], g[2], g[3], g[4], g[5], g[6], g[7]))
                    } else {
                        None
                    }
                },
            }
        },
        Some(dc) => {
            let left = s.substring_char(0, dc);
            let right = s.substring_char(dc + 2, n);
            let lg: Option<Vec<u16>> = if left.unicode_len() == 0 {
                Some(Vec::new())
            } else {
                parse_group_seq(left, 0, false)
            };
            let rg: Option<Vec<u16>> = if right.unicode_len() == 0 {
                Some(Vec::new())
            } else {
                parse_group_seq(right, 0, true)
            };
            match (lg, rg) {
                (Some(l), Some(t)) => {
                    if l.len() <= 7 && t.len() <= 7 - l.len() {
                        let mut g: Vec<u16> = Vec::new();
                        let mut i: usize = 0;
                        while i < l.len()
                            invariant
                                i <= l@.len(),
                                g@ == l@.subrange(0, i as int),
                            decreases l@.len() - i,
                        {
                            g.push(l[i]);
                            i = i + 1;
                            proof {
                                assert(g@ =~= l@.subrange(0, i as int));
                            }
                        }
                        while g.len() < 8 - t.len()
                            invariant
                                t@.len() <= 7,
                                l@.len() + t@.len() <= 7,
                                l@.len() <= g@.len() <= 8 - t@.len(),
                                g@.subrange(0, l@.len() as int) == l@,
                                forall|j: int| l@.len() <= j < g@.len() ==> g@[j] == 0u16,
                            decreases 8 - t@.len() - g@.len(),
                        {
                            g.push(0u16);
                        }
                        let mut i: usize = 0;
                        let ghost mid = g@;
                        while i < t.len()
                            invariant
                                i <= t@.len(),
                                g@ == mid + t@.subrange(0, i as int),
                            decreases t@.len() - i,
                        {
                            g.push(t[i]);
                            i = i + 1;
                            proof {
                                assert(g@ =~= mid + t@.subrange(0, i as int));
                            }
                        }
                        proof {
                            assert(g@ =~= l@ + Seq::new(
                                (8 - l@.len() - t@.len()) as nat,
                                |j: int| 0u16,
                            ) + t@);
                        }
                        Some(IpAddress::V6(g[0], g[1], g[2], g[3], g[4], g[5], g[6], g[7]))
                    } else {
                        None
                    }
                },
                _ => None,
            }
        },
    }
}

/// The index of the last colon, or a negative value if there is none.
pub open spec fn last_colon_at(s: Seq<char>) -> int
    decreases s.len(),
{
    if s.len() == 0 {
        -1
    } else if s.last() == ':' {
        s.len() - 1
    } else {
        last_colon_at(s.drop_last())
    }
}

/// Find the last colon of `s`.
fn find_last_colon(s: &str) -> (r: Option<usize>)
    ensures
        match r {
            Some(i) => i as int == last_colon_at(s@) && i < s@.len(),
            None => last_colon_at(s@) < 0,
        },
{
    let mut i: usize = s.unicode_len();
    proof {
        assert(s@.take(s@.len() as int) =~= s@);
    }
    while i > 0
        invariant
            i <= s@.len(),
            last_colon_at(s@) == last_colon_at(s@.take(i as int)),
        decreases i,
    {
        i = i - 1;
        let c = s.get_char(i);
        proof {
            assert(s@.take(i + 1).drop_last() =~= s@.take(i as int));
            assert(s@.take(i + 1).last() == s@[i as int]);
        }
        if c == ':' {
            return Some(i);
        }
    }
    proof {
        assert(s@.take(0) =~= Seq::<char>::empty());
    }
    None
}

/// The host part with one enclosing bracket pair stripped: `[h]`
/// becomes `h`, anything else stays as it is.
pub open spec fn spec_strip_brackets(s: Seq<char>) -> Seq<char> {
    if s.len() >= 2 && s[0] == '[' && s.last() == ']' {
        s.subrange(1, s.len() - 1)
    } else {
        s
    }
}

/// Parse a free-form `host:port` string. The port is the substring
/// after the final colon; the host, its enclosing brackets stripped, is
/// tried as a V4 address, then as a V6 address, and falls back to a
/// domain name. Without a colon, or with a substring after the final
/// colon that is not a port, there is no address.
pub open spec fn spec_parse_host_port(s: Seq<char>) -> Option<AddressView> {
    let colon = last_colon_at(s);
    if colon < 0 {
        None
    } else {
        match spec_parse_port(s.skip(colon + 1)) {
            None => None,
            Some(port) => {
                let host = spec_strip_brackets(s.take(colon));
                match spec_parse_ipv4(host) {
                    Some(ip) => Some(AddressView::IP(ip, port)),
                    None => match spec_parse_ipv6(host) {
                        Some(ip) => Some(AddressView::IP(ip, port)),
                        None => Some(AddressView::Domain(host, port)),
                    },
                }
            },
        }
    }
}

impl Address {
    /// Parse a free-form `host:port` string: a V4 address, a V6
    /// address (brackets stripped), or a domain name, with the port
    /// taken from after the final colon.
    pub fn try_from_str(s: &str) -> (r: Option<Address>)
        ensures
            match r {
                Some(a) => spec_parse_host_port(s@) == Some(a@),
                None => spec_parse_host_port(s@) is None,
            },
    {
        let n = s.unicode_len();
        let colon = match find_last_colon(s) {
            None => {
                return None;
            },
            Some(i) => i,
        };
        let port_str = s.substring_char(colon + 1, n);
        let port = match parse_port(port_str) {
            None => {
                return None;
            },
            Some(p) => p,
        };
        let (host_lo, host_hi): (usize, usize) = if colon >= 2 && s.get_char(0) == '['
            && s.get_char(colon - 1) == ']' {
            (1, colon - 1)
        } else {
            (0, colon)
        };
        proof {
            let host = s@.take(colon as int);
            if colon >= 2 {
                assert(host.last() == s@[colon - 1]);
                assert(host[0] == s@[0]);
            }
            assert(s@.subrange(host_lo as int, host_hi as int) =~= spec_strip_brackets(host));
        }
        let host = s.substring_char(host_lo, host_hi);
        if let Some(ip) = parse_ipv4(host) {
            return Some(Address::IP(ip, port));
        }
        if let Some(ip) = parse_ipv6(host) {
            return Some(Address::IP(ip, port));
        }
        Some(Address::Domain(host.to_owned(), port))
    }
}

/// The character of one decimal digit.
pub open spec fn dec_char(d: int) -> char {
    if d == 0 {
        '0'
    } else if d == 1 {
        '1'
    } else if d == 2 {
        '2'
    } else if d == 3 {
        '3'
    } else if d == 4 {
        '4'
    } else if d == 5 {
        '5'
    } else if d == 6 {
        '6'
    } else if d == 7 {
        '7'
    } else if d == 8 {
        '8'
    } else {
        '9'
    }
}

/// The character of one hexadecimal digit, lower case.
pub open spec fn hex_char(d: int) -> char {
    if d < 10 {
        dec_char(d)
    } else if d == 10 {
        'a'
    } else if d == 11 {
        'b'
    } else if d == 12 {
        'c'
    } else if d == 13 {
        'd'
    } else if d == 14 {
        'e'
    } else {
        'f'
    }
}

/// The canonical decimal rendering of a number: no leading zeros, and
/// a single `0` for zero.
pub open spec fn spec_dec_chars(n: int) -> Seq<char>
    recommends
        n >= 0,
    decreases n
        when n >= 0
{
    if n < 10 {
        seq![dec_char(n)]
    } else {
        spec_dec_chars(n / 10).push(dec_char(n % 10))
    }
}

/// The canonical lower-case hexadecimal rendering of a number.
pub open spec fn spec_hex_chars(n: int) -> Seq<char>
    recommends
        n >= 0,
    decreases n
        when n >= 0
{
    if n < 16 {
        seq![hex_char(n)]
    } else {
        spec_hex_chars(n / 16).push(hex_char(n % 16))
    }
}

/// Relies on `String::push`: it appends exactly the one character.
#[verifier::external_body]
fn push_char(out: &mut String, c: char)
    ensures
        final(out)@ == old(out)@ + seq![c],
{
    out.push(c);
}

/// The character of one decimal digit, executably.
fn dec_char_of(d: u32) -> (r: char)
    requires
        d < 10,
    ensures
        r == dec_char(d as int),
{
    match d {
        0 => '0',
        1 => '1',
        2 => '2',
        3 => '3',
        4 => '4',
        5 => '5',
        6 => '6',
        7 => '7',
        8 => '8',
        _ => '9',
    }
}

/// The character of one hexadecimal digit, executably.
fn hex_char_of(d: u32) -> (r: char)
    requires
        d < 16,
    ensures
        r == hex_char(d as int),
{
    if d < 10 {
        dec_char_of(d)
    } else {
        match d {
            10 => 'a',
            11 => 'b',
            12 => 'c',
            13 => 'd',
            14 => 'e',
            _ => 'f',
        }
    }
}

/// Append the decimal rendering of `n`.
fn push_dec(out: &mut String, n: u32)
    ensures
        final(out)@ == old(out)@ + spec_dec_chars(n as int),
    decreases n,
{
    if n < 10 {
        push_char(out, dec_char_of(n));
    } else {
        push_dec(out, n / 10);
        push_char(out, dec_char_of(n % 10));
    }
    proof {
        assert(out@ =~= old(out)@ + spec_dec_chars(n as int));
    }
}

/// Append the hexadecimal rendering of `n`.
fn push_hex(out: &mut String, n: u32)
    ensures
        final(out)@ == old(out)@ + spec_hex_chars(n as int),
    decreases n,
{
    if n < 16 {
        push_char(out, hex_char_of(n));
    } else {
        push_hex(out, n / 16);
        push_char(out, hex_char_of(n % 16));
    }
    proof {
        assert(out@ =~= old(out)@ + spec_hex_chars(n as int));
    }
}

/// The rendering of a V4 address: four decimal octets joined by dots.
pub open spec fn spec_render_ipv4(a: u8, b: u8, c: u8, d: u8) -> Seq<char> {
    spec_dec_chars(a as int) + seq!['.'] + spec_dec_chars(b as int) + seq!['.'] + spec_dec_chars(
        c as int,
    ) + seq!['.'] + spec_dec_chars(d as int)
}

/// The length of the run of zero groups that starts at `i`.
pub open spec fn zero_run_len(g: Seq<u16>, i: int) -> int
    recommends
        0 <= i <= g.len(),
    decreases g.len() - i
        when 0 <= i <= g.len()
{
    if i < g.len() && g[i] == 0 {
        1 + zero_run_len(g, i + 1)
    } else {
        0
    }
}

/// The start and length of the longest run of zero groups at or after
/// `i`; the earliest such run on a tie.
pub open spec fn best_zero_run(g: Seq<u16>, i: int) -> (int, int)
    recommends
        0 <= i <= g.len(),
    decreases g.len() - i
        when 0 <= i <= g.len()
{
    if i >= g.len() {
        (i, 0)
    } else {
        let cur = zero_run_len(g, i);
        let rest = best_zero_run(g, i + 1);
        if cur >= rest.1 {
            (i, cur)
        } else {
            rest
        }
    }
}

/// The hex groups `from..to`, joined by colons.
pub open spec fn spec_render_groups(g: Seq<u16>, from: int, to: int) -> Seq<char>
    recommends
        0 <= from <= to <= g.len(),
    decreases to - from
        when from <= to
{
    if from >= to {
        Seq::empty()
    } else if from + 1 == to {
        spec_hex_chars(g[from] as int)
    } else {
        spec_hex_chars(g[from] as int) + seq![':'] + spec_render_groups(g, from + 1, to)
    }
}

/// The rendering of a V6 address: lower-case hex groups joined by
/// colons, with the longest run of at least two zero groups compressed
/// to `::`.
pub open spec fn spec_render_ipv6(g: Seq<u16>) -> Seq<char>
    recommends
        g.len() == 8,
{
    let run = best_zero_run(g, 0);
    if run.1 >= 2 {
        spec_render_groups(g, 0, run.0) + seq![':', ':'] + spec_render_groups(
            g,
            run.0 + run.1,
            g.len() as int,
        )
    } else {
        spec_render_groups(g, 0, g.len() as int)
    }
}

/// The textual form of an address with its port: `a.b.c.d:p`,
/// `[groups]:p`, or `name:p`.
pub open spec fn spec_repr(v: AddressView) -> Seq<char> {
    match v {
        AddressView::IP(IpAddress::V4(a, b, c, d), port) => spec_render_ipv4(a, b, c, d)
            + seq![':'] + spec_dec_chars(port as int),
        AddressView::IP(IpAddress::V6(g0, g1, g2, g3, g4, g5, g6, g7), port) => seq!['[']
            + spec_render_ipv6(seq![g0, g1, g2, g3, g4, g5, g6, g7]) + seq![']', ':']
            + spec_dec_chars(port as int),
        AddressView::Domain(name, port) => name + seq![':'] + spec_dec_chars(port as int),
    }
}

/// The length of the zero run that starts at `i`.
fn zero_run_len_of(g: &Vec<u16>, i: usize) -> (r: usize)
    requires
        i <= g@.len(),
    ensures
        r as int == zero_run_len(g@, i as int),
        i + r <= g@.len(),
    decreases g@.len() - i,
{
    if i < g.len() && g[i] == 0 {
        1 + zero_run_len_of(g, i + 1)
    } else {
        0
    }
}

/// The longest zero run at or after `i`, earliest on a tie.
fn best_zero_run_of(g: &Vec<u16>, i: usize) -> (r: (usize, usize))
    requires
        i <= g@.len(),
    ensures
        (r.0 as int, r.1 as int) == best_zero_run(g@, i as int),
        i <= r.0,
        r.0 + r.1 <= g@.len(),
    decreases g@.len() - i,
{
    if i >= g.len() {
        (i, 0)
    } else {
        let cur = zero_run_len_of(g, i);
        let rest = best_zero_run_of(g, i + 1);
        if cur >= rest.1 {
            (i, cur)
        } else {
            rest
        }
    }
}

/// Append the hex groups `from..to`, joined by colons.
fn push_groups(out: &mut String, g: &Vec<u16>, from: usize, to: usize)
    requires
        from <= to <= g@.len(),
    ensures
        final(out)@ == old(out)@ + spec_render_groups(g@, from as int, to as int),
    decreases to - from,
{
    if from >= to {
    } else if from + 1 == to {
        push_hex(out, g[from] as u32);
    } else {
        push_hex(out, g[from] as u32);
        push_char(out, ':');
        push_groups(out, g, from + 1, to);
    }
    proof {
        assert(out@ =~= old(out)@ + spec_render_groups(g@, from as int, to as int));
    }
}

impl Address {
    /// Render the address as `host:port` text: dotted decimal for a V4
    /// address, bracketed lower-case hex groups with the longest zero
    /// run compressed for a V6 address, the name itself for a domain.
    pub fn to_string_repr(&self) -> (r: String)
        ensures
            r@ == spec_repr(self@),
    {
        let mut out = String::new();
        match self {
            Address::IP(IpAddress::V4(a, b, c, d), port) => {
                push_dec(&mut out, *a as u32);
                push_char(&mut out, '.');
                push_dec(&mut out, *b as u32);
                push_char(&mut out, '.');
                push_dec(&mut out, *c as u32);
                push_char(&mut out, '.');
                push_dec(&mut out, *d as u32);
                push_char(&mut out, ':');
                push_dec(&mut out, *port as u32);
            },
            Address::IP(IpAddress::V6(g0, g1, g2, g3, g4, g5, g6, g7), port) => {
                let mut g: Vec<u16> = Vec::new();
                g.push(*g0);
                g.push(*g1);
                g.push(*g2);
                g.push(*g3);
                g.push(*g4);
                g.push(*g5);
                g.push(*g6);
                g.push(*g7);
                proof {
                    assert(g@ =~= seq![*g0, *g1, *g2, *g3, *g4, *g5, *g6, *g7]);
                }
                push_char(&mut out, '[');
                let run = best_zero_run_of(&g, 0);
                if run.1 >= 2 {
                    push_groups(&mut out, &g, 0, run.0);
                    push_char(&mut out, ':');
                    push_char(&mut out, ':');
                    push_groups(&mut out, &g, run.0 + run.1, g.len());
                } else {
                    push_groups(&mut out, &g, 0, g.len());
                }
                push_char(&mut out, ']');
                push_char(&mut out, ':');
                push_dec(&mut out, *port as u32);
            },
            Address::Domain(name, port) => {
                out = name.clone();
                push_char(&mut out, ':');
                push_dec(&mut out, *port as u32);
            },
        }
        proof {
            assert(out@ =~= spec_repr(self@));
        }
        out
    }
}

/// The canonical decimal rendering is all digits, reads back to its
/// number, and never starts with a superfluous zero.
proof fn lemma_dec_chars_canonical(n: int)
    requires
        n >= 0,
    ensures
        all_dec_digits(spec_dec_chars(n)),
        spec_dec_val(spec_dec_chars(n)) == n,
        spec_dec_chars(n).len() >= 1,
        n > 0 ==> spec_dec_chars(n)[0] != '0',
        n <= 9 ==> spec_dec_chars(n).len() == 1,
        n <= 99 ==> spec_dec_chars(n).len() <= 2,
        n <= 255 ==> spec_dec_chars(n).len() <= 3,
    decreases n,
{
    if n < 10 {
        assert(spec_dec_val(seq![dec_char(n)].drop_last()) == 0) by {
            assert(seq![dec_char(n)].drop_last() =~= Seq::<char>::empty());
        }
    } else {
        lemma_dec_chars_canonical(n / 10);
        let head = spec_dec_chars(n / 10);
        let whole = head.push(dec_char(n % 10));
        assert(whole.drop_last() =~= head);
        assert(whole[0] == head[0]);
        assert forall|i: int| 0 <= i < whole.len() implies is_dec_digit(whole[i]) by {
            if i < head.len() {
                assert(whole[i] == head[i]);
            }
        }
    }
}

/// A digit run ends exactly where the digits end.
proof fn lemma_dec_run_end_of(s: Seq<char>, p: int, q: int)
    requires
        0 <= p <= q <= s.len(),
        forall|i: int| p <= i < q ==> is_dec_digit(s[i]),
        q < s.len() ==> !is_dec_digit(s[q]),
    ensures
        dec_run_end(s, p) == q,
    decreases q - p,
{
    if p < q {
        lemma_dec_run_end_of(s, p + 1, q);
    }
}

/// The last colon of a rendered address is the one in front of the
/// port: nothing after it holds another.
proof fn lemma_last_colon_concat(a: Seq<char>, b: Seq<char>)
    requires
        forall|i: int| 0 <= i < b.len() ==> b[i] != ':',
    ensures
        last_colon_at(a + seq![':'] + b) == a.len(),
    decreases b.len(),
{
    let s = a + seq![':'] + b;
    if b.len() == 0 {
        assert(s.last() == ':');
    } else {
        assert(s.last() == b.last());
        assert(b.last() != ':');
        assert(s.drop_last() =~= a + seq![':'] + b.drop_last());
        lemma_last_colon_concat(a, b.drop_last());
    }
}

/// Rendering a V4 address with its port and parsing the text again
/// yields the address: the renderer emits exactly the canonical form
/// the parser accepts.
pub proof fn lemma_text_round_trip_v4(a: u8, b: u8, c: u8, d: u8, port: u16)
    ensures
        spec_parse_host_port(spec_repr(AddressView::IP(IpAddress::V4(a, b, c, d), port)))
            == Some(AddressView::IP(IpAddress::V4(a, b, c, d), port)),
{
    let ca = spec_dec_chars(a as int);
    let cb = spec_dec_chars(b as int);
    let cc = spec_dec_chars(c as int);
    let cd = spec_dec_chars(d as int);
    let cp = spec_dec_chars(port as int);
    lemma_dec_chars_canonical(a as int);
    lemma_dec_chars_canonical(b as int);
    lemma_dec_chars_canonical(c as int);
    lemma_dec_chars_canonical(d as int);
    lemma_dec_chars_canonical(port as int);
    let host = spec_render_ipv4(a, b, c, d);
    let s = spec_repr(AddressView::IP(IpAddress::V4(a, b, c, d), port));
    assert(s =~= host + seq![':'] + cp);

    // The port substring holds no colon, so the final colon sits at
    // the end of the host part.
    assert forall|i: int| 0 <= i < cp.len() implies cp[i] != ':' by {
        assert(is_dec_digit(cp[i]));
    }
    lemma_last_colon_concat(host, cp);
    assert(last_colon_at(s) == host.len());
    assert(s.skip(host.len() as int) =~= seq![':'] + cp);
    assert(s.skip(host.len() + 1 as int) =~= cp);
    assert(spec_parse_port(cp) == Some(port));

    // The host part is the four octet fields with their dots.
    let e0 = ca.len() as int;
    let e1 = e0 + 1 + cb.len();
    let e2 = e1 + 1 + cc.len();
    let e3 = e2 + 1 + cd.len();
    assert(s.take(host.len() as int) =~= host);
    assert(host.len() == e3);
    assert forall|i: int| 0 <= i < e0 implies host[i] == ca[i] by {}
    assert(host[e0] == '.');
    assert forall|i: int| 0 <= i < cb.len() implies host[e0 + 1 + i] == cb[i] by {}
    assert(host[e1] == '.');
    assert forall|i: int| 0 <= i < cc.len() implies host[e1 + 1 + i] == cc[i] by {}
    assert(host[e2] == '.');
    assert forall|i: int| 0 <= i < cd.len() implies host[e2 + 1 + i] == cd[i] by {}

    // Digits never look like brackets, so nothing is stripped.
    assert(host[0] == ca[0]);
    assert(is_dec_digit(host[0]));
    assert(host[0] != '[');
    assert(spec_strip_brackets(host) == host);

    // Each digit run ends at its dot, and the last at the end.
    lemma_dec_run_end_of(host, 0, e0);
    lemma_dec_run_end_of(host, e0 + 1, e1);
    lemma_dec_run_end_of(host, e1 + 1, e2);
    lemma_dec_run_end_of(host, e2 + 1, e3);
    assert(host.subrange(0, e0) =~= ca);
    assert(host.subrange(e0 + 1, e1) =~= cb);
    assert(host.subrange(e1 + 1, e2) =~= cc);
    assert(host.subrange(e2 + 1, e3) =~= cd);
    assert(spec_valid_octet(ca));
    assert(spec_valid_octet(cb));
    assert(spec_valid_octet(cc));
    assert(spec_valid_octet(cd));
    assert(spec_parse_ipv4(host) == Some(IpAddress::V4(a, b, c, d)));
}

/// The canonical hexadecimal rendering is all hex digits and reads
/// back to its number.
proof fn lemma_hex_chars_canonical(n: int)
    requires
        n >= 0,
    ensures
        all_hex_digits(spec_hex_chars(n)),
        spec_hex_val(spec_hex_chars(n)) == n,
        spec_hex_chars(n).len() >= 1,
        n <= 0xf ==> spec_hex_chars(n).len() == 1,
        n <= 0xff ==> spec_hex_chars(n).len() <= 2,
        n <= 0xfff ==> spec_hex_chars(n).len() <= 3,
        n <= 0xffff ==> spec_hex_chars(n).len() <= 4,
    decreases n,
{
    if n < 16 {
        assert(spec_hex_val(seq![hex_char(n)].drop_last()) == 0) by {
            assert(seq![hex_char(n)].drop_last() =~= Seq::<char>::empty());
        }
    } else {
        lemma_hex_chars_canonical(n / 16);
        let head = spec_hex_chars(n / 16);
        let whole = head.push(hex_char(n % 16));
        assert(whole.drop_last() =~= head);
        assert forall|i: int| 0 <= i < whole.len() implies is_hex_digit(whole[i]) by {
            if i < head.len() {
                assert(whole[i] == head[i]);
            }
        }
    }
}

/// A hex run ends exactly where the hex digits end.
proof fn lemma_hex_run_end_of(s: Seq<char>, p: int, q: int)
    requires
        0 <= p <= q <= s.len(),
        forall|i: int| p <= i < q ==> is_hex_digit(s[i]),
        q < s.len() ==> !is_hex_digit(s[q]),
    ensures
        hex_run_end(s, p) == q,
    decreases q - p,
{
    if p < q {
        lemma_hex_run_end_of(s, p + 1, q);
    }
}

/// Every character of a rendered group list is a hex digit or a colon,
/// no two colons stand side by side, and the ends are hex digits.
proof fn lemma_render_groups_chars(g: Seq<u16>, from: int, to: int)
    requires
        0 <= from <= to <= g.len(),
    ensures
        from < to ==> spec_render_groups(g, from, to).len() >= 1,
        from < to ==> is_hex_digit(spec_render_groups(g, from, to)[0]),
        from < to ==> is_hex_digit(spec_render_groups(g, from, to).last()),
        forall|i: int|
            0 <= i < spec_render_groups(g, from, to).len() ==> (is_hex_digit(
                spec_render_groups(g, from, to)[i],
            ) || spec_render_groups(g, from, to)[i] == ':'),
        forall|i: int|
            0 <= i && i + 1 < spec_render_groups(g, from, to).len() ==> !(#[trigger] spec_render_groups(
                g,
                from,
                to,
            )[i] == ':' && spec_render_groups(g, from, to)[i + 1] == ':'),
    decreases to - from,
{
    let r = spec_render_groups(g, from, to);
    if from >= to {
    } else if from + 1 == to {
        lemma_hex_chars_canonical(g[from] as int);
    } else {
        let h = spec_hex_chars(g[from] as int);
        let rest = spec_render_groups(g, from + 1, to);
        lemma_hex_chars_canonical(g[from] as int);
        lemma_render_groups_chars(g, from + 1, to);
        assert(r =~= h + seq![':'] + rest);
        assert forall|i: int| 0 <= i < r.len() implies (is_hex_digit(r[i]) || r[i] == ':') by {
            if i < h.len() {
                assert(r[i] == h[i]);
            } else if i == h.len() {
                assert(r[i] == ':');
            } else {
                assert(r[i] == rest[i - h.len() - 1]);
            }
        }
        assert(r[0] == h[0]);
        assert(r.last() == rest.last());
        assert forall|i: int| 0 <= i && i + 1 < r.len() implies !(#[trigger] r[i] == ':' && r[i
            + 1] == ':') by {
            if i + 1 < h.len() {
                assert(r[i] == h[i]);
                assert(r[i + 1] == h[i + 1]);
            } else if i + 1 == h.len() {
                assert(r[i] == h[i]);
                assert(is_hex_digit(r[i]));
            } else if i == h.len() {
                assert(r[i + 1] == rest[0]);
                assert(is_hex_digit(r[i + 1]));
            } else {
                assert(r[i] == rest[i - h.len() - 1]);
                assert(r[i + 1] == rest[i - h.len()]);
            }
        }
    }
}

/// When the tail of `s` from `pos` on is exactly a rendered group
/// list, parsing groups at `pos` yields the group values back.
proof fn lemma_group_seq_parses_render(
    g: Seq<u16>,
    from: int,
    to: int,
    s: Seq<char>,
    pos: int,
    v4_tail: bool,
)
    requires
        0 <= from < to <= g.len(),
        0 <= pos <= s.len(),
        s.subrange(pos, s.len() as int) == spec_render_groups(g, from, to),
    ensures
        spec_group_seq(s, pos, v4_tail) == Some(g.subrange(from, to)),
    decreases to - from,
{
    let r = spec_render_groups(g, from, to);
    let h = spec_hex_chars(g[from] as int);
    lemma_hex_chars_canonical(g[from] as int);
    if from + 1 == to {
        assert(r =~= h);
        assert forall|i: int| pos <= i < s.len() implies is_hex_digit(s[i]) by {
            assert(s[i] == r[i - pos]);
        }
        lemma_hex_run_end_of(s, pos, s.len() as int);
        assert(s.subrange(pos, s.len() as int) =~= h);
        assert(spec_hex_val(s.subrange(pos, s.len() as int)) == g[from] as int);
        assert(seq![(g[from] as int) as u16] =~= g.subrange(from, to));
    } else {
        let rest = spec_render_groups(g, from + 1, to);
        lemma_render_groups_chars(g, from + 1, to);
        assert(r =~= h + seq![':'] + rest);
        let end = pos + h.len();
        assert forall|i: int| pos <= i < end implies is_hex_digit(s[i]) by {
            assert(s[i] == r[i - pos]);
            assert(r[i - pos] == h[i - pos]);
        }
        assert(s[end] == r[h.len() as int]);
        assert(s[end] == ':');
        assert(!is_hex_digit(s[end])) by {
            assert(':' as u32 == 58);
        }
        lemma_hex_run_end_of(s, pos, end);
        assert(s.subrange(pos, end) =~= h) by {
            assert forall|i: int| 0 <= i < h.len() implies s.subrange(pos, end)[i] == h[i] by {
                assert(s.subrange(pos, end)[i] == s[pos + i]);
                assert(s[pos + i] == r[i]);
                assert(r[i] == h[i]);
            }
        }
        assert(spec_hex_val(s.subrange(pos, end)) == g[from] as int);
        assert(s.subrange(end + 1, s.len() as int) =~= rest) by {
            assert forall|i: int| 0 <= i < rest.len() implies s.subrange(end + 1, s.len() as int)[i]
                == rest[i] by {
                assert(s.subrange(end + 1, s.len() as int)[i] == s[end + 1 + i]);
                assert(s[end + 1 + i] == r[h.len() + 1 + i]);
                assert(r[h.len() + 1 + i] == rest[i]);
            }
        }
        lemma_group_seq_parses_render(g, from + 1, to, s, end + 1, v4_tail);
        assert(seq![(g[from] as int) as u16] + g.subrange(from + 1, to) =~= g.subrange(from, to));
    }
}

/// The zero run at `i` really is one: its groups are zero, and it is
/// not part of a longer one.
proof fn lemma_zero_run_is_zero(g: Seq<u16>, i: int)
    requires
        0 <= i <= g.len(),
    ensures
        0 <= zero_run_len(g, i),
        i + zero_run_len(g, i) <= g.len(),
        forall|k: int| i <= k < i + zero_run_len(g, i) ==> g[k] == 0,
    decreases g.len() - i,
{
    if i < g.len() && g[i] == 0 {
        lemma_zero_run_is_zero(g, i + 1);
    }
}

/// The best zero run starts within bounds and has its stated length.
proof fn lemma_best_zero_run_bounds(g: Seq<u16>, i: int)
    requires
        0 <= i <= g.len(),
    ensures
        i <= best_zero_run(g, i).0 <= g.len(),
        best_zero_run(g, i).1 == zero_run_len(g, best_zero_run(g, i).0),
    decreases g.len() - i,
{
    if i < g.len() {
        lemma_best_zero_run_bounds(g, i + 1);
    }
}

/// The first double colon is where the first pair of adjacent colons
/// stands.
proof fn lemma_double_colon_first(s: Seq<char>, p: int, dc: int)
    requires
        0 <= p <= dc,
        dc + 2 <= s.len(),
        s[dc] == ':' && s[dc + 1] == ':',
        forall|i: int| p <= i < dc ==> !(#[trigger] s[i] == ':' && s[i + 1] == ':'),
    ensures
        double_colon_at(s, p) == dc,
    decreases dc - p,
{
    if p < dc {
        lemma_double_colon_first(s, p + 1, dc);
    }
}

/// Without a pair of adjacent colons there is no double colon to find.
proof fn lemma_no_double_colon(s: Seq<char>, p: int)
    requires
        0 <= p,
        forall|i: int| p <= i && i + 2 <= s.len() ==> !(#[trigger] s[i] == ':' && s[i + 1] == ':'),
    ensures
        double_colon_at(s, p) < 0,
    decreases s.len() - p,
{
    if p + 2 <= s.len() {
        lemma_no_double_colon(s, p + 1);
    }
}

/// Every character of a rendered V6 address is a hex digit or a
/// colon, and there are at least two of them.
proof fn lemma_render_ipv6_chars(g: Seq<u16>)
    requires
        g.len() == 8,
    ensures
        spec_render_ipv6(g).len() >= 2,
        forall|i: int|
            0 <= i < spec_render_ipv6(g).len() ==> (is_hex_digit(#[trigger] spec_render_ipv6(g)[i])
                || spec_render_ipv6(g)[i] == ':'),
{
    let inner = spec_render_ipv6(g);
    let run = best_zero_run(g, 0);
    let bs = run.0;
    let bl = run.1;
    lemma_best_zero_run_bounds(g, 0);
    lemma_zero_run_is_zero(g, bs);
    let left = spec_render_groups(g, 0, bs);
    let right = spec_render_groups(g, bs + bl, 8);
    lemma_render_groups_chars(g, 0, bs);
    lemma_render_groups_chars(g, bs + bl, 8);
    lemma_render_groups_chars(g, 0, 8);
    if bl >= 2 {
        assert(inner =~= left + seq![':', ':'] + right);
        assert forall|i: int| 0 <= i < inner.len() implies (is_hex_digit(#[trigger] inner[i])
            || inner[i] == ':') by {
            if i < left.len() {
                assert(inner[i] == left[i]);
            } else if i <= left.len() + 1 {
                assert(inner[i] == ':');
            } else {
                assert(inner[i] == right[i - left.len() - 2]);
            }
        }
    }
}

/// A rendered V6 address has no dotted-decimal reading: it holds no
/// dot at all.
proof fn lemma_render_ipv6_not_v4(g: Seq<u16>)
    requires
        g.len() == 8,
    ensures
        spec_parse_ipv4(spec_render_ipv6(g)) is None,
{
    let inner = spec_render_ipv6(g);
    lemma_render_ipv6_chars(g);
    lemma_dec_run_end_bounds(inner, 0);
    let e0 = dec_run_end(inner, 0);
    if e0 < inner.len() {
        assert(inner[e0] != '.') by {
            assert('.' as u32 == 46);
            assert(is_hex_digit(inner[e0]) || inner[e0] == ':');
        }
    }
}

/// Parsing a rendered V6 address yields the groups back when the
/// renderer compressed a zero run.
proof fn lemma_render_ipv6_parses_compressed(g: Seq<u16>)
    requires
        g.len() == 8,
        best_zero_run(g, 0).1 >= 2,
    ensures
        spec_parse_ipv6(spec_render_ipv6(g)) == Some(spec_v6_from_groups(g)),
{
    let inner = spec_render_ipv6(g);
    let run = best_zero_run(g, 0);
    let bs = run.0;
    let bl = run.1;
    lemma_best_zero_run_bounds(g, 0);
    lemma_zero_run_is_zero(g, bs);
    let left = spec_render_groups(g, 0, bs);
    let right = spec_render_groups(g, bs + bl, 8);
    lemma_render_groups_chars(g, 0, bs);
    lemma_render_groups_chars(g, bs + bl, 8);
    assert(inner =~= left + seq![':', ':'] + right);
    assert(inner[left.len() as int] == ':');
    assert(inner[(left.len() + 1) as int] == ':');
    assert forall|i: int| 0 <= i < left.len() implies !(#[trigger] inner[i] == ':' && inner[i + 1]
        == ':') by {
        if i + 1 < left.len() {
            assert(inner[i] == left[i]);
            assert(inner[i + 1] == left[i + 1]);
        } else {
            assert(i + 1 == left.len());
            assert(inner[i] == left[i]);
            assert(left[i] == left.last());
            assert(is_hex_digit(inner[i]));
        }
    }
    lemma_double_colon_first(inner, 0, left.len() as int);
    assert(inner.take(left.len() as int) =~= left);
    assert(inner.skip((left.len() + 2) as int) =~= right);
    if bs > 0 {
        assert(left.subrange(0, left.len() as int) =~= left);
        lemma_group_seq_parses_render(g, 0, bs, left, 0, false);
    } else {
        assert(left.len() == 0);
    }
    if bs + bl < 8 {
        assert(right.subrange(0, right.len() as int) =~= right);
        lemma_group_seq_parses_render(g, bs + bl, 8, right, 0, true);
    } else {
        assert(right.len() == 0);
    }
    let l = if bs == 0 {
        Seq::<u16>::empty()
    } else {
        g.subrange(0, bs)
    };
    let t = if bs + bl == 8 {
        Seq::<u16>::empty()
    } else {
        g.subrange(bs + bl, 8)
    };
    assert(l + Seq::new((8 - l.len() - t.len()) as nat, |i: int| 0u16) + t =~= g);
}

/// Parsing a rendered V6 address yields the groups back when there was
/// no zero run worth compressing.
proof fn lemma_render_ipv6_parses_plain(g: Seq<u16>)
    requires
        g.len() == 8,
        best_zero_run(g, 0).1 < 2,
    ensures
        spec_parse_ipv6(spec_render_ipv6(g)) == Some(spec_v6_from_groups(g)),
{
    let inner = spec_render_ipv6(g);
    assert(inner == spec_render_groups(g, 0, 8));
    lemma_render_groups_chars(g, 0, 8);
    assert forall|i: int| 0 <= i && i + 2 <= inner.len() implies !(#[trigger] inner[i] == ':'
        && inner[i + 1] == ':') by {}
    lemma_no_double_colon(inner, 0);
    assert(inner.subrange(0, inner.len() as int) =~= inner);
    lemma_group_seq_parses_render(g, 0, 8, inner, 0, true);
    assert(g.subrange(0, 8) =~= g);
}

/// Rendering a V6 address with its port and parsing the text again
/// yields the address: the compressed form the renderer emits is among
/// the forms the parser accepts, and no V4 reading gets in the way.
pub proof fn lemma_text_round_trip_v6(
    g0: u16,
    g1: u16,
    g2: u16,
    g3: u16,
    g4: u16,
    g5: u16,
    g6: u16,
    g7: u16,
    port: u16,
)
    ensures
        spec_parse_host_port(
            spec_repr(AddressView::IP(IpAddress::V6(g0, g1, g2, g3, g4, g5, g6, g7), port)),
        ) == Some(AddressView::IP(IpAddress::V6(g0, g1, g2, g3, g4, g5, g6, g7), port)),
{
    let g = seq![g0, g1, g2, g3, g4, g5, g6, g7];
    let inner = spec_render_ipv6(g);
    let cp = spec_dec_chars(port as int);
    lemma_dec_chars_canonical(port as int);
    lemma_render_ipv6_chars(g);
    let host = seq!['['] + inner + seq![']'];
    let s = spec_repr(AddressView::IP(IpAddress::V6(g0, g1, g2, g3, g4, g5, g6, g7), port));
    assert(s =~= host + seq![':'] + cp);

    // The final colon is the one in front of the port.
    assert forall|i: int| 0 <= i < cp.len() implies cp[i] != ':' by {
        assert(is_dec_digit(cp[i]));
    }
    lemma_last_colon_concat(host, cp);
    assert(last_colon_at(s) == host.len());
    assert(s.skip((host.len() + 1) as int) =~= cp);
    assert(spec_parse_port(cp) == Some(port));
    assert(s.take(host.len() as int) =~= host);

    // The brackets come off, and only the V6 reading goes through.
    assert(host[0] == '[');
    assert(host.last() == ']');
    assert(spec_strip_brackets(host) =~= inner);
    assert(spec_strip_brackets(host) == inner);
    lemma_render_ipv6_not_v4(g);
    if best_zero_run(g, 0).1 >= 2 {
        lemma_render_ipv6_parses_compressed(g);
    } else {
        lemma_render_ipv6_parses_plain(g);
    }
    assert(spec_v6_from_groups(g) == IpAddress::V6(g0, g1, g2, g3, g4, g5, g6, g7));
}

/// Rendering a domain name with its port and parsing the text again
/// yields the address, for a name that none of the other readings
/// claims: one with no colon, not of the bracketed shape, and not
/// parseable as a V4 or V6 address.
pub proof fn lemma_text_round_trip_domain(name: Seq<char>, port: u16)
    requires
        forall|i: int| 0 <= i < name.len() ==> name[i] != ':',
        !(name.len() >= 2 && name[0] == '[' && name.last() == ']'),
        spec_parse_ipv4(name) is None,
        spec_parse_ipv6(name) is None,
    ensures
        spec_parse_host_port(spec_repr(AddressView::Domain(name, port))) == Some(
            AddressView::Domain(name, port),
        ),
{
    let cp = spec_dec_chars(port as int);
    lemma_dec_chars_canonical(port as int);
    let s = spec_repr(AddressView::Domain(name, port));
    assert(s =~= name + seq![':'] + cp);
    assert forall|i: int| 0 <= i < cp.len() implies cp[i] != ':' by {
        assert(is_dec_digit(cp[i]));
    }
    lemma_last_colon_concat(name, cp);
    assert(last_colon_at(s) == name.len());
    assert(s.skip((name.len() + 1) as int) =~= cp);
    assert(spec_parse_port(cp) == Some(port));
    assert(s.take(name.len() as int) =~= name);
    assert(spec_strip_brackets(name) == name);
}

} // verus!
