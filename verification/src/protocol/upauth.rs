//! The username/password request of RFC 1929:
//! `VER | ULEN | UNAME | PLEN | PASSWD`.

use vstd::prelude::*;
use vstd::string::StrSliceExecFns;
use vstd::utf8::decode_utf8;
use vstd::utf8::encode_utf8;
use vstd::utf8::encode_utf8_decode_utf8;
use vstd::utf8::valid_utf8;

use crate::error::ProtocolError;
use crate::protocol::addr::string_from_utf8;

verus! {

/// The mathematical value of a [`UsernamePasswordAuth`]: the two text
/// fields as character sequences.
pub struct UsernamePasswordAuthView {
    pub uname: Seq<char>,
    pub passwd: Seq<char>,
}

/// The credentials a client supplies during the RFC 1929
/// subnegotiation: a username and a password of 1 to 255 octets each.
#[derive(Debug, Clone)]
pub struct UsernamePasswordAuth {
    usr: String,
    pwd: String,
}

impl View for UsernamePasswordAuth {
    type V = UsernamePasswordAuthView;

    closed spec fn view(&self) -> UsernamePasswordAuthView {
        UsernamePasswordAuthView { uname: self.usr@, passwd: self.pwd@ }
    }
}

/// The wire form of one length-prefixed text field: the octet count,
/// then that many octets of UTF-8.
pub open spec fn spec_text_bytes(s: Seq<char>) -> Seq<u8> {
    seq![encode_utf8(s).len() as u8] + encode_utf8(s)
}

/// Decode one length-prefixed text field at `pos`.
pub open spec fn spec_read_text(bytes: Seq<u8>, pos: int) -> Result<
    (Seq<char>, int),
    ProtocolError,
> {
    if pos + 1 > bytes.len() {
        Err(ProtocolError::ShortRead)
    } else if pos + 1 + bytes[pos] > bytes.len() {
        Err(ProtocolError::ShortRead)
    } else if valid_utf8(bytes.subrange(pos + 1, pos + 1 + bytes[pos])) {
        Ok((decode_utf8(bytes.subrange(pos + 1, pos + 1 + bytes[pos])), pos + 1 + bytes[pos]))
    } else {
        Err(ProtocolError::BadUtf8Hostname)
    }
}

/// Append one length-prefixed text field to `out`.
fn push_text_field(out: &mut Vec<u8>, s: &str)
    requires
        encode_utf8(s@).len() <= 255,
    ensures
        final(out)@ == old(out)@ + spec_text_bytes(s@),
{
    let field_bytes = s.as_bytes_vec();
    out.push(field_bytes.len() as u8);
    let mut i: usize = 0;
    while i < field_bytes.len()
        invariant
            i <= field_bytes@.len(),
            field_bytes@ == encode_utf8(s@),
            out@ == old(out)@ + seq![(field_bytes@.len() as u8)] + field_bytes@.subrange(
                0,
                i as int,
            ),
        decreases field_bytes@.len() - i,
    {
        out.push(field_bytes[i]);
        i = i + 1;
        proof {
            assert(out@ =~= old(out)@ + seq![(field_bytes@.len() as u8)]
                + field_bytes@.subrange(0, i as int));
        }
    }
    proof {
        assert(out@ =~= old(out)@ + spec_text_bytes(s@));
    }
}

/// Read one length-prefixed text field at `pos`.
fn read_text_field(buf: &Vec<u8>, pos: usize) -> (r: Result<(String, usize), ProtocolError>)
    ensures
        match r {
            Ok((s, end)) => spec_read_text(buf@, pos as int) == Ok::<_, ProtocolError>(
                (s@, end as int),
            ),
            Err(e) => spec_read_text(buf@, pos as int) == Err::<(Seq<char>, int), _>(e),
        },
{
    if buf.len() < 1 || pos > buf.len() - 1 {
        return Err(ProtocolError::ShortRead);
    }
    let n = buf[pos] as usize;
    if buf.len() < n + 1 || pos > buf.len() - n - 1 {
        return Err(ProtocolError::ShortRead);
    }
    let mut field_bytes: Vec<u8> = Vec::new();
    let mut i: usize = 0;
    proof {
        assert(buf@.len() <= usize::MAX);
    }
    while i < n
        invariant
            i <= n,
            pos + 1 + n <= buf@.len(),
            buf@.len() <= usize::MAX,
            field_bytes@ == buf@.subrange(pos + 1, pos + 1 + i),
        decreases n - i,
    {
        field_bytes.push(buf[pos + 1 + i]);
        i = i + 1;
        proof {
            assert(field_bytes@ =~= buf@.subrange(pos + 1, pos + 1 + i));
        }
    }
    match string_from_utf8(field_bytes) {
        None => Err(ProtocolError::BadUtf8Hostname),
        Some(s) => {
            proof {
                encode_utf8_decode_utf8(s@);
            }
            Ok((s, pos + 1 + n))
        },
    }
}

impl UsernamePasswordAuth {
    /// Each text field must occupy between 1 and 255 octets of UTF-8.
    pub open spec fn spec_wf(v: UsernamePasswordAuthView) -> bool {
        &&& 1 <= encode_utf8(v.uname).len() <= 255
        &&& 1 <= encode_utf8(v.passwd).len() <= 255
    }

    /// The wire form: the subnegotiation version, then the two
    /// length-prefixed text fields.
    pub open spec fn spec_bytes(v: UsernamePasswordAuthView) -> Seq<u8> {
        seq![crate::AUTH_VERSION] + spec_text_bytes(v.uname) + spec_text_bytes(v.passwd)
    }

    /// Decode a credentials message at `pos`: the version octet, which
    /// must be the subnegotiation version, then username and password.
    pub open spec fn spec_decode(bytes: Seq<u8>, pos: int) -> Result<
        (UsernamePasswordAuthView, int),
        ProtocolError,
    > {
        if pos + 1 > bytes.len() {
            Err(ProtocolError::ShortRead)
        } else if bytes[pos] != crate::AUTH_VERSION {
            Err(ProtocolError::UnsupportedVersion(bytes[pos]))
        } else {
            match spec_read_text(bytes, pos + 1) {
                Err(e) => Err(e),
                Ok((uname, upos)) => match spec_read_text(bytes, upos) {
                    Err(e) => Err(e),
                    Ok((passwd, end)) => Ok(
                        (UsernamePasswordAuthView { uname, passwd }, end),
                    ),
                },
            }
        }
    }

    /// Wrap a username and password.
    pub fn new(uname: &str, passwd: &str) -> (r: UsernamePasswordAuth)
        ensures
            r@.uname == uname@,
            r@.passwd == passwd@,
    {
        UsernamePasswordAuth { usr: uname.to_owned(), pwd: passwd.to_owned() }
    }

    /// The username.
    pub fn uname(&self) -> (r: String)
        ensures
            r@ == self@.uname,
    {
        self.usr.clone()
    }

    /// The password.
    pub fn passwd(&self) -> (r: String)
        ensures
            r@ == self@.passwd,
    {
        self.pwd.clone()
    }

    /// Serialize the credentials: `VER | ULEN | UNAME | PLEN | PASSWD`.
    pub fn as_bytes(&self) -> (r: Vec<u8>)
        requires
            UsernamePasswordAuth::spec_wf(self@),
        ensures
            r@ == UsernamePasswordAuth::spec_bytes(self@),
    {
        let mut ret: Vec<u8> = Vec::new();
        ret.push(crate::AUTH_VERSION);
        push_text_field(&mut ret, self.usr.as_str());
        push_text_field(&mut ret, self.pwd.as_str());
        proof {
            assert(ret@ =~= UsernamePasswordAuth::spec_bytes(self@));
        }
        ret
    }

    /// Decode a credentials message at `pos`.
    pub fn from_socks_bytes(buf: &Vec<u8>, pos: usize) -> (r: Result<
        (UsernamePasswordAuth, usize),
        ProtocolError,
    >)
        ensures
            match r {
                Ok((m, end)) => UsernamePasswordAuth::spec_decode(buf@, pos as int) == Ok::<
                    _,
                    ProtocolError,
                >((m@, end as int)),
                Err(e) => UsernamePasswordAuth::spec_decode(buf@, pos as int) == Err::<
                    (UsernamePasswordAuthView, int),
                    _,
                >(e),
            },
    {
        if buf.len() < 1 || pos > buf.len() - 1 {
            return Err(ProtocolError::ShortRead);
        }
        let ver = buf[pos];
        if ver != crate::AUTH_VERSION {
            return Err(ProtocolError::UnsupportedVersion(ver));
        }
        let (usr, upos) = match read_text_field(buf, pos + 1) {
            Err(e) => {
                return Err(e);
            },
            Ok(x) => x,
        };
        let (pwd, end) = match read_text_field(buf, upos) {
            Err(e) => {
                return Err(e);
            },
            Ok(x) => x,
        };
        Ok((UsernamePasswordAuth { usr, pwd }, end))
    }
}

/// Decoding serialized credentials out of any enclosing buffer yields
/// the username and password again, and consumes exactly the
/// serialized length.
pub proof fn lemma_username_password_auth_round_trip(
    v: UsernamePasswordAuthView,
    bytes: Seq<u8>,
    pos: int,
)
    requires
        UsernamePasswordAuth::spec_wf(v),
        0 <= pos,
        pos + UsernamePasswordAuth::spec_bytes(v).len() <= bytes.len(),
        bytes.subrange(pos, pos + UsernamePasswordAuth::spec_bytes(v).len())
            == UsernamePasswordAuth::spec_bytes(v),
    ensures
        UsernamePasswordAuth::spec_decode(bytes, pos) == Ok::<_, ProtocolError>(
            (v, pos + UsernamePasswordAuth::spec_bytes(v).len()),
        ),
{
    let ulen = encode_utf8(v.uname).len() as int;
    let plen = encode_utf8(v.passwd).len() as int;
    let total = 3 + ulen + plen;
    let sub = bytes.subrange(pos, pos + total);
    assert(UsernamePasswordAuth::spec_bytes(v).len() == total);
    assert forall|k: int| 0 <= k < total implies bytes[pos + k] == sub[k] by {}
    assert(sub[0] == crate::AUTH_VERSION);
    assert(bytes[pos] == sub[0]);

    assert(sub[1] == ulen as u8);
    assert(bytes[pos + 1] == sub[1]);
    assert(bytes[pos + 1] as int == ulen);
    assert forall|k: int| 0 <= k < ulen implies bytes.subrange(pos + 2, pos + 2 + ulen)[k]
        == encode_utf8(v.uname)[k] by {
        assert(bytes.subrange(pos + 2, pos + 2 + ulen)[k] == bytes[pos + 2 + k]);
        assert(sub[2 + k] == encode_utf8(v.uname)[k]);
    }
    assert(bytes.subrange(pos + 2, pos + 2 + ulen) =~= encode_utf8(v.uname));
    vstd::utf8::encode_utf8_valid_utf8(v.uname);
    vstd::utf8::encode_utf8_decode_utf8(v.uname);
    assert(spec_read_text(bytes, pos + 1) == Ok::<_, ProtocolError>((v.uname, pos + 2 + ulen)));

    let p2 = pos + 2 + ulen;
    assert(sub[2 + ulen] == plen as u8);
    assert(bytes[p2] == sub[2 + ulen]);
    assert(bytes[p2] as int == plen);
    assert forall|k: int| 0 <= k < plen implies bytes.subrange(p2 + 1, p2 + 1 + plen)[k]
        == encode_utf8(v.passwd)[k] by {
        assert(bytes.subrange(p2 + 1, p2 + 1 + plen)[k] == bytes[p2 + 1 + k]);
        assert(sub[3 + ulen + k] == encode_utf8(v.passwd)[k]);
    }
    assert(bytes.subrange(p2 + 1, p2 + 1 + plen) =~= encode_utf8(v.passwd));
    vstd::utf8::encode_utf8_valid_utf8(v.passwd);
    vstd::utf8::encode_utf8_decode_utf8(v.passwd);
    assert(spec_read_text(bytes, p2) == Ok::<_, ProtocolError>((v.passwd, p2 + 1 + plen)));
}

} // verus!
