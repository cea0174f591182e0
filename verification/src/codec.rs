//! Byte-level building blocks of the wire and storage format: big-endian
//! integers and length-prefixed byte strings, with exact specifications of
//! both the encoder and the parser.

use vstd::prelude::*;
use vstd::string::StringSliceAdditionalSpecFns;

verus! {

/// The failure of a decoder on malformed or truncated input.
#[derive(Clone, Copy, Debug, PartialEq, Eq, Structural)]
pub enum DecodeError {
    Malformed,
}

/// A fresh copy of a byte string.
pub fn clone_bytes(v: &[u8]) -> (r: Vec<u8>)
    ensures
        r@ == v@,
{
    let mut out: Vec<u8> = Vec::new();
    push_bytes(&mut out, v);
    out
}

/// Whether two byte strings hold the same bytes.
pub fn eq_bytes(a: &[u8], b: &[u8]) -> (r: bool)
    ensures
        r == (a@ == b@),
{
    if a.len() != b.len() {
        proof {
            assert(a@ != b@);
        }
        return false;
    }
    let mut i: usize = 0;
    while i < a.len()
        invariant
            i <= a@.len(),
            a@.len() == b@.len(),
            forall|j: int| 0 <= j < i ==> a@[j] == b@[j],
        decreases a@.len() - i,
    {
        if a[i] != b[i] {
            proof {
                assert(a@ != b@);
            }
            return false;
        }
        i += 1;
    }
    proof {
        assert(a@ =~= b@);
    }
    true
}

/// Whether two strings hold the same characters, decided on their bytes.
pub fn eq_str(a: &str, b: &str) -> (r: bool)
    ensures
        r == (a@ == b@),
{
    let r = eq_bytes(a.as_bytes(), b.as_bytes());
    proof {
        if a.spec_bytes() == b.spec_bytes() {
            vstd::utf8::encode_utf8_decode_utf8(a@);
            vstd::utf8::encode_utf8_decode_utf8(b@);
        }
    }
    r
}

/// The eight bytes of `x`, most significant first.
pub open spec fn u64_be_bytes(x: u64) -> Seq<u8> {
    seq![
        ((x >> 56) & 0xff) as u8,
        ((x >> 48) & 0xff) as u8,
        ((x >> 40) & 0xff) as u8,
        ((x >> 32) & 0xff) as u8,
        ((x >> 24) & 0xff) as u8,
        ((x >> 16) & 0xff) as u8,
        ((x >> 8) & 0xff) as u8,
        (x & 0xff) as u8,
    ]
}

/// The integer read from eight bytes, most significant first.
pub open spec fn u64_from_be_bytes(s: Seq<u8>) -> u64
    recommends
        s.len() == 8,
{
    ((s[0] as u64) << 56 | (s[1] as u64) << 48 | (s[2] as u64) << 40 | (s[3] as u64) << 32 | (
    s[4] as u64) << 24 | (s[5] as u64) << 16 | (s[6] as u64) << 8 | (s[7] as u64)) as u64
}

/// Reading back the eight bytes of an integer yields the integer.
pub proof fn lemma_u64_be_round_trip(x: u64)
    ensures
        u64_from_be_bytes(u64_be_bytes(x)) == x,
{
    let s = u64_be_bytes(x);
    assert(((((x >> 56) & 0xff) as u8) as u64) << 56 | ((((x >> 48) & 0xff) as u8) as u64) << 48
        | ((((x >> 40) & 0xff) as u8) as u64) << 40 | ((((x >> 32) & 0xff) as u8) as u64) << 32
        | ((((x >> 24) & 0xff) as u8) as u64) << 24 | ((((x >> 16) & 0xff) as u8) as u64) << 16
        | ((((x >> 8) & 0xff) as u8) as u64) << 8 | (((x & 0xff) as u8) as u64) == x)
        by (bit_vector);
}

/// Appends the eight big-endian bytes of `x` to `out`.
pub fn push_u64_be(out: &mut Vec<u8>, x: u64)
    ensures
        final(out)@ == old(out)@ + u64_be_bytes(x),
{
    proof {
        assert((x >> 56) & 0xff < 256 && (x >> 48) & 0xff < 256 && (x >> 40) & 0xff < 256 && (x
            >> 32) & 0xff < 256 && (x >> 24) & 0xff < 256 && (x >> 16) & 0xff < 256 && (x >> 8)
            & 0xff < 256 && x & 0xff < 256) by (bit_vector);
    }
    out.push(((x >> 56) & 0xff) as u8);
    out.push(((x >> 48) & 0xff) as u8);
    out.push(((x >> 40) & 0xff) as u8);
    out.push(((x >> 32) & 0xff) as u8);
    out.push(((x >> 24) & 0xff) as u8);
    out.push(((x >> 16) & 0xff) as u8);
    out.push(((x >> 8) & 0xff) as u8);
    out.push((x & 0xff) as u8);
    proof {
        assert(final(out)@ =~= old(out)@ + u64_be_bytes(x));
    }
}

/// Reads the big-endian integer stored at `off`.
pub fn read_u64_be(raw: &[u8], off: usize) -> (r: u64)
    requires
        off + 8 <= raw@.len(),
    ensures
        r == u64_from_be_bytes(raw@.subrange(off as int, off as int + 8)),
{
    let r = (raw[off] as u64) << 56 | (raw[off + 1] as u64) << 48 | (raw[off + 2] as u64) << 40
        | (raw[off + 3] as u64) << 32 | (raw[off + 4] as u64) << 24 | (raw[off + 5] as u64) << 16
        | (raw[off + 6] as u64) << 8 | (raw[off + 7] as u64);
    proof {
        let s = raw@.subrange(off as int, off as int + 8);
        assert(s[0] == raw@[off as int] && s[1] == raw@[off as int + 1] && s[2] == raw@[off as int
            + 2] && s[3] == raw@[off as int + 3] && s[4] == raw@[off as int + 4] && s[5] == raw@[
        off as int + 5] && s[6] == raw@[off as int + 6] && s[7] == raw@[off as int + 7]);
    }
    r
}

/// A byte string prefixed by its length as a big-endian integer.
pub open spec fn enc_bytes(b: Seq<u8>) -> Seq<u8>
    recommends
        b.len() <= u64::MAX,
{
    u64_be_bytes(b.len() as u64) + b
}

/// Parses a length-prefixed byte string at `off`: the bytes read and the
/// offset just past them, or nothing if the input is truncated.
pub open spec fn parse_bytes_at(s: Seq<u8>, off: int) -> Option<(Seq<u8>, int)> {
    if off + 8 <= s.len() {
        let n = u64_from_be_bytes(s.subrange(off, off + 8)) as int;
        if off + 8 + n <= s.len() {
            Some((s.subrange(off + 8, off + 8 + n), off + 8 + n))
        } else {
            None
        }
    } else {
        None
    }
}

/// A length-prefixed field is parsed back exactly, wherever it stands.
pub proof fn lemma_parse_bytes_at_enc(s: Seq<u8>, off: int, b: Seq<u8>)
    requires
        0 <= off,
        b.len() <= u64::MAX,
        s.subrange(off, off + 8 + b.len()) == enc_bytes(b),
        off + 8 + b.len() <= s.len(),
    ensures
        parse_bytes_at(s, off) == Some((b, off + 8 + b.len() as int)),
{
    lemma_u64_be_round_trip(b.len() as u64);
    assert(s.subrange(off, off + 8) =~= enc_bytes(b).subrange(0, 8));
    assert(enc_bytes(b).subrange(0, 8) =~= u64_be_bytes(b.len() as u64));
    assert(u64_from_be_bytes(s.subrange(off, off + 8)) == b.len() as u64);
    assert(s.subrange(off + 8, off + 8 + b.len()) =~= enc_bytes(b).subrange(8, 8 + b.len() as int));
    assert(enc_bytes(b).subrange(8, 8 + b.len() as int) =~= b);
}

/// Parses a big-endian integer at `off`, or nothing if fewer than eight
/// bytes remain.
pub open spec fn parse_u64_at(s: Seq<u8>, off: int) -> Option<(u64, int)> {
    if off + 8 <= s.len() {
        Some((u64_from_be_bytes(s.subrange(off, off + 8)), off + 8))
    } else {
        None
    }
}

/// An integer written in big-endian is parsed back exactly, wherever it
/// stands.
pub proof fn lemma_parse_u64_at_enc(s: Seq<u8>, off: int, x: u64)
    requires
        0 <= off,
        off + 8 <= s.len(),
        s.subrange(off, off + 8) == u64_be_bytes(x),
    ensures
        parse_u64_at(s, off) == Some((x, off + 8)),
{
    lemma_u64_be_round_trip(x);
}

/// Reads the big-endian integer at `off`, exactly as the parser
/// specification says.
pub fn read_u64_field(raw: &[u8], off: usize) -> (r: Option<(u64, usize)>)
    requires
        off <= raw@.len(),
    ensures
        (match parse_u64_at(raw@, off as int) {
            Some(p) => r matches Some(q) && q.0 == p.0 && q.1 == p.1,
            None => r is None,
        }),
{
    if raw.len() - off < 8 {
        return None;
    }
    Some((read_u64_be(raw, off), off + 8))
}

/// Appends the bytes of `b` to `out`.
pub fn push_bytes(out: &mut Vec<u8>, b: &[u8])
    ensures
        final(out)@ == old(out)@ + b@,
{
    let mut i: usize = 0;
    while i < b.len()
        invariant
            i <= b@.len(),
            out@ == old(out)@ + b@.subrange(0, i as int),
        decreases b@.len() - i,
    {
        out.push(b[i]);
        i += 1;
        proof {
            assert(out@ =~= old(out)@ + b@.subrange(0, i as int));
        }
    }
    proof {
        assert(old(out)@ + b@.subrange(0, b@.len() as int) =~= old(out)@ + b@);
    }
}

/// Appends a length-prefixed field holding the bytes of `b`.
pub fn push_bytes_field(out: &mut Vec<u8>, b: &[u8])
    ensures
        final(out)@ == old(out)@ + enc_bytes(b@),
{
    push_u64_be(out, b.len() as u64);
    push_bytes(out, b);
    proof {
        assert(final(out)@ =~= old(out)@ + enc_bytes(b@));
    }
}

/// Reads the length-prefixed field at `off`, exactly as the parser
/// specification says.
pub fn read_bytes_field(raw: &[u8], off: usize) -> (r: Option<(Vec<u8>, usize)>)
    requires
        off <= raw@.len(),
    ensures
        (match parse_bytes_at(raw@, off as int) {
            Some(p) => r matches Some(q) && q.0@ == p.0 && q.1 == p.1,
            None => r is None,
        }),
{
    if raw.len() - off < 8 {
        return None;
    }
    let n = read_u64_be(raw, off);
    let body = off + 8;
    let rem: u64 = (raw.len() - body) as u64;
    if n > rem {
        return None;
    }
    let n_us = n as usize;
    let mut v: Vec<u8> = Vec::new();
    let mut i: usize = 0;
    while i < n_us
        invariant
            i <= n_us,
            body + n_us <= raw@.len(),
            raw@.len() <= usize::MAX,
            v@ == raw@.subrange(body as int, body as int + i as int),
        decreases n_us - i,
    {
        v.push(raw[body + i]);
        i += 1;
        proof {
            assert(v@ =~= raw@.subrange(body as int, body as int + i as int));
        }
    }
    Some((v, body + n_us))
}

} // verus!
