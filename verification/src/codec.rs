//! Byte-level primitives of the wire format: fixed-width little-endian
//! integers and length-prefixed UTF-8 strings. Every payload of the protocol
//! is built from these two shapes.

use vstd::prelude::*;
use vstd::utf8::{encode_utf8, decode_utf8, valid_utf8};

verus! {

broadcast use vstd::utf8::encode_utf8_valid_utf8, vstd::utf8::encode_utf8_decode_utf8;

/// The bytes of `v`, least significant first.
pub open spec fn enc_u64(v: u64) -> Seq<u8> {
    seq![
        v as u8,
        (v >> 8) as u8,
        (v >> 16) as u8,
        (v >> 24) as u8,
        (v >> 32) as u8,
        (v >> 40) as u8,
        (v >> 48) as u8,
        (v >> 56) as u8,
    ]
}

/// The integer whose eight little-endian bytes start at `pos`.
pub open spec fn dec_u64_at(b: Seq<u8>, pos: int) -> u64
    recommends
        0 <= pos,
        pos + 8 <= b.len(),
{
    (b[pos] as u64) | ((b[pos + 1] as u64) << 8) | ((b[pos + 2] as u64) << 16) | ((b[pos + 3]
        as u64) << 24) | ((b[pos + 4] as u64) << 32) | ((b[pos + 5] as u64) << 40) | ((b[pos + 6]
        as u64) << 48) | ((b[pos + 7] as u64) << 56)
}

/// The byte range starting at `pos` in `b` is exactly `e`.
pub open spec fn bytes_at(b: Seq<u8>, pos: int, e: Seq<u8>) -> bool {
    &&& 0 <= pos
    &&& pos + e.len() <= b.len()
    &&& b.subrange(pos, pos + e.len()) == e
}

/// A concatenation laid down at `pos` puts its first part at `pos` and its
/// second right after.
pub proof fn lemma_bytes_at_split(b: Seq<u8>, pos: int, e1: Seq<u8>, e2: Seq<u8>)
    requires
        bytes_at(b, pos, e1 + e2),
    ensures
        bytes_at(b, pos, e1),
        bytes_at(b, pos + e1.len(), e2),
{
    let e = e1 + e2;
    assert(b.subrange(pos, pos + e1.len()) =~= e1) by {
        assert forall|i: int| 0 <= i < e1.len() implies b.subrange(pos, pos + e1.len())[i]
            == e1[i] by {
            assert(b.subrange(pos, pos + e.len())[i] == b[pos + i]);
            assert(e[i] == e1[i]);
        }
    }
    assert(b.subrange(pos + e1.len(), pos + e.len()) =~= e2) by {
        assert forall|i: int| 0 <= i < e2.len() implies b.subrange(
            pos + e1.len(),
            pos + e.len(),
        )[i] == e2[i] by {
            assert(b.subrange(pos, pos + e.len())[e1.len() + i] == b[pos + e1.len() + i]);
            assert(e[e1.len() + i] == e2[i]);
        }
    }
}

/// The first byte of a range laid down at `pos` stands at `pos`.
pub proof fn lemma_bytes_at_first(b: Seq<u8>, pos: int, e: Seq<u8>)
    requires
        bytes_at(b, pos, e),
        e.len() > 0,
    ensures
        pos < b.len(),
        b[pos] == e[0],
{
    assert(b.subrange(pos, pos + e.len())[0] == b[pos]);
}

/// Reading eight bytes where an encoded integer was written yields that
/// integer back.
pub proof fn lemma_dec_enc_u64(b: Seq<u8>, pos: int, v: u64)
    requires
        bytes_at(b, pos, enc_u64(v)),
    ensures
        pos + 8 <= b.len(),
        dec_u64_at(b, pos) == v,
{
    let e = enc_u64(v);
    assert(e.len() == 8);
    assert forall|i: int| 0 <= i < 8 implies b[pos + i] == e[i] by {
        assert(b.subrange(pos, pos + 8)[i] == b[pos + i]);
    }
    let b0 = b[pos];
    let b1 = b[pos + 1];
    let b2 = b[pos + 2];
    let b3 = b[pos + 3];
    let b4 = b[pos + 4];
    let b5 = b[pos + 5];
    let b6 = b[pos + 6];
    let b7 = b[pos + 7];
    assert((b0 as u64) | ((b1 as u64) << 8) | ((b2 as u64) << 16) | ((b3 as u64) << 24) | ((b4
        as u64) << 32) | ((b5 as u64) << 40) | ((b6 as u64) << 48) | ((b7 as u64) << 56) == v)
        by (bit_vector)
        requires
            b0 == v as u8,
            b1 == (v >> 8) as u8,
            b2 == (v >> 16) as u8,
            b3 == (v >> 24) as u8,
            b4 == (v >> 32) as u8,
            b5 == (v >> 40) as u8,
            b6 == (v >> 48) as u8,
            b7 == (v >> 56) as u8,
    ;
}

/// Appends the eight little-endian bytes of `v` to `out`.
pub fn encode_u64(out: &mut Vec<u8>, v: u64)
    ensures
        final(out)@ == old(out)@ + enc_u64(v),
{
    out.push(v as u8);
    out.push((v >> 8) as u8);
    out.push((v >> 16) as u8);
    out.push((v >> 24) as u8);
    out.push((v >> 32) as u8);
    out.push((v >> 40) as u8);
    out.push((v >> 48) as u8);
    out.push((v >> 56) as u8);
    assert(out@ =~= old(out)@ + enc_u64(v));
}

/// Reads eight little-endian bytes at `pos`, or reports that the buffer is
/// too short.
pub fn decode_u64(b: &[u8], pos: usize) -> (r: Option<(u64, usize)>)
    ensures
        match r {
            Some(p) => {
                &&& pos + 8 <= b@.len()
                &&& p.1 == pos + 8
                &&& p.0 == dec_u64_at(b@, pos as int)
            },
            None => pos + 8 > b@.len(),
        },
{
    if b.len() < 8 || pos > b.len() - 8 {
        return None;
    }
    let v = (b[pos] as u64) | ((b[pos + 1] as u64) << 8) | ((b[pos + 2] as u64) << 16) | ((b[pos
        + 3] as u64) << 24) | ((b[pos + 4] as u64) << 32) | ((b[pos + 5] as u64) << 40) | ((b[pos
        + 6] as u64) << 48) | ((b[pos + 7] as u64) << 56);
    Some((v, pos + 8))
}

/// The wire form of a string: the byte length of its UTF-8 encoding,
/// followed by that encoding.
pub open spec fn enc_str(s: Seq<char>) -> Seq<u8> {
    enc_u64(encode_utf8(s).len() as u64) + encode_utf8(s)
}

/// The string's byte length is representable in the length prefix. Every
/// string held in program memory satisfies this machine limit.
pub open spec fn fits_str(s: Seq<char>) -> bool {
    encode_utf8(s).len() <= u64::MAX
}

/// The string whose wire form starts at `pos`, if the bytes there carry one.
pub open spec fn dec_str(b: Seq<u8>, pos: int) -> Option<(Seq<char>, int)> {
    if pos + 8 > b.len() {
        None
    } else {
        let n = dec_u64_at(b, pos) as int;
        if pos + 8 + n > b.len() {
            None
        } else {
            let bytes = b.subrange(pos + 8, pos + 8 + n);
            if valid_utf8(bytes) {
                Some((decode_utf8(bytes), pos + 8 + n))
            } else {
                None
            }
        }
    }
}

/// Reading a string where one was encoded yields the same string and stops
/// right after its wire form.
pub proof fn lemma_dec_enc_str(b: Seq<u8>, pos: int, s: Seq<char>)
    requires
        bytes_at(b, pos, enc_str(s)),
        fits_str(s),
    ensures
        dec_str(b, pos) == Some((s, pos + enc_str(s).len())),
{
    let u = encode_utf8(s);
    let n = u.len() as int;
    let e = enc_str(s);
    assert(e.len() == 8 + n);
    assert(bytes_at(b, pos, enc_u64(n as u64))) by {
        assert(b.subrange(pos, pos + 8) =~= e.subrange(0, 8));
        assert(e.subrange(0, 8) =~= enc_u64(n as u64));
    }
    lemma_dec_enc_u64(b, pos, n as u64);
    assert(dec_u64_at(b, pos) as int == n);
    assert(b.subrange(pos + 8, pos + 8 + n) =~= u) by {
        assert forall|i: int| 0 <= i < n implies b.subrange(pos + 8, pos + 8 + n)[i] == u[i] by {
            assert(b.subrange(pos, pos + e.len())[8 + i] == b[pos + 8 + i]);
            assert(e[8 + i] == u[i]);
        }
    }
    assert(valid_utf8(u));
    assert(decode_utf8(u) == s);
}

/// Appends the wire form of `s` to `out`.
pub fn encode_str(out: &mut Vec<u8>, s: &str)
    ensures
        final(out)@ == old(out)@ + enc_str(s@),
        fits_str(s@),
{
    let mut bytes = s.as_bytes_vec();
    encode_u64(out, bytes.len() as u64);
    out.append(&mut bytes);
    assert(out@ =~= old(out)@ + enc_str(s@));
}

/// Checked UTF-8 decoding.
///
/// Relies on `core::str::from_utf8`: it returns `Ok` exactly when the bytes
/// are valid UTF-8, and the resulting string views those same bytes.
#[verifier::external_body]
fn str_from_utf8(v: &[u8]) -> (r: Option<&str>)
    ensures
        match r {
            Some(s) => encode_utf8(s@) == v@,
            None => !valid_utf8(v@),
        },
{
    core::str::from_utf8(v).ok()
}

/// Reads a length-prefixed UTF-8 string at `pos`; `None` on a short buffer
/// or malformed bytes.
pub fn decode_str(b: &[u8], pos: usize) -> (r: Option<(String, usize)>)
    ensures
        match r {
            Some(p) => {
                &&& dec_str(b@, pos as int) matches Some(q)
                &&& p.0@ == q.0
                &&& p.1 == q.1
            },
            None => dec_str(b@, pos as int) is None,
        },
{
    let (n, end) = match decode_u64(b, pos) {
        Some(p) => p,
        None => { return None; },
    };
    if n > (b.len() - end) as u64 {
        return None;
    }
    let bytes = vstd::slice::slice_subrange(b, end, end + (n as usize));
    let s = match str_from_utf8(bytes) {
        Some(s) => s,
        None => {
            return None;
        },
    };
    proof {
        let ghost u = b@.subrange(pos as int + 8, pos as int + 8 + n as int);
        assert(encode_utf8(s@) == u);
        assert(valid_utf8(u));
        assert(decode_utf8(u) == s@);
    }
    Some((String::from_str(s), end + (n as usize)))
}

} // verus!
