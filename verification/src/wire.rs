//! The wire form of every protocol type: a compact binary serialization with
//! fixed-width integers, length-prefixed strings, and one-byte variant tags.
//! For each type there is a specification-level encoder and decoder, an
//! executable pair proved against them, and a round-trip theorem: decoding
//! where a value was encoded yields that value back.

use vstd::prelude::*;
use crate::codec::{
    enc_u64, dec_u64_at, enc_str, dec_str, fits_str, bytes_at, lemma_bytes_at_split,
    lemma_bytes_at_first, lemma_dec_enc_u64, lemma_dec_enc_str, encode_u64, decode_u64,
    encode_str, decode_str,
};
use crate::interface::{
    DataType, DataTypeV, WrapError, WrapErrorV, WrapType, WrapTypeV, Publisher, PublisherV,
    WrapMetdata, WrapMetdataV, publisher_view, publisher_seq_view, lemma_publisher_seq_view,
    InterfaceVersion,
};
use crate::dom::{
    TextColor, Style, TextSpan, TextSpanV, Text, TextV, Canvas, CanvasV, Element, ElementV,
    Dimension, DimensionV,
};
use crate::signal::{
    CommonQuery, CommonQueryV, CommonResponse, CommonResponseV, HomescreenQuery,
    HomescreenResponse, HomescreenResponseV, MimetypeQuery, MimetypeQueryV, MimetypeResponse,
    MimetypeResponseV,
};

verus! {

// ------------------------------------------------------------------
// DataType
// ------------------------------------------------------------------
/// Wire form of a payload value.
pub open spec fn enc_data_type(d: DataTypeV) -> Seq<u8> {
    match d {
        DataTypeV::String(s) => seq![0u8] + enc_str(s),
    }
}

/// The payload's strings are representable in their length prefixes.
pub open spec fn fits_data_type(d: DataTypeV) -> bool {
    match d {
        DataTypeV::String(s) => fits_str(s),
    }
}

/// The payload value whose wire form starts at `pos`, if any.
pub open spec fn dec_data_type(b: Seq<u8>, pos: int) -> Option<(DataTypeV, int)> {
    if pos + 1 > b.len() {
        None
    } else if b[pos] == 0u8 {
        match dec_str(b, pos + 1) {
            Some(p) => Some((DataTypeV::String(p.0), p.1)),
            None => None,
        }
    } else {
        None
    }
}

/// Decoding where a payload value was encoded yields that value back.
pub proof fn lemma_dec_enc_data_type(b: Seq<u8>, pos: int, d: DataTypeV)
    requires
        bytes_at(b, pos, enc_data_type(d)),
        fits_data_type(d),
    ensures
        dec_data_type(b, pos) == Some((d, pos + enc_data_type(d).len())),
{
    match d {
        DataTypeV::String(s) => {
            lemma_bytes_at_split(b, pos, seq![0u8], enc_str(s));
            lemma_bytes_at_first(b, pos, seq![0u8]);
            lemma_dec_enc_str(b, pos + 1, s);
        },
    }
}

/// Appends the wire form of `d` to `out`.
pub fn encode_data_type(out: &mut Vec<u8>, d: &DataType)
    ensures
        final(out)@ == old(out)@ + enc_data_type(d@),
        fits_data_type(d@),
{
    match d {
        DataType::String(s) => {
            out.push(0u8);
            encode_str(out, s.as_str());
            assert(out@ =~= old(out)@ + enc_data_type(d@));
        },
    }
}

/// Reads a payload value at `pos`.
pub fn decode_data_type(b: &[u8], pos: usize) -> (r: Option<(DataType, usize)>)
    ensures
        match r {
            Some(p) => {
                &&& dec_data_type(b@, pos as int) matches Some(q)
                &&& p.0@ == q.0
                &&& p.1 == q.1
            },
            None => dec_data_type(b@, pos as int) is None,
        },
{
    if pos >= b.len() {
        return None;
    }
    let tag = b[pos];
    if tag == 0u8 {
        match decode_str(b, pos + 1) {
            Some((s, end)) => Some((DataType::String(s), end)),
            None => None,
        }
    } else {
        None
    }
}

// ------------------------------------------------------------------
// WrapType
// ------------------------------------------------------------------
/// Wire form of a capability type.
pub open spec fn enc_wrap_type(t: WrapTypeV) -> Seq<u8> {
    match t {
        WrapTypeV::NoCapability => seq![0u8],
        WrapTypeV::Test => seq![1u8],
        WrapTypeV::HomeScreen => seq![2u8],
        WrapTypeV::Mimetype(name) => seq![3u8] + enc_str(name),
    }
}

/// The capability type's name is representable in its length prefix.
pub open spec fn fits_wrap_type(t: WrapTypeV) -> bool {
    match t {
        WrapTypeV::Mimetype(name) => fits_str(name),
        _ => true,
    }
}

/// The capability type whose wire form starts at `pos`, if any.
pub open spec fn dec_wrap_type(b: Seq<u8>, pos: int) -> Option<(WrapTypeV, int)> {
    if pos + 1 > b.len() {
        None
    } else if b[pos] == 0u8 {
        Some((WrapTypeV::NoCapability, pos + 1))
    } else if b[pos] == 1u8 {
        Some((WrapTypeV::Test, pos + 1))
    } else if b[pos] == 2u8 {
        Some((WrapTypeV::HomeScreen, pos + 1))
    } else if b[pos] == 3u8 {
        match dec_str(b, pos + 1) {
            Some(p) => Some((WrapTypeV::Mimetype(p.0), p.1)),
            None => None,
        }
    } else {
        None
    }
}

/// Decoding where a capability type was encoded yields that type back.
pub proof fn lemma_dec_enc_wrap_type(b: Seq<u8>, pos: int, t: WrapTypeV)
    requires
        bytes_at(b, pos, enc_wrap_type(t)),
        fits_wrap_type(t),
    ensures
        dec_wrap_type(b, pos) == Some((t, pos + enc_wrap_type(t).len())),
{
    match t {
        WrapTypeV::Mimetype(name) => {
            lemma_bytes_at_split(b, pos, seq![3u8], enc_str(name));
            lemma_bytes_at_first(b, pos, seq![3u8]);
            lemma_dec_enc_str(b, pos + 1, name);
        },
        _ => {
            lemma_bytes_at_first(b, pos, enc_wrap_type(t));
        },
    }
}

/// Appends the wire form of `t` to `out`.
pub fn encode_wrap_type(out: &mut Vec<u8>, t: &WrapType)
    ensures
        final(out)@ == old(out)@ + enc_wrap_type(t@),
        fits_wrap_type(t@),
{
    match t {
        WrapType::NoCapability => out.push(0u8),
        WrapType::Test => out.push(1u8),
        WrapType::HomeScreen => out.push(2u8),
        WrapType::Mimetype(name) => {
            out.push(3u8);
            encode_str(out, name.as_str());
        },
    }
    assert(out@ =~= old(out)@ + enc_wrap_type(t@));
}

/// Reads a capability type at `pos`.
pub fn decode_wrap_type(b: &[u8], pos: usize) -> (r: Option<(WrapType, usize)>)
    ensures
        match r {
            Some(p) => {
                &&& dec_wrap_type(b@, pos as int) matches Some(q)
                &&& p.0@ == q.0
                &&& p.1 == q.1
            },
            None => dec_wrap_type(b@, pos as int) is None,
        },
{
    if pos >= b.len() {
        return None;
    }
    let tag = b[pos];
    if tag == 0u8 {
        Some((WrapType::NoCapability, pos + 1))
    } else if tag == 1u8 {
        Some((WrapType::Test, pos + 1))
    } else if tag == 2u8 {
        Some((WrapType::HomeScreen, pos + 1))
    } else if tag == 3u8 {
        match decode_str(b, pos + 1) {
            Some((name, end)) => Some((WrapType::Mimetype(name), end)),
            None => None,
        }
    } else {
        None
    }
}

// ------------------------------------------------------------------
// Publisher
// ------------------------------------------------------------------
/// Wire form of a publisher tree: its name, the number of co-signing
/// publishers, then their wire forms in order.
pub open spec fn enc_publisher(p: PublisherV) -> Seq<u8>
    decreases p,
{
    enc_str(p.name) + enc_u64(p.signed_by.len() as u64) + enc_publisher_seq(p.signed_by)
}

/// Wire forms of a sequence of publisher trees, concatenated.
pub open spec fn enc_publisher_seq(s: Seq<PublisherV>) -> Seq<u8>
    decreases s,
{
    if s.len() == 0 {
        Seq::empty()
    } else {
        enc_publisher(s[0]) + enc_publisher_seq(s.drop_first())
    }
}

/// The publisher tree's strings and list lengths are representable in their
/// prefixes.
pub open spec fn fits_publisher(p: PublisherV) -> bool
    decreases p,
{
    &&& fits_str(p.name)
    &&& p.signed_by.len() <= u64::MAX
    &&& fits_publisher_seq(p.signed_by)
}

/// Every tree of the sequence fits.
pub open spec fn fits_publisher_seq(s: Seq<PublisherV>) -> bool
    decreases s,
{
    s.len() == 0 || (fits_publisher(s[0]) && fits_publisher_seq(s.drop_first()))
}

/// Decoding a publisher tree consumes fuel with its nesting depth; any fuel
/// beyond the bytes still ahead is enough (each nesting level consumes at
/// least sixteen bytes).
pub open spec fn dec_publisher(b: Seq<u8>, pos: int, fuel: nat) -> Option<(PublisherV, int)>
    decreases fuel, 0int,
{
    if fuel == 0 {
        None
    } else {
        match dec_str(b, pos) {
            None => None,
            Some(ps) => {
                if ps.1 + 8 > b.len() {
                    None
                } else {
                    let cnt = dec_u64_at(b, ps.1);
                    match dec_publisher_seq(b, ps.1 + 8, cnt, (fuel - 1) as nat) {
                        None => None,
                        Some(q) => Some((PublisherV { name: ps.0, signed_by: q.0 }, q.1)),
                    }
                }
            },
        }
    }
}

/// Decodes `cnt` publisher trees in a row.
pub open spec fn dec_publisher_seq(b: Seq<u8>, pos: int, cnt: u64, fuel: nat) -> Option<
    (Seq<PublisherV>, int),
>
    decreases fuel, cnt,
{
    if cnt == 0 {
        Some((Seq::empty(), pos))
    } else {
        match dec_publisher(b, pos, fuel) {
            None => None,
            Some(hp) => match dec_publisher_seq(b, hp.1, (cnt - 1) as u64, fuel) {
                None => None,
                Some(tp) => Some((seq![hp.0] + tp.0, tp.1)),
            },
        }
    }
}

/// Fuel that is always enough for any tree laid down in `b`.
pub open spec fn pub_fuel(b: Seq<u8>) -> nat {
    (b.len() + 1) as nat
}

/// The publisher tree whose wire form starts at `pos`, if any.
pub open spec fn dec_publisher_at(b: Seq<u8>, pos: int) -> Option<(PublisherV, int)> {
    dec_publisher(b, pos, pub_fuel(b))
}

/// A decoded publisher tree ends after its first sixteen bytes and inside
/// the buffer.
pub proof fn lemma_dec_publisher_bounds(b: Seq<u8>, pos: int, fuel: nat)
    ensures
        dec_publisher(b, pos, fuel) matches Some(p) ==> pos + 16 <= p.1 <= b.len(),
    decreases fuel, 0int,
{
    if fuel > 0 {
        if let Some(ps) = dec_str(b, pos) {
            if ps.1 + 8 <= b.len() {
                let cnt = dec_u64_at(b, ps.1);
                lemma_dec_publisher_seq_bounds(b, ps.1 + 8, cnt, (fuel - 1) as nat);
            }
        }
    }
}

/// A decoded run of publisher trees ends at or after its start and inside
/// the buffer.
pub proof fn lemma_dec_publisher_seq_bounds(b: Seq<u8>, pos: int, cnt: u64, fuel: nat)
    ensures
        dec_publisher_seq(b, pos, cnt, fuel) matches Some(p) ==> pos <= p.1
            && (cnt > 0 ==> p.1 <= b.len()),
    decreases fuel, cnt,
{
    if cnt > 0 {
        lemma_dec_publisher_bounds(b, pos, fuel);
        if let Some(hp) = dec_publisher(b, pos, fuel) {
            lemma_dec_publisher_seq_bounds(b, hp.1, (cnt - 1) as u64, fuel);
        }
    }
}

/// Fuel beyond the bytes still ahead does not change what is decoded.
pub proof fn lemma_dec_publisher_fuel(b: Seq<u8>, pos: int, f1: nat, f2: nat)
    requires
        f1 > b.len() - pos,
        f2 > b.len() - pos,
        f1 >= 1,
        f2 >= 1,
    ensures
        dec_publisher(b, pos, f1) == dec_publisher(b, pos, f2),
    decreases f1, 0int,
{
    if let Some(ps) = dec_str(b, pos) {
        if ps.1 + 8 <= b.len() {
            let cnt = dec_u64_at(b, ps.1);
            lemma_dec_publisher_seq_fuel(b, ps.1 + 8, cnt, (f1 - 1) as nat, (f2 - 1) as nat);
        }
    }
}

/// Fuel beyond the bytes still ahead does not change what a run decodes to.
pub proof fn lemma_dec_publisher_seq_fuel(b: Seq<u8>, pos: int, cnt: u64, f1: nat, f2: nat)
    requires
        f1 > b.len() - pos,
        f2 > b.len() - pos,
        f1 >= 1,
        f2 >= 1,
    ensures
        dec_publisher_seq(b, pos, cnt, f1) == dec_publisher_seq(b, pos, cnt, f2),
    decreases f1, cnt,
{
    if cnt > 0 {
        lemma_dec_publisher_fuel(b, pos, f1, f2);
        lemma_dec_publisher_bounds(b, pos, f1);
        if let Some(hp) = dec_publisher(b, pos, f1) {
            lemma_dec_publisher_seq_fuel(b, hp.1, (cnt - 1) as u64, f1, f2);
        }
    }
}

/// Decoding where a publisher tree was encoded yields that tree back.
pub proof fn lemma_dec_enc_publisher(b: Seq<u8>, pos: int, p: PublisherV, fuel: nat)
    requires
        bytes_at(b, pos, enc_publisher(p)),
        fits_publisher(p),
        fuel > b.len() - pos,
    ensures
        dec_publisher(b, pos, fuel) == Some((p, pos + enc_publisher(p).len())),
    decreases p,
{
    let e1 = enc_str(p.name);
    let e2 = enc_u64(p.signed_by.len() as u64);
    let e3 = enc_publisher_seq(p.signed_by);
    assert(enc_publisher(p) =~= e1 + (e2 + e3));
    lemma_bytes_at_split(b, pos, e1, e2 + e3);
    lemma_bytes_at_split(b, pos + e1.len(), e2, e3);
    lemma_dec_enc_str(b, pos, p.name);
    let p1 = pos + e1.len();
    lemma_dec_enc_u64(b, p1, p.signed_by.len() as u64);
    lemma_dec_enc_publisher_seq(b, p1 + 8, p.signed_by, (fuel - 1) as nat);
}

/// Decoding where a run of publisher trees was encoded yields that run back.
pub proof fn lemma_dec_enc_publisher_seq(b: Seq<u8>, pos: int, s: Seq<PublisherV>, fuel: nat)
    requires
        bytes_at(b, pos, enc_publisher_seq(s)),
        fits_publisher_seq(s),
        s.len() <= u64::MAX,
        fuel > b.len() - pos,
    ensures
        dec_publisher_seq(b, pos, s.len() as u64, fuel) == Some(
            (s, pos + enc_publisher_seq(s).len()),
        ),
    decreases s,
{
    if s.len() == 0 {
        assert(s =~= Seq::<PublisherV>::empty());
    } else {
        let e1 = enc_publisher(s[0]);
        let e2 = enc_publisher_seq(s.drop_first());
        lemma_bytes_at_split(b, pos, e1, e2);
        lemma_dec_enc_publisher(b, pos, s[0], fuel);
        lemma_dec_enc_publisher_seq(b, pos + e1.len(), s.drop_first(), fuel);
        assert(seq![s[0]] + s.drop_first() =~= s);
    }
}

/// Appending one tree to a run appends its wire form.
pub proof fn lemma_enc_publisher_seq_push(s: Seq<PublisherV>, p: PublisherV)
    ensures
        enc_publisher_seq(s.push(p)) == enc_publisher_seq(s) + enc_publisher(p),
        fits_publisher_seq(s) && fits_publisher(p) ==> fits_publisher_seq(s.push(p)),
    decreases s,
{
    if s.len() == 0 {
        assert(s.push(p)[0] == p);
        assert(s.push(p).drop_first() =~= Seq::<PublisherV>::empty());
        assert(enc_publisher_seq(s.push(p)) == enc_publisher(p) + enc_publisher_seq(
            Seq::<PublisherV>::empty(),
        ));
        assert(enc_publisher(p) + Seq::<u8>::empty() =~= enc_publisher_seq(s) + enc_publisher(p));
        if fits_publisher(p) {
            assert(fits_publisher_seq(Seq::<PublisherV>::empty()));
            assert(s.push(p).drop_first() == Seq::<PublisherV>::empty());
            assert(fits_publisher_seq(s.push(p)));
        }
    } else {
        assert(s.push(p).drop_first() =~= s.drop_first().push(p));
        assert(s.push(p)[0] == s[0]);
        lemma_enc_publisher_seq_push(s.drop_first(), p);
        assert(enc_publisher_seq(s.push(p)) =~= enc_publisher_seq(s) + enc_publisher(p));
        if fits_publisher_seq(s) && fits_publisher(p) {
            assert(fits_publisher_seq(s.push(p)));
        }
    }
}

/// Appends the wire form of `p` to `out`.
pub fn encode_publisher(out: &mut Vec<u8>, p: &Publisher)
    ensures
        final(out)@ == old(out)@ + enc_publisher(p@),
        fits_publisher(p@),
    decreases *p,
{
    encode_str(out, p.name.as_str());
    let n = p.signed_by.len();
    encode_u64(out, n as u64);
    proof {
        lemma_publisher_seq_view(p.signed_by@);
    }
    let ghost vs = publisher_view(*p).signed_by;
    let ghost base = out@;
    let mut i: usize = 0;
    while i < n
        invariant
            i <= n,
            n == p.signed_by.len(),
            vs == publisher_seq_view(p.signed_by@),
            vs.len() == n,
            forall|j: int| 0 <= j < n ==> #[trigger] vs[j] == publisher_view(p.signed_by@[j]),
            out@ == base + enc_publisher_seq(vs.subrange(0, i as int)),
            fits_publisher_seq(vs.subrange(0, i as int)),
        decreases n - i,
    {
        proof {
            assert(vs.subrange(0, i + 1) =~= vs.subrange(0, i as int).push(vs[i as int]));
            lemma_enc_publisher_seq_push(vs.subrange(0, i as int), vs[i as int]);
        }
        encode_publisher(out, &p.signed_by[i]);
        i = i + 1;
    }
    proof {
        assert(vs.subrange(0, n as int) =~= vs);
        assert(out@ =~= old(out)@ + enc_publisher(p@));
    }
}

/// Reads a publisher tree at `pos`.
pub fn decode_publisher(b: &[u8], pos: usize) -> (r: Option<(Publisher, usize)>)
    ensures
        match r {
            Some(p) => {
                &&& dec_publisher_at(b@, pos as int) matches Some(q)
                &&& p.0@ == q.0
                &&& p.1 == q.1
                &&& pos < p.1 <= b@.len()
            },
            None => dec_publisher_at(b@, pos as int) is None,
        },
    decreases b@.len() - pos, 0int,
{
    let (name, p1) = match decode_str(b, pos) {
        Some(p) => p,
        None => { return None; },
    };
    let (cnt, p2) = match decode_u64(b, p1) {
        Some(p) => p,
        None => { return None; },
    };
    match decode_publisher_seq(b, p2, cnt) {
        Some((signed_by, end)) => {
            proof {
                lemma_dec_publisher_seq_fuel(
                    b@,
                    p2 as int,
                    cnt,
                    pub_fuel(b@),
                    (pub_fuel(b@) - 1) as nat,
                );
            }
            Some((Publisher { name, signed_by }, end))
        },
        None => {
            proof {
                lemma_dec_publisher_seq_fuel(
                    b@,
                    p2 as int,
                    cnt,
                    pub_fuel(b@),
                    (pub_fuel(b@) - 1) as nat,
                );
            }
            None
        },
    }
}

/// Reads `cnt` publisher trees in a row at `pos`.
pub fn decode_publisher_seq(b: &[u8], pos: usize, cnt: u64) -> (r: Option<(Vec<Publisher>, usize)>)
    requires
        pos <= b@.len(),
    ensures
        match r {
            Some(p) => {
                &&& dec_publisher_seq(b@, pos as int, cnt, pub_fuel(b@)) matches Some(q)
                &&& publisher_seq_view(p.0@) == q.0
                &&& p.1 == q.1
                &&& pos <= p.1 <= b@.len()
            },
            None => dec_publisher_seq(b@, pos as int, cnt, pub_fuel(b@)) is None,
        },
    decreases b@.len() - pos, cnt,
{
    if cnt == 0 {
        return Some((Vec::new(), pos));
    }
    let (head, p1) = match decode_publisher(b, pos) {
        Some(p) => p,
        None => { return None; },
    };
    match decode_publisher_seq(b, p1, cnt - 1) {
        Some((rest, end)) => {
            let mut v = rest;
            let ghost tailv = v@;
            v.insert(0, head);
            proof {
                assert(v@.drop_first() =~= tailv);
                assert(publisher_seq_view(v@) == seq![publisher_view(head)]
                    + publisher_seq_view(tailv));
            }
            Some((v, end))
        },
        None => None,
    }
}

// ------------------------------------------------------------------
// WrapMetdata
// ------------------------------------------------------------------
/// Wire form of a metadata record: its six fields in declaration order.
pub open spec fn enc_metadata(m: WrapMetdataV) -> Seq<u8> {
    enc_str(m.name) + enc_str(m.version) + enc_wrap_type(m.wrap_type) + enc_str(m.description)
        + enc_publisher(m.publisher) + enc_str(m.interface_version)
}

/// The record's strings and lists are representable in their prefixes.
pub open spec fn fits_metadata(m: WrapMetdataV) -> bool {
    &&& fits_str(m.name)
    &&& fits_str(m.version)
    &&& fits_wrap_type(m.wrap_type)
    &&& fits_str(m.description)
    &&& fits_publisher(m.publisher)
    &&& fits_str(m.interface_version)
}

/// The metadata record whose wire form starts at `pos`, if any.
pub open spec fn dec_metadata(b: Seq<u8>, pos: int) -> Option<(WrapMetdataV, int)> {
    match dec_str(b, pos) {
        None => None,
        Some(name) => match dec_str(b, name.1) {
            None => None,
            Some(version) => match dec_wrap_type(b, version.1) {
                None => None,
                Some(wrap_type) => match dec_str(b, wrap_type.1) {
                    None => None,
                    Some(description) => match dec_publisher_at(b, description.1) {
                        None => None,
                        Some(publisher) => match dec_str(b, publisher.1) {
                            None => None,
                            Some(interface_version) => Some(
                                (
                                    WrapMetdataV {
                                        name: name.0,
                                        version: version.0,
                                        wrap_type: wrap_type.0,
                                        description: description.0,
                                        publisher: publisher.0,
                                        interface_version: interface_version.0,
                                    },
                                    interface_version.1,
                                ),
                            ),
                        },
                    },
                },
            },
        },
    }
}

/// Decoding where a metadata record was encoded yields that record back.
pub proof fn lemma_dec_enc_metadata(b: Seq<u8>, pos: int, m: WrapMetdataV)
    requires
        bytes_at(b, pos, enc_metadata(m)),
        fits_metadata(m),
    ensures
        dec_metadata(b, pos) == Some((m, pos + enc_metadata(m).len())),
{
    let e1 = enc_str(m.name);
    let e2 = enc_str(m.version);
    let e3 = enc_wrap_type(m.wrap_type);
    let e4 = enc_str(m.description);
    let e5 = enc_publisher(m.publisher);
    let e6 = enc_str(m.interface_version);
    assert(enc_metadata(m) =~= e1 + (e2 + (e3 + (e4 + (e5 + e6)))));
    lemma_bytes_at_split(b, pos, e1, e2 + (e3 + (e4 + (e5 + e6))));
    let p1 = pos + e1.len();
    lemma_bytes_at_split(b, p1, e2, e3 + (e4 + (e5 + e6)));
    let p2 = p1 + e2.len();
    lemma_bytes_at_split(b, p2, e3, e4 + (e5 + e6));
    let p3 = p2 + e3.len();
    lemma_bytes_at_split(b, p3, e4, e5 + e6);
    let p4 = p3 + e4.len();
    lemma_bytes_at_split(b, p4, e5, e6);
    let p5 = p4 + e5.len();
    lemma_dec_enc_str(b, pos, m.name);
    lemma_dec_enc_str(b, p1, m.version);
    lemma_dec_enc_wrap_type(b, p2, m.wrap_type);
    lemma_dec_enc_str(b, p3, m.description);
    lemma_dec_enc_publisher(b, p4, m.publisher, pub_fuel(b));
    lemma_dec_enc_str(b, p5, m.interface_version);
}

/// Appends the wire form of `m` to `out`.
pub fn encode_metadata(out: &mut Vec<u8>, m: &WrapMetdata)
    ensures
        final(out)@ == old(out)@ + enc_metadata(m@),
        fits_metadata(m@),
{
    encode_str(out, m.name.as_str());
    encode_str(out, m.version.as_str());
    encode_wrap_type(out, &m.wrap_type);
    encode_str(out, m.description.as_str());
    encode_publisher(out, &m.publisher);
    encode_str(out, m.interface_version.0.as_str());
    assert(out@ =~= old(out)@ + enc_metadata(m@));
}

/// Reads a metadata record at `pos`.
pub fn decode_metadata(b: &[u8], pos: usize) -> (r: Option<(WrapMetdata, usize)>)
    ensures
        match r {
            Some(p) => {
                &&& dec_metadata(b@, pos as int) matches Some(q)
                &&& p.0@ == q.0
                &&& p.1 == q.1
            },
            None => dec_metadata(b@, pos as int) is None,
        },
{
    let (name, p1) = match decode_str(b, pos) {
        Some(p) => p,
        None => { return None; },
    };
    let (version, p2) = match decode_str(b, p1) {
        Some(p) => p,
        None => { return None; },
    };
    let (wrap_type, p3) = match decode_wrap_type(b, p2) {
        Some(p) => p,
        None => { return None; },
    };
    let (description, p4) = match decode_str(b, p3) {
        Some(p) => p,
        None => { return None; },
    };
    let (publisher, p5) = match decode_publisher(b, p4) {
        Some(p) => p,
        None => { return None; },
    };
    let (interface_version, p6) = match decode_str(b, p5) {
        Some(p) => p,
        None => { return None; },
    };
    Some(
        (
            WrapMetdata {
                name,
                version,
                wrap_type,
                description,
                publisher,
                interface_version: InterfaceVersion(interface_version),
            },
            p6,
        ),
    )
}

// ------------------------------------------------------------------
// WrapError
// ------------------------------------------------------------------
/// Wire form of a guest error.
pub open spec fn enc_wrap_error(e: WrapErrorV) -> Seq<u8> {
    match e {
        WrapErrorV::UnsupportedSignal => seq![0u8],
        WrapErrorV::DecodeFailed(detail) => seq![1u8] + enc_str(detail),
        WrapErrorV::EncodeFailed(detail) => seq![2u8] + enc_str(detail),
        WrapErrorV::UnsupportedInterface(id) => seq![3u8] + enc_u64(id),
        WrapErrorV::Other(message) => seq![4u8] + enc_str(message),
    }
}

/// The error's strings are representable in their length prefixes.
pub open spec fn fits_wrap_error(e: WrapErrorV) -> bool {
    match e {
        WrapErrorV::DecodeFailed(detail) => fits_str(detail),
        WrapErrorV::EncodeFailed(detail) => fits_str(detail),
        WrapErrorV::Other(message) => fits_str(message),
        _ => true,
    }
}

/// The guest error whose wire form starts at `pos`, if any.
pub open spec fn dec_wrap_error(b: Seq<u8>, pos: int) -> Option<(WrapErrorV, int)> {
    if pos + 1 > b.len() {
        None
    } else if b[pos] == 0u8 {
        Some((WrapErrorV::UnsupportedSignal, pos + 1))
    } else if b[pos] == 1u8 {
        match dec_str(b, pos + 1) {
            Some(p) => Some((WrapErrorV::DecodeFailed(p.0), p.1)),
            None => None,
        }
    } else if b[pos] == 2u8 {
        match dec_str(b, pos + 1) {
            Some(p) => Some((WrapErrorV::EncodeFailed(p.0), p.1)),
            None => None,
        }
    } else if b[pos] == 3u8 {
        if pos + 9 > b.len() {
            None
        } else {
            Some((WrapErrorV::UnsupportedInterface(dec_u64_at(b, pos + 1)), pos + 9))
        }
    } else if b[pos] == 4u8 {
        match dec_str(b, pos + 1) {
            Some(p) => Some((WrapErrorV::Other(p.0), p.1)),
            None => None,
        }
    } else {
        None
    }
}

/// Decoding where a guest error was encoded yields that error back.
pub proof fn lemma_dec_enc_wrap_error(b: Seq<u8>, pos: int, e: WrapErrorV)
    requires
        bytes_at(b, pos, enc_wrap_error(e)),
        fits_wrap_error(e),
    ensures
        dec_wrap_error(b, pos) == Some((e, pos + enc_wrap_error(e).len())),
{
    match e {
        WrapErrorV::UnsupportedSignal => {
            lemma_bytes_at_first(b, pos, enc_wrap_error(e));
        },
        WrapErrorV::DecodeFailed(detail) => {
            lemma_bytes_at_split(b, pos, seq![1u8], enc_str(detail));
            lemma_bytes_at_first(b, pos, seq![1u8]);
            lemma_dec_enc_str(b, pos + 1, detail);
        },
        WrapErrorV::EncodeFailed(detail) => {
            lemma_bytes_at_split(b, pos, seq![2u8], enc_str(detail));
            lemma_bytes_at_first(b, pos, seq![2u8]);
            lemma_dec_enc_str(b, pos + 1, detail);
        },
        WrapErrorV::UnsupportedInterface(id) => {
            lemma_bytes_at_split(b, pos, seq![3u8], enc_u64(id));
            lemma_bytes_at_first(b, pos, seq![3u8]);
            lemma_dec_enc_u64(b, pos + 1, id);
        },
        WrapErrorV::Other(message) => {
            lemma_bytes_at_split(b, pos, seq![4u8], enc_str(message));
            lemma_bytes_at_first(b, pos, seq![4u8]);
            lemma_dec_enc_str(b, pos + 1, message);
        },
    }
}

/// Appends the wire form of `e` to `out`.
pub fn encode_wrap_error(out: &mut Vec<u8>, e: &WrapError)
    ensures
        final(out)@ == old(out)@ + enc_wrap_error(e@),
        fits_wrap_error(e@),
{
    match e {
        WrapError::UnsupportedSignal => out.push(0u8),
        WrapError::DecodeFailed(detail) => {
            out.push(1u8);
            encode_str(out, detail.as_str());
        },
        WrapError::EncodeFailed(detail) => {
            out.push(2u8);
            encode_str(out, detail.as_str());
        },
        WrapError::UnsupportedInterface(id) => {
            out.push(3u8);
            encode_u64(out, *id);
        },
        WrapError::Other(message) => {
            out.push(4u8);
            encode_str(out, message.as_str());
        },
    }
    assert(out@ =~= old(out)@ + enc_wrap_error(e@));
}

/// Reads a guest error at `pos`.
pub fn decode_wrap_error(b: &[u8], pos: usize) -> (r: Option<(WrapError, usize)>)
    ensures
        match r {
            Some(p) => {
                &&& dec_wrap_error(b@, pos as int) matches Some(q)
                &&& p.0@ == q.0
                &&& p.1 == q.1
            },
            None => dec_wrap_error(b@, pos as int) is None,
        },
{
    if pos >= b.len() {
        return None;
    }
    let tag = b[pos];
    if tag == 0u8 {
        Some((WrapError::UnsupportedSignal, pos + 1))
    } else if tag == 1u8 {
        match decode_str(b, pos + 1) {
            Some((detail, end)) => Some((WrapError::DecodeFailed(detail), end)),
            None => None,
        }
    } else if tag == 2u8 {
        match decode_str(b, pos + 1) {
            Some((detail, end)) => Some((WrapError::EncodeFailed(detail), end)),
            None => None,
        }
    } else if tag == 3u8 {
        match decode_u64(b, pos + 1) {
            Some((id, end)) => Some((WrapError::UnsupportedInterface(id), end)),
            None => None,
        }
    } else if tag == 4u8 {
        match decode_str(b, pos + 1) {
            Some((message, end)) => Some((WrapError::Other(message), end)),
            None => None,
        }
    } else {
        None
    }
}

// ------------------------------------------------------------------
// TextColor, Style, Option<TextColor>
// ------------------------------------------------------------------
/// Wire form of a color: its three channels.
pub open spec fn enc_color(c: TextColor) -> Seq<u8> {
    seq![c.r, c.g, c.b]
}

/// The color whose wire form starts at `pos`, if any.
pub open spec fn dec_color(b: Seq<u8>, pos: int) -> Option<(TextColor, int)> {
    if pos + 3 > b.len() {
        None
    } else {
        Some((TextColor { r: b[pos], g: b[pos + 1], b: b[pos + 2] }, pos + 3))
    }
}

/// Decoding where a color was encoded yields that color back.
pub proof fn lemma_dec_enc_color(b: Seq<u8>, pos: int, c: TextColor)
    requires
        bytes_at(b, pos, enc_color(c)),
    ensures
        dec_color(b, pos) == Some((c, pos + 3)),
{
    assert forall|i: int| 0 <= i < 3 implies b[pos + i] == enc_color(c)[i] by {
        assert(b.subrange(pos, pos + 3)[i] == b[pos + i]);
    }
}

/// Appends the wire form of `c` to `out`.
pub fn encode_color(out: &mut Vec<u8>, c: &TextColor)
    ensures
        final(out)@ == old(out)@ + enc_color(*c),
{
    out.push(c.r);
    out.push(c.g);
    out.push(c.b);
    assert(out@ =~= old(out)@ + enc_color(*c));
}

/// Reads a color at `pos`.
pub fn decode_color(b: &[u8], pos: usize) -> (r: Option<(TextColor, usize)>)
    ensures
        match r {
            Some(p) => dec_color(b@, pos as int) == Some((p.0, p.1 as int)),
            None => dec_color(b@, pos as int) is None,
        },
{
    if b.len() < 3 || pos > b.len() - 3 {
        return None;
    }
    Some((TextColor { r: b[pos], g: b[pos + 1], b: b[pos + 2] }, pos + 3))
}

/// Wire form of an optional color.
pub open spec fn enc_opt_color(c: Option<TextColor>) -> Seq<u8> {
    match c {
        Option::None => seq![0u8],
        Option::Some(c) => seq![1u8] + enc_color(c),
    }
}

/// The optional color whose wire form starts at `pos`, if any.
pub open spec fn dec_opt_color(b: Seq<u8>, pos: int) -> Option<(Option<TextColor>, int)> {
    if pos + 1 > b.len() {
        None
    } else if b[pos] == 0u8 {
        Some((Option::None, pos + 1))
    } else if b[pos] == 1u8 {
        match dec_color(b, pos + 1) {
            Some(p) => Some((Option::Some(p.0), p.1)),
            None => None,
        }
    } else {
        None
    }
}

/// Decoding where an optional color was encoded yields it back.
pub proof fn lemma_dec_enc_opt_color(b: Seq<u8>, pos: int, c: Option<TextColor>)
    requires
        bytes_at(b, pos, enc_opt_color(c)),
    ensures
        dec_opt_color(b, pos) == Some((c, pos + enc_opt_color(c).len())),
{
    match c {
        Option::None => {
            lemma_bytes_at_first(b, pos, enc_opt_color(c));
        },
        Option::Some(color) => {
            lemma_bytes_at_split(b, pos, seq![1u8], enc_color(color));
            lemma_bytes_at_first(b, pos, seq![1u8]);
            lemma_dec_enc_color(b, pos + 1, color);
        },
    }
}

/// Appends the wire form of `c` to `out`.
pub fn encode_opt_color(out: &mut Vec<u8>, c: &Option<TextColor>)
    ensures
        final(out)@ == old(out)@ + enc_opt_color(*c),
{
    match c {
        Option::None => out.push(0u8),
        Option::Some(color) => {
            out.push(1u8);
            encode_color(out, color);
        },
    }
    assert(out@ =~= old(out)@ + enc_opt_color(*c));
}

/// Reads an optional color at `pos`.
pub fn decode_opt_color(b: &[u8], pos: usize) -> (r: Option<(Option<TextColor>, usize)>)
    ensures
        match r {
            Some(p) => dec_opt_color(b@, pos as int) == Some((p.0, p.1 as int)),
            None => dec_opt_color(b@, pos as int) is None,
        },
{
    if pos >= b.len() {
        return None;
    }
    let tag = b[pos];
    if tag == 0u8 {
        Some((Option::None, pos + 1))
    } else if tag == 1u8 {
        match decode_color(b, pos + 1) {
            Some((c, end)) => Some((Option::Some(c), end)),
            None => None,
        }
    } else {
        None
    }
}

/// Wire form of a text style.
pub open spec fn enc_style(s: Style) -> Seq<u8> {
    match s {
        Style::Normal => seq![0u8],
        Style::Italic => seq![1u8],
        Style::Oblique => seq![2u8],
    }
}

/// The style whose wire form starts at `pos`, if any.
pub open spec fn dec_style(b: Seq<u8>, pos: int) -> Option<(Style, int)> {
    if pos + 1 > b.len() {
        None
    } else if b[pos] == 0u8 {
        Some((Style::Normal, pos + 1))
    } else if b[pos] == 1u8 {
        Some((Style::Italic, pos + 1))
    } else if b[pos] == 2u8 {
        Some((Style::Oblique, pos + 1))
    } else {
        None
    }
}

/// Decoding where a style was encoded yields that style back.
pub proof fn lemma_dec_enc_style(b: Seq<u8>, pos: int, s: Style)
    requires
        bytes_at(b, pos, enc_style(s)),
    ensures
        dec_style(b, pos) == Some((s, pos + 1)),
{
    lemma_bytes_at_first(b, pos, enc_style(s));
}

/// Appends the wire form of `s` to `out`.
pub fn encode_style(out: &mut Vec<u8>, s: &Style)
    ensures
        final(out)@ == old(out)@ + enc_style(*s),
{
    match s {
        Style::Normal => out.push(0u8),
        Style::Italic => out.push(1u8),
        Style::Oblique => out.push(2u8),
    }
    assert(out@ =~= old(out)@ + enc_style(*s));
}

/// Reads a style at `pos`.
pub fn decode_style(b: &[u8], pos: usize) -> (r: Option<(Style, usize)>)
    ensures
        match r {
            Some(p) => dec_style(b@, pos as int) == Some((p.0, p.1 as int)),
            None => dec_style(b@, pos as int) is None,
        },
{
    if pos >= b.len() {
        return None;
    }
    let tag = b[pos];
    if tag == 0u8 {
        Some((Style::Normal, pos + 1))
    } else if tag == 1u8 {
        Some((Style::Italic, pos + 1))
    } else if tag == 2u8 {
        Some((Style::Oblique, pos + 1))
    } else {
        None
    }
}

// ------------------------------------------------------------------
// TextSpan
// ------------------------------------------------------------------
/// Wire form of a text span.
pub open spec fn enc_span(s: TextSpanV) -> Seq<u8> {
    enc_str(s.text) + enc_opt_color(s.color) + enc_style(s.style) + enc_u64(s.weight as u64)
}

/// The span's text is representable in its length prefix.
pub open spec fn fits_span(s: TextSpanV) -> bool {
    fits_str(s.text)
}

/// The text span whose wire form starts at `pos`, if any.
pub open spec fn dec_span(b: Seq<u8>, pos: int) -> Option<(TextSpanV, int)> {
    match dec_str(b, pos) {
        None => None,
        Some(text) => match dec_opt_color(b, text.1) {
            None => None,
            Some(color) => match dec_style(b, color.1) {
                None => None,
                Some(style) => {
                    if style.1 + 8 > b.len() {
                        None
                    } else {
                        let w = dec_u64_at(b, style.1);
                        if w > u16::MAX as u64 {
                            None
                        } else {
                            Some(
                                (
                                    TextSpanV {
                                        text: text.0,
                                        color: color.0,
                                        style: style.0,
                                        weight: w as u16,
                                    },
                                    style.1 + 8,
                                ),
                            )
                        }
                    }
                },
            },
        },
    }
}

/// Decoding where a text span was encoded yields that span back.
pub proof fn lemma_dec_enc_span(b: Seq<u8>, pos: int, s: TextSpanV)
    requires
        bytes_at(b, pos, enc_span(s)),
        fits_span(s),
    ensures
        dec_span(b, pos) == Some((s, pos + enc_span(s).len())),
{
    let e1 = enc_str(s.text);
    let e2 = enc_opt_color(s.color);
    let e3 = enc_style(s.style);
    let e4 = enc_u64(s.weight as u64);
    assert(enc_span(s) =~= e1 + (e2 + (e3 + e4)));
    lemma_bytes_at_split(b, pos, e1, e2 + (e3 + e4));
    let p1 = pos + e1.len();
    lemma_bytes_at_split(b, p1, e2, e3 + e4);
    let p2 = p1 + e2.len();
    lemma_bytes_at_split(b, p2, e3, e4);
    let p3 = p2 + e3.len();
    lemma_dec_enc_str(b, pos, s.text);
    lemma_dec_enc_opt_color(b, p1, s.color);
    lemma_dec_enc_style(b, p2, s.style);
    lemma_dec_enc_u64(b, p3, s.weight as u64);
}

/// Appends the wire form of `s` to `out`.
pub fn encode_span(out: &mut Vec<u8>, s: &TextSpan)
    ensures
        final(out)@ == old(out)@ + enc_span(s@),
        fits_span(s@),
{
    encode_str(out, s.text.as_str());
    encode_opt_color(out, &s.color);
    encode_style(out, &s.style);
    encode_u64(out, s.weight as u64);
    assert(out@ =~= old(out)@ + enc_span(s@));
}

/// Reads a text span at `pos`.
pub fn decode_span(b: &[u8], pos: usize) -> (r: Option<(TextSpan, usize)>)
    ensures
        match r {
            Some(p) => {
                &&& dec_span(b@, pos as int) matches Some(q)
                &&& p.0@ == q.0
                &&& p.1 == q.1
            },
            None => dec_span(b@, pos as int) is None,
        },
{
    let (text, p1) = match decode_str(b, pos) {
        Some(p) => p,
        None => { return None; },
    };
    let (color, p2) = match decode_opt_color(b, p1) {
        Some(p) => p,
        None => { return None; },
    };
    let (style, p3) = match decode_style(b, p2) {
        Some(p) => p,
        None => { return None; },
    };
    let (w, p4) = match decode_u64(b, p3) {
        Some(p) => p,
        None => { return None; },
    };
    if w > u16::MAX as u64 {
        return None;
    }
    Some((TextSpan { text, color, style, weight: w as u16 }, p4))
}

// ------------------------------------------------------------------
// Sequences of spans, texts, and elements
// ------------------------------------------------------------------
/// Wire forms of a run of spans, concatenated.
pub open spec fn enc_span_seq(s: Seq<TextSpanV>) -> Seq<u8>
    decreases s,
{
    if s.len() == 0 {
        Seq::empty()
    } else {
        enc_span(s[0]) + enc_span_seq(s.drop_first())
    }
}

/// Every span of the run fits.
pub open spec fn fits_span_seq(s: Seq<TextSpanV>) -> bool
    decreases s,
{
    s.len() == 0 || (fits_span(s[0]) && fits_span_seq(s.drop_first()))
}

/// Decodes `cnt` spans in a row.
pub open spec fn dec_span_seq(b: Seq<u8>, pos: int, cnt: u64) -> Option<(Seq<TextSpanV>, int)>
    decreases cnt,
{
    if cnt == 0 {
        Some((Seq::empty(), pos))
    } else {
        match dec_span(b, pos) {
            None => None,
            Some(hp) => match dec_span_seq(b, hp.1, (cnt - 1) as u64) {
                None => None,
                Some(tp) => Some((seq![hp.0] + tp.0, tp.1)),
            },
        }
    }
}

/// A decoded run of spans ends at or after its start, inside the buffer.
pub proof fn lemma_dec_span_seq_bounds(b: Seq<u8>, pos: int, cnt: u64)
    ensures
        dec_span_seq(b, pos, cnt) matches Some(q) ==> pos <= q.1 && (cnt > 0 ==> q.1 <= b.len()),
    decreases cnt,
{
    if cnt > 0 {
        if let Some(hp) = dec_span(b, pos) {
            lemma_dec_span_seq_bounds(b, hp.1, (cnt - 1) as u64);
        }
    }
}

/// Decoding where a run of spans was encoded yields that run back.
pub proof fn lemma_dec_enc_span_seq(b: Seq<u8>, pos: int, s: Seq<TextSpanV>)
    requires
        bytes_at(b, pos, enc_span_seq(s)),
        fits_span_seq(s),
        s.len() <= u64::MAX,
    ensures
        dec_span_seq(b, pos, s.len() as u64) == Some((s, pos + enc_span_seq(s).len())),
    decreases s,
{
    if s.len() == 0 {
        assert(s =~= Seq::<TextSpanV>::empty());
    } else {
        let e1 = enc_span(s[0]);
        let e2 = enc_span_seq(s.drop_first());
        lemma_bytes_at_split(b, pos, e1, e2);
        lemma_dec_enc_span(b, pos, s[0]);
        lemma_dec_enc_span_seq(b, pos + e1.len(), s.drop_first());
        assert(seq![s[0]] + s.drop_first() =~= s);
    }
}

/// Appending one span to a run appends its wire form.
pub proof fn lemma_enc_span_seq_push(s: Seq<TextSpanV>, p: TextSpanV)
    ensures
        enc_span_seq(s.push(p)) == enc_span_seq(s) + enc_span(p),
        fits_span_seq(s) && fits_span(p) ==> fits_span_seq(s.push(p)),
    decreases s,
{
    if s.len() == 0 {
        assert(s.push(p)[0] == p);
        assert(s.push(p).drop_first() =~= Seq::<TextSpanV>::empty());
        assert(enc_span_seq(s.push(p)) == enc_span(p) + enc_span_seq(Seq::<TextSpanV>::empty()));
        assert(enc_span(p) + Seq::<u8>::empty() =~= enc_span_seq(s) + enc_span(p));
        if fits_span(p) {
            assert(fits_span_seq(Seq::<TextSpanV>::empty()));
            assert(s.push(p).drop_first() == Seq::<TextSpanV>::empty());
            assert(fits_span_seq(s.push(p)));
        }
    } else {
        assert(s.push(p).drop_first() =~= s.drop_first().push(p));
        assert(s.push(p)[0] == s[0]);
        lemma_enc_span_seq_push(s.drop_first(), p);
        assert(enc_span_seq(s.push(p)) =~= enc_span_seq(s) + enc_span(p));
        if fits_span_seq(s) && fits_span(p) {
            assert(fits_span_seq(s.push(p)));
        }
    }
}

/// Reads `cnt` spans in a row at `pos`.
pub fn decode_span_seq(b: &[u8], pos: usize, cnt: u64) -> (r: Option<(Vec<TextSpan>, usize)>)
    requires
        pos <= b@.len(),
    ensures
        match r {
            Some(p) => {
                &&& dec_span_seq(b@, pos as int, cnt) matches Some(q)
                &&& p.0@.map_values(|s: TextSpan| s@) == q.0
                &&& p.1 == q.1
                &&& pos <= p.1 <= b@.len()
            },
            None => dec_span_seq(b@, pos as int, cnt) is None,
        },
    decreases cnt,
{
    if cnt == 0 {
        let v: Vec<TextSpan> = Vec::new();
        assert(v@.map_values(|s: TextSpan| s@) =~= Seq::<TextSpanV>::empty());
        return Some((v, pos));
    }
    let (head, p1) = match decode_span(b, pos) {
        Some(p) => p,
        None => { return None; },
    };
    proof {
        assert(p1 <= b@.len());
    }
    match decode_span_seq(b, p1, cnt - 1) {
        Some((rest, end)) => {
            let mut v = rest;
            let ghost tailv = v@;
            v.insert(0, head);
            proof {
                assert(v@ =~= seq![head] + tailv);
                assert(v@.map_values(|s: TextSpan| s@) =~= seq![head@] + tailv.map_values(
                    |s: TextSpan| s@,
                ));
            }
            Some((v, end))
        },
        None => None,
    }
}

// ------------------------------------------------------------------
// Text
// ------------------------------------------------------------------
/// Wire form of a text block: the number of spans, the spans, then the
/// block attributes.
pub open spec fn enc_text(t: TextV) -> Seq<u8> {
    enc_u64(t.spans.len() as u64) + enc_span_seq(t.spans) + enc_u64(t.font_size_milli) + enc_u64(
        t.line_height_milli,
    ) + enc_color(t.color)
}

/// The block's spans are representable in their prefixes.
pub open spec fn fits_text(t: TextV) -> bool {
    t.spans.len() <= u64::MAX && fits_span_seq(t.spans)
}

/// The text block whose wire form starts at `pos`, if any.
pub open spec fn dec_text(b: Seq<u8>, pos: int) -> Option<(TextV, int)> {
    if pos + 8 > b.len() {
        None
    } else {
        let cnt = dec_u64_at(b, pos);
        match dec_span_seq(b, pos + 8, cnt) {
            None => None,
            Some(spans) => {
                if spans.1 + 16 > b.len() {
                    None
                } else {
                    let font_size_milli = dec_u64_at(b, spans.1);
                    let line_height_milli = dec_u64_at(b, spans.1 + 8);
                    match dec_color(b, spans.1 + 16) {
                        None => None,
                        Some(color) => Some(
                            (
                                TextV {
                                    spans: spans.0,
                                    font_size_milli,
                                    line_height_milli,
                                    color: color.0,
                                },
                                color.1,
                            ),
                        ),
                    }
                }
            },
        }
    }
}

/// Decoding where a text block was encoded yields that block back.
pub proof fn lemma_dec_enc_text(b: Seq<u8>, pos: int, t: TextV)
    requires
        bytes_at(b, pos, enc_text(t)),
        fits_text(t),
    ensures
        dec_text(b, pos) == Some((t, pos + enc_text(t).len())),
{
    let e1 = enc_u64(t.spans.len() as u64);
    let e2 = enc_span_seq(t.spans);
    let e3 = enc_u64(t.font_size_milli);
    let e4 = enc_u64(t.line_height_milli);
    let e5 = enc_color(t.color);
    assert(enc_text(t) =~= e1 + (e2 + (e3 + (e4 + e5))));
    lemma_bytes_at_split(b, pos, e1, e2 + (e3 + (e4 + e5)));
    let p1 = pos + 8;
    lemma_bytes_at_split(b, p1, e2, e3 + (e4 + e5));
    let p2 = p1 + e2.len();
    lemma_bytes_at_split(b, p2, e3, e4 + e5);
    let p3 = p2 + 8;
    lemma_bytes_at_split(b, p3, e4, e5);
    let p4 = p3 + 8;
    lemma_dec_enc_u64(b, pos, t.spans.len() as u64);
    lemma_dec_enc_span_seq(b, p1, t.spans);
    lemma_dec_enc_u64(b, p2, t.font_size_milli);
    lemma_dec_enc_u64(b, p3, t.line_height_milli);
    lemma_dec_enc_color(b, p4, t.color);
}

/// Appends the wire form of `t` to `out`.
pub fn encode_text(out: &mut Vec<u8>, t: &Text)
    ensures
        final(out)@ == old(out)@ + enc_text(t@),
        fits_text(t@),
{
    let n = t.spans.len();
    encode_u64(out, n as u64);
    let ghost vs = t@.spans;
    let ghost base = out@;
    let mut i: usize = 0;
    while i < n
        invariant
            i <= n,
            n == t.spans.len(),
            vs == t.spans@.map_values(|s: TextSpan| s@),
            out@ == base + enc_span_seq(vs.subrange(0, i as int)),
            fits_span_seq(vs.subrange(0, i as int)),
        decreases n - i,
    {
        proof {
            assert(vs.subrange(0, i + 1) =~= vs.subrange(0, i as int).push(vs[i as int]));
            lemma_enc_span_seq_push(vs.subrange(0, i as int), vs[i as int]);
        }
        encode_span(out, &t.spans[i]);
        i = i + 1;
    }
    proof {
        assert(vs.subrange(0, n as int) =~= vs);
    }
    encode_u64(out, t.font_size_milli);
    encode_u64(out, t.line_height_milli);
    encode_color(out, &t.color);
    assert(out@ =~= old(out)@ + enc_text(t@));
}

/// Reads a text block at `pos`.
pub fn decode_text(b: &[u8], pos: usize) -> (r: Option<(Text, usize)>)
    ensures
        match r {
            Some(p) => {
                &&& dec_text(b@, pos as int) matches Some(q)
                &&& p.0@ == q.0
                &&& p.1 == q.1
            },
            None => dec_text(b@, pos as int) is None,
        },
{
    let (cnt, p1) = match decode_u64(b, pos) {
        Some(p) => p,
        None => { return None; },
    };
    let (spans, p2) = match decode_span_seq(b, p1, cnt) {
        Some(p) => p,
        None => { return None; },
    };
    let (font_size_milli, p3) = match decode_u64(b, p2) {
        Some(p) => p,
        None => { return None; },
    };
    let (line_height_milli, p4) = match decode_u64(b, p3) {
        Some(p) => p,
        None => { return None; },
    };
    let (color, p5) = match decode_color(b, p4) {
        Some(p) => p,
        None => { return None; },
    };
    Some((Text { spans, font_size_milli, line_height_milli, color }, p5))
}

// ------------------------------------------------------------------
// Runs of text blocks
// ------------------------------------------------------------------
/// Wire forms of a run of text blocks, concatenated.
pub open spec fn enc_text_seq(s: Seq<TextV>) -> Seq<u8>
    decreases s,
{
    if s.len() == 0 {
        Seq::empty()
    } else {
        enc_text(s[0]) + enc_text_seq(s.drop_first())
    }
}

/// Every block of the run fits.
pub open spec fn fits_text_seq(s: Seq<TextV>) -> bool
    decreases s,
{
    s.len() == 0 || (fits_text(s[0]) && fits_text_seq(s.drop_first()))
}

/// Decodes `cnt` text blocks in a row.
pub open spec fn dec_text_seq(b: Seq<u8>, pos: int, cnt: u64) -> Option<(Seq<TextV>, int)>
    decreases cnt,
{
    if cnt == 0 {
        Some((Seq::empty(), pos))
    } else {
        match dec_text(b, pos) {
            None => None,
            Some(hp) => match dec_text_seq(b, hp.1, (cnt - 1) as u64) {
                None => None,
                Some(tp) => Some((seq![hp.0] + tp.0, tp.1)),
            },
        }
    }
}

/// Decoding where a run of text blocks was encoded yields that run back.
pub proof fn lemma_dec_enc_text_seq(b: Seq<u8>, pos: int, s: Seq<TextV>)
    requires
        bytes_at(b, pos, enc_text_seq(s)),
        fits_text_seq(s),
        s.len() <= u64::MAX,
    ensures
        dec_text_seq(b, pos, s.len() as u64) == Some((s, pos + enc_text_seq(s).len())),
    decreases s,
{
    if s.len() == 0 {
        assert(s =~= Seq::<TextV>::empty());
    } else {
        let e1 = enc_text(s[0]);
        let e2 = enc_text_seq(s.drop_first());
        lemma_bytes_at_split(b, pos, e1, e2);
        lemma_dec_enc_text(b, pos, s[0]);
        lemma_dec_enc_text_seq(b, pos + e1.len(), s.drop_first());
        assert(seq![s[0]] + s.drop_first() =~= s);
    }
}

/// Appending one text block to a run appends its wire form.
pub proof fn lemma_enc_text_seq_push(s: Seq<TextV>, p: TextV)
    ensures
        enc_text_seq(s.push(p)) == enc_text_seq(s) + enc_text(p),
        fits_text_seq(s) && fits_text(p) ==> fits_text_seq(s.push(p)),
    decreases s,
{
    if s.len() == 0 {
        assert(s.push(p)[0] == p);
        assert(s.push(p).drop_first() =~= Seq::<TextV>::empty());
        assert(enc_text_seq(s.push(p)) == enc_text(p) + enc_text_seq(Seq::<TextV>::empty()));
        assert(enc_text(p) + Seq::<u8>::empty() =~= enc_text_seq(s) + enc_text(p));
        if fits_text(p) {
            assert(fits_text_seq(Seq::<TextV>::empty()));
            assert(s.push(p).drop_first() == Seq::<TextV>::empty());
            assert(fits_text_seq(s.push(p)));
        }
    } else {
        assert(s.push(p).drop_first() =~= s.drop_first().push(p));
        assert(s.push(p)[0] == s[0]);
        lemma_enc_text_seq_push(s.drop_first(), p);
        assert(enc_text_seq(s.push(p)) =~= enc_text_seq(s) + enc_text(p));
        if fits_text_seq(s) && fits_text(p) {
            assert(fits_text_seq(s.push(p)));
        }
    }
}

/// Reads `cnt` text blocks in a row at `pos`.
pub fn decode_text_seq(b: &[u8], pos: usize, cnt: u64) -> (r: Option<(Vec<Text>, usize)>)
    requires
        pos <= b@.len(),
    ensures
        match r {
            Some(p) => {
                &&& dec_text_seq(b@, pos as int, cnt) matches Some(q)
                &&& p.0@.map_values(|t: Text| t@) == q.0
                &&& p.1 == q.1
                &&& pos <= p.1 <= b@.len()
            },
            None => dec_text_seq(b@, pos as int, cnt) is None,
        },
    decreases cnt,
{
    if cnt == 0 {
        let v: Vec<Text> = Vec::new();
        assert(v@.map_values(|t: Text| t@) =~= Seq::<TextV>::empty());
        return Some((v, pos));
    }
    let (head, p1) = match decode_text(b, pos) {
        Some(p) => p,
        None => { return None; },
    };
    proof {
        let cnt0 = dec_u64_at(b@, pos as int);
        lemma_dec_span_seq_bounds(b@, pos as int + 8, cnt0);
        assert(pos <= p1 <= b@.len());
    }
    match decode_text_seq(b, p1, cnt - 1) {
        Some((rest, end)) => {
            let mut v = rest;
            let ghost tailv = v@;
            v.insert(0, head);
            proof {
                assert(v@ =~= seq![head] + tailv);
                assert(v@.map_values(|t: Text| t@) =~= seq![head@] + tailv.map_values(
                    |t: Text| t@,
                ));
            }
            Some((v, end))
        },
        None => None,
    }
}

// ------------------------------------------------------------------
// Canvas, Element, Dimension
// ------------------------------------------------------------------
/// A decoded run of text blocks ends at or after its start, inside the
/// buffer.
pub proof fn lemma_dec_text_seq_bounds(b: Seq<u8>, pos: int, cnt: u64)
    ensures
        dec_text_seq(b, pos, cnt) matches Some(q) ==> pos <= q.1 && (cnt > 0 ==> q.1 <= b.len()),
    decreases cnt,
{
    if cnt > 0 {
        if let Some(hp) = dec_text(b, pos) {
            let c0 = dec_u64_at(b, pos);
            lemma_dec_span_seq_bounds(b, pos + 8, c0);
            lemma_dec_text_seq_bounds(b, hp.1, (cnt - 1) as u64);
        }
    }
}

/// Wire form of a canvas: the number of text blocks, then the blocks.
pub open spec fn enc_canvas(c: CanvasV) -> Seq<u8> {
    enc_u64(c.texts.len() as u64) + enc_text_seq(c.texts)
}

/// The canvas's blocks are representable in their prefixes.
pub open spec fn fits_canvas(c: CanvasV) -> bool {
    c.texts.len() <= u64::MAX && fits_text_seq(c.texts)
}

/// The canvas whose wire form starts at `pos`, if any.
pub open spec fn dec_canvas(b: Seq<u8>, pos: int) -> Option<(CanvasV, int)> {
    if pos + 8 > b.len() {
        None
    } else {
        let cnt = dec_u64_at(b, pos);
        match dec_text_seq(b, pos + 8, cnt) {
            None => None,
            Some(texts) => Some((CanvasV { texts: texts.0 }, texts.1)),
        }
    }
}

/// Decoding where a canvas was encoded yields that canvas back.
pub proof fn lemma_dec_enc_canvas(b: Seq<u8>, pos: int, c: CanvasV)
    requires
        bytes_at(b, pos, enc_canvas(c)),
        fits_canvas(c),
    ensures
        dec_canvas(b, pos) == Some((c, pos + enc_canvas(c).len())),
{
    let e1 = enc_u64(c.texts.len() as u64);
    let e2 = enc_text_seq(c.texts);
    lemma_bytes_at_split(b, pos, e1, e2);
    lemma_dec_enc_u64(b, pos, c.texts.len() as u64);
    lemma_dec_enc_text_seq(b, pos + 8, c.texts);
}

/// Appends the wire form of `c` to `out`.
pub fn encode_canvas(out: &mut Vec<u8>, c: &Canvas)
    ensures
        final(out)@ == old(out)@ + enc_canvas(c@),
        fits_canvas(c@),
{
    let n = c.texts.len();
    encode_u64(out, n as u64);
    let ghost vs = c@.texts;
    let ghost base = out@;
    let mut i: usize = 0;
    while i < n
        invariant
            i <= n,
            n == c.texts.len(),
            vs == c.texts@.map_values(|t: Text| t@),
            out@ == base + enc_text_seq(vs.subrange(0, i as int)),
            fits_text_seq(vs.subrange(0, i as int)),
        decreases n - i,
    {
        proof {
            assert(vs.subrange(0, i + 1) =~= vs.subrange(0, i as int).push(vs[i as int]));
            lemma_enc_text_seq_push(vs.subrange(0, i as int), vs[i as int]);
        }
        encode_text(out, &c.texts[i]);
        i = i + 1;
    }
    proof {
        assert(vs.subrange(0, n as int) =~= vs);
        assert(out@ =~= old(out)@ + enc_canvas(c@));
    }
}

/// Reads a canvas at `pos`.
pub fn decode_canvas(b: &[u8], pos: usize) -> (r: Option<(Canvas, usize)>)
    ensures
        match r {
            Some(p) => {
                &&& dec_canvas(b@, pos as int) matches Some(q)
                &&& p.0@ == q.0
                &&& p.1 == q.1
            },
            None => dec_canvas(b@, pos as int) is None,
        },
{
    let (cnt, p1) = match decode_u64(b, pos) {
        Some(p) => p,
        None => { return None; },
    };
    let (texts, p2) = match decode_text_seq(b, p1, cnt) {
        Some(p) => p,
        None => { return None; },
    };
    Some((Canvas { texts }, p2))
}

/// Wire form of a dimension child.
pub open spec fn enc_element(e: ElementV) -> Seq<u8> {
    match e {
        ElementV::Canvas(c) => seq![0u8] + enc_canvas(c),
    }
}

/// The child's contents are representable in their prefixes.
pub open spec fn fits_element(e: ElementV) -> bool {
    match e {
        ElementV::Canvas(c) => fits_canvas(c),
    }
}

/// The dimension child whose wire form starts at `pos`, if any.
pub open spec fn dec_element(b: Seq<u8>, pos: int) -> Option<(ElementV, int)> {
    if pos + 1 > b.len() {
        None
    } else if b[pos] == 0u8 {
        match dec_canvas(b, pos + 1) {
            None => None,
            Some(c) => Some((ElementV::Canvas(c.0), c.1)),
        }
    } else {
        None
    }
}

/// Decoding where a dimension child was encoded yields that child back.
pub proof fn lemma_dec_enc_element(b: Seq<u8>, pos: int, e: ElementV)
    requires
        bytes_at(b, pos, enc_element(e)),
        fits_element(e),
    ensures
        dec_element(b, pos) == Some((e, pos + enc_element(e).len())),
{
    match e {
        ElementV::Canvas(c) => {
            lemma_bytes_at_split(b, pos, seq![0u8], enc_canvas(c));
            lemma_bytes_at_first(b, pos, seq![0u8]);
            lemma_dec_enc_canvas(b, pos + 1, c);
        },
    }
}

/// Appends the wire form of `e` to `out`.
pub fn encode_element(out: &mut Vec<u8>, e: &Element)
    ensures
        final(out)@ == old(out)@ + enc_element(e@),
        fits_element(e@),
{
    match e {
        Element::Canvas(c) => {
            out.push(0u8);
            encode_canvas(out, c);
            assert(out@ =~= old(out)@ + enc_element(e@));
        },
    }
}

/// Reads a dimension child at `pos`.
pub fn decode_element(b: &[u8], pos: usize) -> (r: Option<(Element, usize)>)
    ensures
        match r {
            Some(p) => {
                &&& dec_element(b@, pos as int) matches Some(q)
                &&& p.0@ == q.0
                &&& p.1 == q.1
            },
            None => dec_element(b@, pos as int) is None,
        },
{
    if pos >= b.len() {
        return None;
    }
    let tag = b[pos];
    if tag == 0u8 {
        match decode_canvas(b, pos + 1) {
            Some((c, end)) => Some((Element::Canvas(c), end)),
            None => None,
        }
    } else {
        None
    }
}

/// Wire forms of a run of dimension children, concatenated.
pub open spec fn enc_element_seq(s: Seq<ElementV>) -> Seq<u8>
    decreases s,
{
    if s.len() == 0 {
        Seq::empty()
    } else {
        enc_element(s[0]) + enc_element_seq(s.drop_first())
    }
}

/// Every child of the run fits.
pub open spec fn fits_element_seq(s: Seq<ElementV>) -> bool
    decreases s,
{
    s.len() == 0 || (fits_element(s[0]) && fits_element_seq(s.drop_first()))
}

/// Decodes `cnt` dimension children in a row.
pub open spec fn dec_element_seq(b: Seq<u8>, pos: int, cnt: u64) -> Option<(Seq<ElementV>, int)>
    decreases cnt,
{
    if cnt == 0 {
        Some((Seq::empty(), pos))
    } else {
        match dec_element(b, pos) {
            None => None,
            Some(hp) => match dec_element_seq(b, hp.1, (cnt - 1) as u64) {
                None => None,
                Some(tp) => Some((seq![hp.0] + tp.0, tp.1)),
            },
        }
    }
}

/// A decoded run of children ends at or after its start, inside the buffer.
pub proof fn lemma_dec_element_seq_bounds(b: Seq<u8>, pos: int, cnt: u64)
    ensures
        dec_element_seq(b, pos, cnt) matches Some(q) ==> pos <= q.1 && (cnt > 0 ==> q.1
            <= b.len()),
    decreases cnt,
{
    if cnt > 0 {
        if let Some(hp) = dec_element(b, pos) {
            if b[pos] == 0u8 {
                let c0 = dec_u64_at(b, pos + 1);
                lemma_dec_text_seq_bounds(b, pos + 9, c0);
            }
            lemma_dec_element_seq_bounds(b, hp.1, (cnt - 1) as u64);
        }
    }
}

/// Decoding where a run of children was encoded yields that run back.
pub proof fn lemma_dec_enc_element_seq(b: Seq<u8>, pos: int, s: Seq<ElementV>)
    requires
        bytes_at(b, pos, enc_element_seq(s)),
        fits_element_seq(s),
        s.len() <= u64::MAX,
    ensures
        dec_element_seq(b, pos, s.len() as u64) == Some((s, pos + enc_element_seq(s).len())),
    decreases s,
{
    if s.len() == 0 {
        assert(s =~= Seq::<ElementV>::empty());
    } else {
        let e1 = enc_element(s[0]);
        let e2 = enc_element_seq(s.drop_first());
        lemma_bytes_at_split(b, pos, e1, e2);
        lemma_dec_enc_element(b, pos, s[0]);
        lemma_dec_enc_element_seq(b, pos + e1.len(), s.drop_first());
        assert(seq![s[0]] + s.drop_first() =~= s);
    }
}

/// Appending one child to a run appends its wire form.
pub proof fn lemma_enc_element_seq_push(s: Seq<ElementV>, p: ElementV)
    ensures
        enc_element_seq(s.push(p)) == enc_element_seq(s) + enc_element(p),
        fits_element_seq(s) && fits_element(p) ==> fits_element_seq(s.push(p)),
    decreases s,
{
    if s.len() == 0 {
        assert(s.push(p)[0] == p);
        assert(s.push(p).drop_first() =~= Seq::<ElementV>::empty());
        assert(enc_element_seq(s.push(p)) == enc_element(p) + enc_element_seq(
            Seq::<ElementV>::empty(),
        ));
        assert(enc_element(p) + Seq::<u8>::empty() =~= enc_element_seq(s) + enc_element(p));
        if fits_element(p) {
            assert(fits_element_seq(Seq::<ElementV>::empty()));
            assert(s.push(p).drop_first() == Seq::<ElementV>::empty());
            assert(fits_element_seq(s.push(p)));
        }
    } else {
        assert(s.push(p).drop_first() =~= s.drop_first().push(p));
        assert(s.push(p)[0] == s[0]);
        lemma_enc_element_seq_push(s.drop_first(), p);
        assert(enc_element_seq(s.push(p)) =~= enc_element_seq(s) + enc_element(p));
        if fits_element_seq(s) && fits_element(p) {
            assert(fits_element_seq(s.push(p)));
        }
    }
}

/// Reads `cnt` dimension children in a row at `pos`.
pub fn decode_element_seq(b: &[u8], pos: usize, cnt: u64) -> (r: Option<(Vec<Element>, usize)>)
    requires
        pos <= b@.len(),
    ensures
        match r {
            Some(p) => {
                &&& dec_element_seq(b@, pos as int, cnt) matches Some(q)
                &&& p.0@.map_values(|e: Element| e@) == q.0
                &&& p.1 == q.1
                &&& pos <= p.1 <= b@.len()
            },
            None => dec_element_seq(b@, pos as int, cnt) is None,
        },
    decreases cnt,
{
    if cnt == 0 {
        let v: Vec<Element> = Vec::new();
        assert(v@.map_values(|e: Element| e@) =~= Seq::<ElementV>::empty());
        return Some((v, pos));
    }
    let (head, p1) = match decode_element(b, pos) {
        Some(p) => p,
        None => { return None; },
    };
    proof {
        if b@[pos as int] == 0u8 {
            let c0 = dec_u64_at(b@, pos as int + 1);
            lemma_dec_text_seq_bounds(b@, pos as int + 9, c0);
        }
        assert(pos <= p1 <= b@.len());
    }
    match decode_element_seq(b, p1, cnt - 1) {
        Some((rest, end)) => {
            let mut v = rest;
            let ghost tailv = v@;
            v.insert(0, head);
            proof {
                assert(v@ =~= seq![head] + tailv);
                assert(v@.map_values(|e: Element| e@) =~= seq![head@] + tailv.map_values(
                    |e: Element| e@,
                ));
            }
            Some((v, end))
        },
        None => None,
    }
}

/// Wire form of a dimension: its title, the number of children, then the
/// children.
pub open spec fn enc_dimension(d: DimensionV) -> Seq<u8> {
    enc_str(d.title) + enc_u64(d.children.len() as u64) + enc_element_seq(d.children)
}

/// The dimension's contents are representable in their prefixes.
pub open spec fn fits_dimension(d: DimensionV) -> bool {
    &&& fits_str(d.title)
    &&& d.children.len() <= u64::MAX
    &&& fits_element_seq(d.children)
}

/// The dimension whose wire form starts at `pos`, if any.
pub open spec fn dec_dimension(b: Seq<u8>, pos: int) -> Option<(DimensionV, int)> {
    match dec_str(b, pos) {
        None => None,
        Some(title) => {
            if title.1 + 8 > b.len() {
                None
            } else {
                let cnt = dec_u64_at(b, title.1);
                match dec_element_seq(b, title.1 + 8, cnt) {
                    None => None,
                    Some(children) => Some(
                        (DimensionV { title: title.0, children: children.0 }, children.1),
                    ),
                }
            }
        },
    }
}

/// Decoding where a dimension was encoded yields that dimension back.
pub proof fn lemma_dec_enc_dimension(b: Seq<u8>, pos: int, d: DimensionV)
    requires
        bytes_at(b, pos, enc_dimension(d)),
        fits_dimension(d),
    ensures
        dec_dimension(b, pos) == Some((d, pos + enc_dimension(d).len())),
{
    let e1 = enc_str(d.title);
    let e2 = enc_u64(d.children.len() as u64);
    let e3 = enc_element_seq(d.children);
    assert(enc_dimension(d) =~= e1 + (e2 + e3));
    lemma_bytes_at_split(b, pos, e1, e2 + e3);
    let p1 = pos + e1.len();
    lemma_bytes_at_split(b, p1, e2, e3);
    lemma_dec_enc_str(b, pos, d.title);
    lemma_dec_enc_u64(b, p1, d.children.len() as u64);
    lemma_dec_enc_element_seq(b, p1 + 8, d.children);
}

/// Appends the wire form of `d` to `out`.
pub fn encode_dimension(out: &mut Vec<u8>, d: &Dimension)
    ensures
        final(out)@ == old(out)@ + enc_dimension(d@),
        fits_dimension(d@),
{
    encode_str(out, d.title.as_str());
    let n = d.children.len();
    encode_u64(out, n as u64);
    let ghost vs = d@.children;
    let ghost base = out@;
    let mut i: usize = 0;
    while i < n
        invariant
            i <= n,
            n == d.children.len(),
            vs == d.children@.map_values(|e: Element| e@),
            out@ == base + enc_element_seq(vs.subrange(0, i as int)),
            fits_element_seq(vs.subrange(0, i as int)),
        decreases n - i,
    {
        proof {
            assert(vs.subrange(0, i + 1) =~= vs.subrange(0, i as int).push(vs[i as int]));
            lemma_enc_element_seq_push(vs.subrange(0, i as int), vs[i as int]);
        }
        encode_element(out, &d.children[i]);
        i = i + 1;
    }
    proof {
        assert(vs.subrange(0, n as int) =~= vs);
        assert(out@ =~= old(out)@ + enc_dimension(d@));
    }
}

/// Reads a dimension at `pos`.
pub fn decode_dimension(b: &[u8], pos: usize) -> (r: Option<(Dimension, usize)>)
    ensures
        match r {
            Some(p) => {
                &&& dec_dimension(b@, pos as int) matches Some(q)
                &&& p.0@ == q.0
                &&& p.1 == q.1
            },
            None => dec_dimension(b@, pos as int) is None,
        },
{
    let (title, p1) = match decode_str(b, pos) {
        Some(p) => p,
        None => { return None; },
    };
    let (cnt, p2) = match decode_u64(b, p1) {
        Some(p) => p,
        None => { return None; },
    };
    let (children, p3) = match decode_element_seq(b, p2, cnt) {
        Some(p) => p,
        None => { return None; },
    };
    Some((Dimension { title, children }, p3))
}

// ------------------------------------------------------------------
// Typed queries and responses
// ------------------------------------------------------------------
/// Wire form of a common query.
pub open spec fn enc_common_query(q: CommonQueryV) -> Seq<u8> {
    match q {
        CommonQueryV::AskMetadata => seq![0u8],
        CommonQueryV::Ping { message } => seq![1u8] + enc_str(message),
    }
}

/// The query's strings are representable in their prefixes.
pub open spec fn fits_common_query(q: CommonQueryV) -> bool {
    match q {
        CommonQueryV::AskMetadata => true,
        CommonQueryV::Ping { message } => fits_str(message),
    }
}

/// The common query whose wire form starts at `pos`, if any.
pub open spec fn dec_common_query(b: Seq<u8>, pos: int) -> Option<(CommonQueryV, int)> {
    if pos + 1 > b.len() {
        None
    } else if b[pos] == 0u8 {
        Some((CommonQueryV::AskMetadata, pos + 1))
    } else if b[pos] == 1u8 {
        match dec_str(b, pos + 1) {
            Some(p) => Some((CommonQueryV::Ping { message: p.0 }, p.1)),
            None => None,
        }
    } else {
        None
    }
}

/// Decoding where a common query was encoded yields that query back.
pub proof fn lemma_dec_enc_common_query(b: Seq<u8>, pos: int, q: CommonQueryV)
    requires
        bytes_at(b, pos, enc_common_query(q)),
        fits_common_query(q),
    ensures
        dec_common_query(b, pos) == Some((q, pos + enc_common_query(q).len())),
{
    match q {
        CommonQueryV::AskMetadata => {
            lemma_bytes_at_first(b, pos, enc_common_query(q));
        },
        CommonQueryV::Ping { message } => {
            lemma_bytes_at_split(b, pos, seq![1u8], enc_str(message));
            lemma_bytes_at_first(b, pos, seq![1u8]);
            lemma_dec_enc_str(b, pos + 1, message);
        },
    }
}

/// Appends the wire form of `q` to `out`.
pub fn encode_common_query(out: &mut Vec<u8>, q: &CommonQuery)
    ensures
        final(out)@ == old(out)@ + enc_common_query(q@),
        fits_common_query(q@),
{
    match q {
        CommonQuery::AskMetadata => out.push(0u8),
        CommonQuery::Ping { message } => {
            out.push(1u8);
            encode_str(out, message.as_str());
        },
    }
    assert(out@ =~= old(out)@ + enc_common_query(q@));
}

/// Reads a common query at `pos`.
pub fn decode_common_query(b: &[u8], pos: usize) -> (r: Option<(CommonQuery, usize)>)
    ensures
        match r {
            Some(p) => {
                &&& dec_common_query(b@, pos as int) matches Some(q)
                &&& p.0@ == q.0
                &&& p.1 == q.1
            },
            None => dec_common_query(b@, pos as int) is None,
        },
{
    if pos >= b.len() {
        return None;
    }
    let tag = b[pos];
    if tag == 0u8 {
        Some((CommonQuery::AskMetadata, pos + 1))
    } else if tag == 1u8 {
        match decode_str(b, pos + 1) {
            Some((message, end)) => Some((CommonQuery::Ping { message }, end)),
            None => None,
        }
    } else {
        None
    }
}

/// Wire form of a common response.
pub open spec fn enc_common_response(r: CommonResponseV) -> Seq<u8> {
    match r {
        CommonResponseV::Metadata(m) => seq![0u8] + enc_metadata(m),
        CommonResponseV::Pong { response } => seq![1u8] + enc_str(response),
    }
}

/// The response's contents are representable in their prefixes.
pub open spec fn fits_common_response(r: CommonResponseV) -> bool {
    match r {
        CommonResponseV::Metadata(m) => fits_metadata(m),
        CommonResponseV::Pong { response } => fits_str(response),
    }
}

/// The common response whose wire form starts at `pos`, if any.
pub open spec fn dec_common_response(b: Seq<u8>, pos: int) -> Option<(CommonResponseV, int)> {
    if pos + 1 > b.len() {
        None
    } else if b[pos] == 0u8 {
        match dec_metadata(b, pos + 1) {
            Some(p) => Some((CommonResponseV::Metadata(p.0), p.1)),
            None => None,
        }
    } else if b[pos] == 1u8 {
        match dec_str(b, pos + 1) {
            Some(p) => Some((CommonResponseV::Pong { response: p.0 }, p.1)),
            None => None,
        }
    } else {
        None
    }
}

/// Decoding where a common response was encoded yields that response back.
pub proof fn lemma_dec_enc_common_response(b: Seq<u8>, pos: int, r: CommonResponseV)
    requires
        bytes_at(b, pos, enc_common_response(r)),
        fits_common_response(r),
    ensures
        dec_common_response(b, pos) == Some((r, pos + enc_common_response(r).len())),
{
    match r {
        CommonResponseV::Metadata(m) => {
            lemma_bytes_at_split(b, pos, seq![0u8], enc_metadata(m));
            lemma_bytes_at_first(b, pos, seq![0u8]);
            lemma_dec_enc_metadata(b, pos + 1, m);
        },
        CommonResponseV::Pong { response } => {
            lemma_bytes_at_split(b, pos, seq![1u8], enc_str(response));
            lemma_bytes_at_first(b, pos, seq![1u8]);
            lemma_dec_enc_str(b, pos + 1, response);
        },
    }
}

/// Appends the wire form of `r` to `out`.
pub fn encode_common_response(out: &mut Vec<u8>, r: &CommonResponse)
    ensures
        final(out)@ == old(out)@ + enc_common_response(r@),
        fits_common_response(r@),
{
    match r {
        CommonResponse::Metadata(m) => {
            out.push(0u8);
            encode_metadata(out, m);
        },
        CommonResponse::Pong { response } => {
            out.push(1u8);
            encode_str(out, response.as_str());
        },
    }
    assert(out@ =~= old(out)@ + enc_common_response(r@));
}

/// Reads a common response at `pos`.
pub fn decode_common_response(b: &[u8], pos: usize) -> (r: Option<(CommonResponse, usize)>)
    ensures
        match r {
            Some(p) => {
                &&& dec_common_response(b@, pos as int) matches Some(q)
                &&& p.0@ == q.0
                &&& p.1 == q.1
            },
            None => dec_common_response(b@, pos as int) is None,
        },
{
    if pos >= b.len() {
        return None;
    }
    let tag = b[pos];
    if tag == 0u8 {
        match decode_metadata(b, pos + 1) {
            Some((m, end)) => Some((CommonResponse::Metadata(m), end)),
            None => None,
        }
    } else if tag == 1u8 {
        match decode_str(b, pos + 1) {
            Some((response, end)) => Some((CommonResponse::Pong { response }, end)),
            None => None,
        }
    } else {
        None
    }
}

/// Wire form of a home-screen query.
pub open spec fn enc_homescreen_query(q: HomescreenQuery) -> Seq<u8> {
    seq![0u8]
}

/// The home-screen query whose wire form starts at `pos`, if any.
pub open spec fn dec_homescreen_query(b: Seq<u8>, pos: int) -> Option<(HomescreenQuery, int)> {
    if pos + 1 > b.len() {
        None
    } else if b[pos] == 0u8 {
        Some((HomescreenQuery::AskHomeScreen, pos + 1))
    } else {
        None
    }
}

/// Decoding where a home-screen query was encoded yields that query back.
pub proof fn lemma_dec_enc_homescreen_query(b: Seq<u8>, pos: int, q: HomescreenQuery)
    requires
        bytes_at(b, pos, enc_homescreen_query(q)),
    ensures
        dec_homescreen_query(b, pos) == Some((q, pos + 1)),
{
    lemma_bytes_at_first(b, pos, enc_homescreen_query(q));
}

/// Appends the wire form of `q` to `out`.
pub fn encode_homescreen_query(out: &mut Vec<u8>, q: &HomescreenQuery)
    ensures
        final(out)@ == old(out)@ + enc_homescreen_query(q@),
{
    match q {
        HomescreenQuery::AskHomeScreen => out.push(0u8),
    }
    assert(out@ =~= old(out)@ + enc_homescreen_query(q@));
}

/// Reads a home-screen query at `pos`.
pub fn decode_homescreen_query(b: &[u8], pos: usize) -> (r: Option<(HomescreenQuery, usize)>)
    ensures
        match r {
            Some(p) => dec_homescreen_query(b@, pos as int) == Some((p.0@, p.1 as int)),
            None => dec_homescreen_query(b@, pos as int) is None,
        },
{
    if pos >= b.len() {
        return None;
    }
    if b[pos] == 0u8 {
        Some((HomescreenQuery::AskHomeScreen, pos + 1))
    } else {
        None
    }
}

/// Wire form of a home-screen response.
pub open spec fn enc_homescreen_response(r: HomescreenResponseV) -> Seq<u8> {
    match r {
        HomescreenResponseV::HomeScreen { mime_type, data } => seq![0u8] + enc_str(mime_type)
            + enc_data_type(data),
    }
}

/// The response's contents are representable in their prefixes.
pub open spec fn fits_homescreen_response(r: HomescreenResponseV) -> bool {
    match r {
        HomescreenResponseV::HomeScreen { mime_type, data } => fits_str(mime_type)
            && fits_data_type(data),
    }
}

/// The home-screen response whose wire form starts at `pos`, if any.
pub open spec fn dec_homescreen_response(b: Seq<u8>, pos: int) -> Option<
    (HomescreenResponseV, int),
> {
    if pos + 1 > b.len() {
        None
    } else if b[pos] == 0u8 {
        match dec_str(b, pos + 1) {
            None => None,
            Some(mime_type) => match dec_data_type(b, mime_type.1) {
                None => None,
                Some(data) => Some(
                    (
                        HomescreenResponseV::HomeScreen { mime_type: mime_type.0, data: data.0 },
                        data.1,
                    ),
                ),
            },
        }
    } else {
        None
    }
}

/// Decoding where a home-screen response was encoded yields it back.
pub proof fn lemma_dec_enc_homescreen_response(b: Seq<u8>, pos: int, r: HomescreenResponseV)
    requires
        bytes_at(b, pos, enc_homescreen_response(r)),
        fits_homescreen_response(r),
    ensures
        dec_homescreen_response(b, pos) == Some((r, pos + enc_homescreen_response(r).len())),
{
    match r {
        HomescreenResponseV::HomeScreen { mime_type, data } => {
            assert(enc_homescreen_response(r) =~= seq![0u8] + (enc_str(mime_type) + enc_data_type(
                data,
            )));
            lemma_bytes_at_split(b, pos, seq![0u8], enc_str(mime_type) + enc_data_type(data));
            lemma_bytes_at_first(b, pos, seq![0u8]);
            lemma_bytes_at_split(b, pos + 1, enc_str(mime_type), enc_data_type(data));
            lemma_dec_enc_str(b, pos + 1, mime_type);
            lemma_dec_enc_data_type(b, pos + 1 + enc_str(mime_type).len(), data);
        },
    }
}

/// Appends the wire form of `r` to `out`.
pub fn encode_homescreen_response(out: &mut Vec<u8>, r: &HomescreenResponse)
    ensures
        final(out)@ == old(out)@ + enc_homescreen_response(r@),
        fits_homescreen_response(r@),
{
    match r {
        HomescreenResponse::HomeScreen { mime_type, data } => {
            out.push(0u8);
            encode_str(out, mime_type.as_str());
            encode_data_type(out, data);
        },
    }
    assert(out@ =~= old(out)@ + enc_homescreen_response(r@));
}

/// Reads a home-screen response at `pos`.
pub fn decode_homescreen_response(b: &[u8], pos: usize) -> (r: Option<(HomescreenResponse, usize)>)
    ensures
        match r {
            Some(p) => {
                &&& dec_homescreen_response(b@, pos as int) matches Some(q)
                &&& p.0@ == q.0
                &&& p.1 == q.1
            },
            None => dec_homescreen_response(b@, pos as int) is None,
        },
{
    if pos >= b.len() {
        return None;
    }
    if b[pos] != 0u8 {
        return None;
    }
    let (mime_type, p1) = match decode_str(b, pos + 1) {
        Some(p) => p,
        None => { return None; },
    };
    let (data, p2) = match decode_data_type(b, p1) {
        Some(p) => p,
        None => { return None; },
    };
    Some((HomescreenResponse::HomeScreen { mime_type, data }, p2))
}

/// Wire form of a MIME-type query.
pub open spec fn enc_mimetype_query(q: MimetypeQueryV) -> Seq<u8> {
    match q {
        MimetypeQueryV::AskParse { data } => seq![0u8] + enc_data_type(data),
    }
}

/// The query's payload is representable in its prefixes.
pub open spec fn fits_mimetype_query(q: MimetypeQueryV) -> bool {
    match q {
        MimetypeQueryV::AskParse { data } => fits_data_type(data),
    }
}

/// The MIME-type query whose wire form starts at `pos`, if any.
pub open spec fn dec_mimetype_query(b: Seq<u8>, pos: int) -> Option<(MimetypeQueryV, int)> {
    if pos + 1 > b.len() {
        None
    } else if b[pos] == 0u8 {
        match dec_data_type(b, pos + 1) {
            Some(p) => Some((MimetypeQueryV::AskParse { data: p.0 }, p.1)),
            None => None,
        }
    } else {
        None
    }
}

/// Decoding where a MIME-type query was encoded yields that query back.
pub proof fn lemma_dec_enc_mimetype_query(b: Seq<u8>, pos: int, q: MimetypeQueryV)
    requires
        bytes_at(b, pos, enc_mimetype_query(q)),
        fits_mimetype_query(q),
    ensures
        dec_mimetype_query(b, pos) == Some((q, pos + enc_mimetype_query(q).len())),
{
    match q {
        MimetypeQueryV::AskParse { data } => {
            lemma_bytes_at_split(b, pos, seq![0u8], enc_data_type(data));
            lemma_bytes_at_first(b, pos, seq![0u8]);
            lemma_dec_enc_data_type(b, pos + 1, data);
        },
    }
}

/// Appends the wire form of `q` to `out`.
pub fn encode_mimetype_query(out: &mut Vec<u8>, q: &MimetypeQuery)
    ensures
        final(out)@ == old(out)@ + enc_mimetype_query(q@),
        fits_mimetype_query(q@),
{
    match q {
        MimetypeQuery::AskParse { data } => {
            out.push(0u8);
            encode_data_type(out, data);
        },
    }
    assert(out@ =~= old(out)@ + enc_mimetype_query(q@));
}

/// Reads a MIME-type query at `pos`.
pub fn decode_mimetype_query(b: &[u8], pos: usize) -> (r: Option<(MimetypeQuery, usize)>)
    ensures
        match r {
            Some(p) => {
                &&& dec_mimetype_query(b@, pos as int) matches Some(q)
                &&& p.0@ == q.0
                &&& p.1 == q.1
            },
            None => dec_mimetype_query(b@, pos as int) is None,
        },
{
    if pos >= b.len() {
        return None;
    }
    if b[pos] != 0u8 {
        return None;
    }
    match decode_data_type(b, pos + 1) {
        Some((data, end)) => Some((MimetypeQuery::AskParse { data }, end)),
        None => None,
    }
}

/// Wire form of a MIME-type response.
pub open spec fn enc_mimetype_response(r: MimetypeResponseV) -> Seq<u8> {
    match r {
        MimetypeResponseV::Dimension(d) => seq![0u8] + enc_dimension(d),
    }
}

/// The response's contents are representable in their prefixes.
pub open spec fn fits_mimetype_response(r: MimetypeResponseV) -> bool {
    match r {
        MimetypeResponseV::Dimension(d) => fits_dimension(d),
    }
}

/// The MIME-type response whose wire form starts at `pos`, if any.
pub open spec fn dec_mimetype_response(b: Seq<u8>, pos: int) -> Option<(MimetypeResponseV, int)> {
    if pos + 1 > b.len() {
        None
    } else if b[pos] == 0u8 {
        match dec_dimension(b, pos + 1) {
            Some(p) => Some((MimetypeResponseV::Dimension(p.0), p.1)),
            None => None,
        }
    } else {
        None
    }
}

/// Decoding where a MIME-type response was encoded yields it back.
pub proof fn lemma_dec_enc_mimetype_response(b: Seq<u8>, pos: int, r: MimetypeResponseV)
    requires
        bytes_at(b, pos, enc_mimetype_response(r)),
        fits_mimetype_response(r),
    ensures
        dec_mimetype_response(b, pos) == Some((r, pos + enc_mimetype_response(r).len())),
{
    match r {
        MimetypeResponseV::Dimension(d) => {
            lemma_bytes_at_split(b, pos, seq![0u8], enc_dimension(d));
            lemma_bytes_at_first(b, pos, seq![0u8]);
            lemma_dec_enc_dimension(b, pos + 1, d);
        },
    }
}

/// Appends the wire form of `r` to `out`.
pub fn encode_mimetype_response(out: &mut Vec<u8>, r: &MimetypeResponse)
    ensures
        final(out)@ == old(out)@ + enc_mimetype_response(r@),
        fits_mimetype_response(r@),
{
    match r {
        MimetypeResponse::Dimension(d) => {
            out.push(0u8);
            encode_dimension(out, d);
        },
    }
    assert(out@ =~= old(out)@ + enc_mimetype_response(r@));
}

/// Reads a MIME-type response at `pos`.
pub fn decode_mimetype_response(b: &[u8], pos: usize) -> (r: Option<(MimetypeResponse, usize)>)
    ensures
        match r {
            Some(p) => {
                &&& dec_mimetype_response(b@, pos as int) matches Some(q)
                &&& p.0@ == q.0
                &&& p.1 == q.1
            },
            None => dec_mimetype_response(b@, pos as int) is None,
        },
{
    if pos >= b.len() {
        return None;
    }
    if b[pos] != 0u8 {
        return None;
    }
    match decode_dimension(b, pos + 1) {
        Some((d, end)) => Some((MimetypeResponse::Dimension(d), end)),
        None => None,
    }
}

// ------------------------------------------------------------------
// Per-call results: every response travels as success or guest error
// ------------------------------------------------------------------
/// Wire form of a common-contract call result.
pub open spec fn enc_common_result(r: Result<CommonResponseV, WrapErrorV>) -> Seq<u8> {
    match r {
        Result::Ok(resp) => seq![0u8] + enc_common_response(resp),
        Result::Err(e) => seq![1u8] + enc_wrap_error(e),
    }
}

/// The result's contents are representable in their prefixes.
pub open spec fn fits_common_result(r: Result<CommonResponseV, WrapErrorV>) -> bool {
    match r {
        Result::Ok(resp) => fits_common_response(resp),
        Result::Err(e) => fits_wrap_error(e),
    }
}

/// The call result whose wire form starts at `pos`, if any.
pub open spec fn dec_common_result(b: Seq<u8>, pos: int) -> Option<
    (Result<CommonResponseV, WrapErrorV>, int),
> {
    if pos + 1 > b.len() {
        None
    } else if b[pos] == 0u8 {
        match dec_common_response(b, pos + 1) {
            Some(p) => Some((Result::Ok(p.0), p.1)),
            None => None,
        }
    } else if b[pos] == 1u8 {
        match dec_wrap_error(b, pos + 1) {
            Some(p) => Some((Result::Err(p.0), p.1)),
            None => None,
        }
    } else {
        None
    }
}

/// Decoding where a call result was encoded yields that result back.
pub proof fn lemma_dec_enc_common_result(b: Seq<u8>, pos: int, r: Result<
    CommonResponseV,
    WrapErrorV,
>)
    requires
        bytes_at(b, pos, enc_common_result(r)),
        fits_common_result(r),
    ensures
        dec_common_result(b, pos) == Some((r, pos + enc_common_result(r).len())),
{
    match r {
        Result::Ok(resp) => {
            lemma_bytes_at_split(b, pos, seq![0u8], enc_common_response(resp));
            lemma_bytes_at_first(b, pos, seq![0u8]);
            lemma_dec_enc_common_response(b, pos + 1, resp);
        },
        Result::Err(e) => {
            lemma_bytes_at_split(b, pos, seq![1u8], enc_wrap_error(e));
            lemma_bytes_at_first(b, pos, seq![1u8]);
            lemma_dec_enc_wrap_error(b, pos + 1, e);
        },
    }
}

/// Appends the wire form of `r` to `out`.
pub fn encode_common_result(out: &mut Vec<u8>, r: &Result<CommonResponse, WrapError>)
    ensures
        final(out)@ == old(out)@ + enc_common_result(result_view(r)),
        fits_common_result(result_view(r)),
{
    match r {
        Result::Ok(resp) => {
            out.push(0u8);
            encode_common_response(out, resp);
        },
        Result::Err(e) => {
            out.push(1u8);
            encode_wrap_error(out, e);
        },
    }
    assert(out@ =~= old(out)@ + enc_common_result(result_view(r)));
}

/// The value of a typed call result.
pub open spec fn result_view<T: View, E: View>(r: &Result<T, E>) -> Result<T::V, E::V> {
    match r {
        Result::Ok(t) => Result::Ok(t@),
        Result::Err(e) => Result::Err(e@),
    }
}

/// Reads a common-contract call result at `pos`.
pub fn decode_common_result(b: &[u8], pos: usize) -> (r: Option<
    (Result<CommonResponse, WrapError>, usize),
>)
    ensures
        match r {
            Some(p) => {
                &&& dec_common_result(b@, pos as int) matches Some(q)
                &&& result_view(&p.0) == q.0
                &&& p.1 == q.1
            },
            None => dec_common_result(b@, pos as int) is None,
        },
{
    if pos >= b.len() {
        return None;
    }
    let tag = b[pos];
    if tag == 0u8 {
        match decode_common_response(b, pos + 1) {
            Some((resp, end)) => Some((Result::Ok(resp), end)),
            None => None,
        }
    } else if tag == 1u8 {
        match decode_wrap_error(b, pos + 1) {
            Some((e, end)) => Some((Result::Err(e), end)),
            None => None,
        }
    } else {
        None
    }
}

/// Wire form of a home-screen-contract call result.
pub open spec fn enc_homescreen_result(r: Result<HomescreenResponseV, WrapErrorV>) -> Seq<u8> {
    match r {
        Result::Ok(resp) => seq![0u8] + enc_homescreen_response(resp),
        Result::Err(e) => seq![1u8] + enc_wrap_error(e),
    }
}

/// The result's contents are representable in their prefixes.
pub open spec fn fits_homescreen_result(r: Result<HomescreenResponseV, WrapErrorV>) -> bool {
    match r {
        Result::Ok(resp) => fits_homescreen_response(resp),
        Result::Err(e) => fits_wrap_error(e),
    }
}

/// The call result whose wire form starts at `pos`, if any.
pub open spec fn dec_homescreen_result(b: Seq<u8>, pos: int) -> Option<
    (Result<HomescreenResponseV, WrapErrorV>, int),
> {
    if pos + 1 > b.len() {
        None
    } else if b[pos] == 0u8 {
        match dec_homescreen_response(b, pos + 1) {
            Some(p) => Some((Result::Ok(p.0), p.1)),
            None => None,
        }
    } else if b[pos] == 1u8 {
        match dec_wrap_error(b, pos + 1) {
            Some(p) => Some((Result::Err(p.0), p.1)),
            None => None,
        }
    } else {
        None
    }
}

/// Decoding where a call result was encoded yields that result back.
pub proof fn lemma_dec_enc_homescreen_result(b: Seq<u8>, pos: int, r: Result<
    HomescreenResponseV,
    WrapErrorV,
>)
    requires
        bytes_at(b, pos, enc_homescreen_result(r)),
        fits_homescreen_result(r),
    ensures
        dec_homescreen_result(b, pos) == Some((r, pos + enc_homescreen_result(r).len())),
{
    match r {
        Result::Ok(resp) => {
            lemma_bytes_at_split(b, pos, seq![0u8], enc_homescreen_response(resp));
            lemma_bytes_at_first(b, pos, seq![0u8]);
            lemma_dec_enc_homescreen_response(b, pos + 1, resp);
        },
        Result::Err(e) => {
            lemma_bytes_at_split(b, pos, seq![1u8], enc_wrap_error(e));
            lemma_bytes_at_first(b, pos, seq![1u8]);
            lemma_dec_enc_wrap_error(b, pos + 1, e);
        },
    }
}

/// Appends the wire form of `r` to `out`.
pub fn encode_homescreen_result(out: &mut Vec<u8>, r: &Result<HomescreenResponse, WrapError>)
    ensures
        final(out)@ == old(out)@ + enc_homescreen_result(result_view(r)),
        fits_homescreen_result(result_view(r)),
{
    match r {
        Result::Ok(resp) => {
            out.push(0u8);
            encode_homescreen_response(out, resp);
        },
        Result::Err(e) => {
            out.push(1u8);
            encode_wrap_error(out, e);
        },
    }
    assert(out@ =~= old(out)@ + enc_homescreen_result(result_view(r)));
}

/// Reads a home-screen-contract call result at `pos`.
pub fn decode_homescreen_result(b: &[u8], pos: usize) -> (r: Option<
    (Result<HomescreenResponse, WrapError>, usize),
>)
    ensures
        match r {
            Some(p) => {
                &&& dec_homescreen_result(b@, pos as int) matches Some(q)
                &&& result_view(&p.0) == q.0
                &&& p.1 == q.1
            },
            None => dec_homescreen_result(b@, pos as int) is None,
        },
{
    if pos >= b.len() {
        return None;
    }
    let tag = b[pos];
    if tag == 0u8 {
        match decode_homescreen_response(b, pos + 1) {
            Some((resp, end)) => Some((Result::Ok(resp), end)),
            None => None,
        }
    } else if tag == 1u8 {
        match decode_wrap_error(b, pos + 1) {
            Some((e, end)) => Some((Result::Err(e), end)),
            None => None,
        }
    } else {
        None
    }
}

/// Wire form of a MIME-type-contract call result.
pub open spec fn enc_mimetype_result(r: Result<MimetypeResponseV, WrapErrorV>) -> Seq<u8> {
    match r {
        Result::Ok(resp) => seq![0u8] + enc_mimetype_response(resp),
        Result::Err(e) => seq![1u8] + enc_wrap_error(e),
    }
}

/// The result's contents are representable in their prefixes.
pub open spec fn fits_mimetype_result(r: Result<MimetypeResponseV, WrapErrorV>) -> bool {
    match r {
        Result::Ok(resp) => fits_mimetype_response(resp),
        Result::Err(e) => fits_wrap_error(e),
    }
}

/// The call result whose wire form starts at `pos`, if any.
pub open spec fn dec_mimetype_result(b: Seq<u8>, pos: int) -> Option<
    (Result<MimetypeResponseV, WrapErrorV>, int),
> {
    if pos + 1 > b.len() {
        None
    } else if b[pos] == 0u8 {
        match dec_mimetype_response(b, pos + 1) {
            Some(p) => Some((Result::Ok(p.0), p.1)),
            None => None,
        }
    } else if b[pos] == 1u8 {
        match dec_wrap_error(b, pos + 1) {
            Some(p) => Some((Result::Err(p.0), p.1)),
            None => None,
        }
    } else {
        None
    }
}

/// Decoding where a call result was encoded yields that result back.
pub proof fn lemma_dec_enc_mimetype_result(b: Seq<u8>, pos: int, r: Result<
    MimetypeResponseV,
    WrapErrorV,
>)
    requires
        bytes_at(b, pos, enc_mimetype_result(r)),
        fits_mimetype_result(r),
    ensures
        dec_mimetype_result(b, pos) == Some((r, pos + enc_mimetype_result(r).len())),
{
    match r {
        Result::Ok(resp) => {
            lemma_bytes_at_split(b, pos, seq![0u8], enc_mimetype_response(resp));
            lemma_bytes_at_first(b, pos, seq![0u8]);
            lemma_dec_enc_mimetype_response(b, pos + 1, resp);
        },
        Result::Err(e) => {
            lemma_bytes_at_split(b, pos, seq![1u8], enc_wrap_error(e));
            lemma_bytes_at_first(b, pos, seq![1u8]);
            lemma_dec_enc_wrap_error(b, pos + 1, e);
        },
    }
}

/// Appends the wire form of `r` to `out`.
pub fn encode_mimetype_result(out: &mut Vec<u8>, r: &Result<MimetypeResponse, WrapError>)
    ensures
        final(out)@ == old(out)@ + enc_mimetype_result(result_view(r)),
        fits_mimetype_result(result_view(r)),
{
    match r {
        Result::Ok(resp) => {
            out.push(0u8);
            encode_mimetype_response(out, resp);
        },
        Result::Err(e) => {
            out.push(1u8);
            encode_wrap_error(out, e);
        },
    }
    assert(out@ =~= old(out)@ + enc_mimetype_result(result_view(r)));
}

/// Reads a MIME-type-contract call result at `pos`.
pub fn decode_mimetype_result(b: &[u8], pos: usize) -> (r: Option<
    (Result<MimetypeResponse, WrapError>, usize),
>)
    ensures
        match r {
            Some(p) => {
                &&& dec_mimetype_result(b@, pos as int) matches Some(q)
                &&& result_view(&p.0) == q.0
                &&& p.1 == q.1
            },
            None => dec_mimetype_result(b@, pos as int) is None,
        },
{
    if pos >= b.len() {
        return None;
    }
    let tag = b[pos];
    if tag == 0u8 {
        match decode_mimetype_response(b, pos + 1) {
            Some((resp, end)) => Some((Result::Ok(resp), end)),
            None => None,
        }
    } else if tag == 1u8 {
        match decode_wrap_error(b, pos + 1) {
            Some((e, end)) => Some((Result::Err(e), end)),
            None => None,
        }
    } else {
        None
    }
}

// ------------------------------------------------------------------
// Round trips: encoding then decoding is the identity
// ------------------------------------------------------------------
/// A byte range equals itself laid down at its own start.
pub proof fn lemma_bytes_at_self(e: Seq<u8>)
    ensures
        bytes_at(e, 0, e),
{
    assert(e.subrange(0, e.len() as int) =~= e);
}

/// For every common request: decoding its encoding yields it back.
pub proof fn lemma_round_trip_common_query(q: CommonQueryV)
    requires
        fits_common_query(q),
    ensures
        dec_common_query(enc_common_query(q), 0) == Some(
            (q, enc_common_query(q).len() as int),
        ),
{
    lemma_bytes_at_self(enc_common_query(q));
    lemma_dec_enc_common_query(enc_common_query(q), 0, q);
}

/// For every common response: decoding its encoding yields it back.
pub proof fn lemma_round_trip_common_response(r: CommonResponseV)
    requires
        fits_common_response(r),
    ensures
        dec_common_response(enc_common_response(r), 0) == Some(
            (r, enc_common_response(r).len() as int),
        ),
{
    lemma_bytes_at_self(enc_common_response(r));
    lemma_dec_enc_common_response(enc_common_response(r), 0, r);
}

/// For every home-screen request: decoding its encoding yields it back.
pub proof fn lemma_round_trip_homescreen_query(q: HomescreenQuery)
    ensures
        dec_homescreen_query(enc_homescreen_query(q), 0) == Some(
            (q, enc_homescreen_query(q).len() as int),
        ),
{
    lemma_bytes_at_self(enc_homescreen_query(q));
    lemma_dec_enc_homescreen_query(enc_homescreen_query(q), 0, q);
}

/// For every home-screen response: decoding its encoding yields it back.
pub proof fn lemma_round_trip_homescreen_response(r: HomescreenResponseV)
    requires
        fits_homescreen_response(r),
    ensures
        dec_homescreen_response(enc_homescreen_response(r), 0) == Some(
            (r, enc_homescreen_response(r).len() as int),
        ),
{
    lemma_bytes_at_self(enc_homescreen_response(r));
    lemma_dec_enc_homescreen_response(enc_homescreen_response(r), 0, r);
}

/// For every MIME-type request: decoding its encoding yields it back.
pub proof fn lemma_round_trip_mimetype_query(q: MimetypeQueryV)
    requires
        fits_mimetype_query(q),
    ensures
        dec_mimetype_query(enc_mimetype_query(q), 0) == Some(
            (q, enc_mimetype_query(q).len() as int),
        ),
{
    lemma_bytes_at_self(enc_mimetype_query(q));
    lemma_dec_enc_mimetype_query(enc_mimetype_query(q), 0, q);
}

/// For every MIME-type response: decoding its encoding yields it back.
pub proof fn lemma_round_trip_mimetype_response(r: MimetypeResponseV)
    requires
        fits_mimetype_response(r),
    ensures
        dec_mimetype_response(enc_mimetype_response(r), 0) == Some(
            (r, enc_mimetype_response(r).len() as int),
        ),
{
    lemma_bytes_at_self(enc_mimetype_response(r));
    lemma_dec_enc_mimetype_response(enc_mimetype_response(r), 0, r);
}

} // verus!
