//! The guest side of the protocol: a module's definition, the artifact
//! format it is compiled to, and the request router that decodes an incoming
//! query, dispatches it to the module's handler, and re-encodes the
//! response. The router always answers the metadata query; an unrecognized
//! query identifier yields `UnsupportedInterface`, and a recognized one
//! whose request variant has no handler case yields `UnsupportedSignal`.

use vstd::prelude::*;
use crate::codec::{
    enc_u64, enc_str, dec_str, fits_str, bytes_at, lemma_bytes_at_split, lemma_bytes_at_first,
    lemma_dec_enc_u64, lemma_dec_enc_str, encode_u64, decode_u64, encode_str, decode_str,
    dec_u64_at,
};
use crate::dom::{TextColor, Style, TextSpan, Text, Canvas, Element, Dimension, DimensionV};
use crate::interface::{
    DataType, DataTypeV, WrapType, WrapTypeV, Publisher, PublisherV, WrapMetdata, WrapMetdataV,
    InterfaceVersion, publisher_seq_view, lemma_publisher_seq_view,
};
use crate::wire::{
    enc_wrap_type, dec_wrap_type, fits_wrap_type, encode_wrap_type, decode_wrap_type,
    enc_publisher, dec_publisher_at, fits_publisher, encode_publisher, decode_publisher,
    enc_data_type, dec_data_type, fits_data_type, encode_data_type, decode_data_type,
    lemma_dec_enc_data_type, enc_common_result, fits_common_result, encode_common_result,
    enc_homescreen_result, fits_homescreen_result, encode_homescreen_result, enc_mimetype_result,
    fits_mimetype_result, encode_mimetype_result, dec_common_query, decode_common_query,
    dec_homescreen_query, decode_homescreen_query, dec_mimetype_query, decode_mimetype_query,
    enc_wrap_error, encode_wrap_error, result_view,
};
use crate::signal::{
    CommonQuery, CommonQueryV, CommonResponse, CommonResponseV, HomescreenQuery,
    HomescreenResponse, HomescreenResponseV, MimetypeQuery, MimetypeQueryV, MimetypeResponse,
    MimetypeResponseV, COMMON_QUERY_ID, HOMESCREEN_QUERY_ID, MIMETYPE_QUERY_ID,
};
use crate::interface::WrapError;
use crate::interface::WrapErrorV;
use crate::dom::{TextSpanV, TextV, CanvasV, ElementV};
use crate::memory::{pack, pack_spec, write_request, grow_to, PACK_LIMIT};
use vstd::utf8::encode_utf8;

verus! {

/// The home-screen content a module declares: the MIME type of its document
/// and the document itself.
#[derive(Debug)]
pub struct HomescreenContent {
    pub mime_type: String,
    pub data: DataType,
}

/// The mathematical value of a [`HomescreenContent`].
#[verifier::ext_equal]
pub struct HomescreenContentV {
    pub mime_type: Seq<char>,
    pub data: DataTypeV,
}

impl View for HomescreenContent {
    type V = HomescreenContentV;

    open spec fn view(&self) -> HomescreenContentV {
        HomescreenContentV { mime_type: self.mime_type@, data: self.data@ }
    }
}

/// Everything a module is: its metadata fields plus the handlers it
/// registers. The router serves exactly what the definition declares, so a
/// module's observable behaviour is a function of this record.
#[derive(Debug)]
pub struct WrapDef {
    pub name: String,
    pub version: String,
    pub wrap_type: WrapType,
    pub description: String,
    pub publisher: Publisher,
    pub interface_version: InterfaceVersion,
    /// Whether the module handles the ping request; without it the ping
    /// yields `UnsupportedSignal`.
    pub answers_ping: bool,
    /// The home-screen document the module serves, if it registers the
    /// home-screen contract.
    pub homescreen: Option<HomescreenContent>,
    /// Whether the module registers the MIME-type contract, serving a
    /// plain-text rendering of the payload it is asked to parse.
    pub parses_text: bool,
}

/// The mathematical value of a [`WrapDef`].
#[verifier::ext_equal]
pub struct WrapDefV {
    pub name: Seq<char>,
    pub version: Seq<char>,
    pub wrap_type: WrapTypeV,
    pub description: Seq<char>,
    pub publisher: PublisherV,
    pub interface_version: Seq<char>,
    pub answers_ping: bool,
    pub homescreen: Option<HomescreenContentV>,
    pub parses_text: bool,
}

impl View for WrapDef {
    type V = WrapDefV;

    open spec fn view(&self) -> WrapDefV {
        WrapDefV {
            name: self.name@,
            version: self.version@,
            wrap_type: self.wrap_type@,
            description: self.description@,
            publisher: self.publisher@,
            interface_version: self.interface_version@,
            answers_ping: self.answers_ping,
            homescreen: match &self.homescreen {
                Option::None => Option::None,
                Option::Some(c) => Option::Some(c@),
            },
            parses_text: self.parses_text,
        }
    }
}

/// The metadata record a definition reports in the handshake.
pub open spec fn metadata_of(d: WrapDefV) -> WrapMetdataV {
    WrapMetdataV {
        name: d.name,
        version: d.version,
        wrap_type: d.wrap_type,
        description: d.description,
        publisher: d.publisher,
        interface_version: d.interface_version,
    }
}

/// A copy of a capability type with the same value.
pub fn wrap_type_dup(t: &WrapType) -> (r: WrapType)
    ensures
        r@ == t@,
{
    match t {
        WrapType::NoCapability => WrapType::NoCapability,
        WrapType::Test => WrapType::Test,
        WrapType::HomeScreen => WrapType::HomeScreen,
        WrapType::Mimetype(name) => WrapType::Mimetype(name.clone()),
    }
}

/// A copy of a publisher tree with the same value.
pub fn publisher_dup(p: &Publisher) -> (r: Publisher)
    ensures
        r@ == p@,
    decreases *p,
{
    let n = p.signed_by.len();
    let mut signed_by: Vec<Publisher> = Vec::new();
    let mut i: usize = 0;
    while i < n
        invariant
            i <= n,
            n == p.signed_by.len(),
            signed_by@.len() == i,
            forall|j: int| 0 <= j < i ==> #[trigger] signed_by@[j]@ == p.signed_by@[j]@,
        decreases n - i,
    {
        let c = publisher_dup(&p.signed_by[i]);
        signed_by.push(c);
        i = i + 1;
    }
    proof {
        lemma_publisher_seq_view(signed_by@);
        lemma_publisher_seq_view(p.signed_by@);
        assert forall|j: int| 0 <= j < n implies publisher_seq_view(signed_by@)[j]
            == publisher_seq_view(p.signed_by@)[j] by {
            assert(signed_by@[j]@ == p.signed_by@[j]@);
        }
        assert(publisher_seq_view(signed_by@) =~= publisher_seq_view(p.signed_by@));
    }
    Publisher { name: p.name.clone(), signed_by }
}

/// The metadata record of a definition, as the router reports it.
pub fn metadata(d: &WrapDef) -> (r: WrapMetdata)
    ensures
        r@ == metadata_of(d@),
{
    WrapMetdata {
        name: d.name.clone(),
        version: d.version.clone(),
        wrap_type: wrap_type_dup(&d.wrap_type),
        description: d.description.clone(),
        publisher: publisher_dup(&d.publisher),
        interface_version: InterfaceVersion(d.interface_version.0.clone()),
    }
}

// ------------------------------------------------------------------
// The artifact format: what a module is compiled to
// ------------------------------------------------------------------
/// The four magic bytes every module artifact starts with.
pub open spec fn magic_bytes() -> Seq<u8> {
    seq![0x68u8, 0x77u8, 0x72u8, 0x70u8]
}

/// Wire form of a flag.
pub open spec fn enc_bool(v: bool) -> Seq<u8> {
    if v {
        seq![1u8]
    } else {
        seq![0u8]
    }
}

/// The flag whose wire form starts at `pos`, if any.
pub open spec fn dec_bool(b: Seq<u8>, pos: int) -> Option<(bool, int)> {
    if pos + 1 > b.len() {
        None
    } else if b[pos] == 0u8 {
        Some((false, pos + 1))
    } else if b[pos] == 1u8 {
        Some((true, pos + 1))
    } else {
        None
    }
}

/// Decoding where a flag was encoded yields that flag back.
pub proof fn lemma_dec_enc_bool(b: Seq<u8>, pos: int, v: bool)
    requires
        bytes_at(b, pos, enc_bool(v)),
    ensures
        dec_bool(b, pos) == Some((v, pos + 1)),
{
    lemma_bytes_at_first(b, pos, enc_bool(v));
}

/// Appends the wire form of `v` to `out`.
pub fn encode_bool(out: &mut Vec<u8>, v: bool)
    ensures
        final(out)@ == old(out)@ + enc_bool(v),
{
    if v {
        out.push(1u8);
    } else {
        out.push(0u8);
    }
    assert(out@ =~= old(out)@ + enc_bool(v));
}

/// Reads a flag at `pos`.
pub fn decode_bool(b: &[u8], pos: usize) -> (r: Option<(bool, usize)>)
    ensures
        match r {
            Some(p) => dec_bool(b@, pos as int) == Some((p.0, p.1 as int)),
            None => dec_bool(b@, pos as int) is None,
        },
{
    if pos >= b.len() {
        return None;
    }
    let tag = b[pos];
    if tag == 0u8 {
        Some((false, pos + 1))
    } else if tag == 1u8 {
        Some((true, pos + 1))
    } else {
        None
    }
}

/// Wire form of the optional home-screen content.
pub open spec fn enc_opt_homescreen(c: Option<HomescreenContentV>) -> Seq<u8> {
    match c {
        Option::None => seq![0u8],
        Option::Some(c) => seq![1u8] + enc_str(c.mime_type) + enc_data_type(c.data),
    }
}

/// The content's strings are representable in their prefixes.
pub open spec fn fits_opt_homescreen(c: Option<HomescreenContentV>) -> bool {
    match c {
        Option::None => true,
        Option::Some(c) => fits_str(c.mime_type) && fits_data_type(c.data),
    }
}

/// The optional home-screen content whose wire form starts at `pos`, if any.
pub open spec fn dec_opt_homescreen(b: Seq<u8>, pos: int) -> Option<
    (Option<HomescreenContentV>, int),
> {
    if pos + 1 > b.len() {
        None
    } else if b[pos] == 0u8 {
        Some((Option::None, pos + 1))
    } else if b[pos] == 1u8 {
        match dec_str(b, pos + 1) {
            None => None,
            Some(mime_type) => match dec_data_type(b, mime_type.1) {
                None => None,
                Some(data) => Some(
                    (
                        Option::Some(
                            HomescreenContentV { mime_type: mime_type.0, data: data.0 },
                        ),
                        data.1,
                    ),
                ),
            },
        }
    } else {
        None
    }
}

/// Decoding where optional home-screen content was encoded yields it back.
pub proof fn lemma_dec_enc_opt_homescreen(b: Seq<u8>, pos: int, c: Option<HomescreenContentV>)
    requires
        bytes_at(b, pos, enc_opt_homescreen(c)),
        fits_opt_homescreen(c),
    ensures
        dec_opt_homescreen(b, pos) == Some((c, pos + enc_opt_homescreen(c).len())),
{
    match c {
        Option::None => {
            lemma_bytes_at_first(b, pos, enc_opt_homescreen(c));
        },
        Option::Some(content) => {
            assert(enc_opt_homescreen(c) =~= seq![1u8] + (enc_str(content.mime_type)
                + enc_data_type(content.data)));
            lemma_bytes_at_split(
                b,
                pos,
                seq![1u8],
                enc_str(content.mime_type) + enc_data_type(content.data),
            );
            lemma_bytes_at_first(b, pos, seq![1u8]);
            lemma_bytes_at_split(
                b,
                pos + 1,
                enc_str(content.mime_type),
                enc_data_type(content.data),
            );
            lemma_dec_enc_str(b, pos + 1, content.mime_type);
            lemma_dec_enc_data_type(
                b,
                pos + 1 + enc_str(content.mime_type).len(),
                content.data,
            );
        },
    }
}

/// Appends the wire form of `c` to `out`.
pub fn encode_opt_homescreen(out: &mut Vec<u8>, c: &Option<HomescreenContent>)
    ensures
        final(out)@ == old(out)@ + enc_opt_homescreen(
            match c {
                Option::None => Option::None,
                Option::Some(x) => Option::Some(x@),
            },
        ),
        fits_opt_homescreen(
            match c {
                Option::None => Option::None,
                Option::Some(x) => Option::Some(x@),
            },
        ),
{
    match c {
        Option::None => out.push(0u8),
        Option::Some(content) => {
            out.push(1u8);
            encode_str(out, content.mime_type.as_str());
            encode_data_type(out, &content.data);
        },
    }
    assert(out@ =~= old(out)@ + enc_opt_homescreen(
        match c {
            Option::None => Option::None,
            Option::Some(x) => Option::Some(x@),
        },
    ));
}

/// Reads optional home-screen content at `pos`.
pub fn decode_opt_homescreen(b: &[u8], pos: usize) -> (r: Option<
    (Option<HomescreenContent>, usize),
>)
    ensures
        match r {
            Some(p) => {
                &&& dec_opt_homescreen(b@, pos as int) matches Some(q)
                &&& (match &p.0 {
                    Option::None => q.0 is None,
                    Option::Some(x) => q.0 == Option::Some(x@),
                })
                &&& p.1 == q.1
            },
            None => dec_opt_homescreen(b@, pos as int) is None,
        },
{
    if pos >= b.len() {
        return None;
    }
    let tag = b[pos];
    if tag == 0u8 {
        Some((Option::None, pos + 1))
    } else if tag == 1u8 {
        let (mime_type, p1) = match decode_str(b, pos + 1) {
            Some(p) => p,
            None => { return None; },
        };
        let (data, p2) = match decode_data_type(b, p1) {
            Some(p) => p,
            None => { return None; },
        };
        Some((Option::Some(HomescreenContent { mime_type, data }), p2))
    } else {
        None
    }
}

/// Wire form of a module definition.
pub open spec fn enc_wrap_def(d: WrapDefV) -> Seq<u8> {
    enc_str(d.name) + enc_str(d.version) + enc_wrap_type(d.wrap_type) + enc_str(d.description)
        + enc_publisher(d.publisher) + enc_str(d.interface_version) + enc_bool(d.answers_ping)
        + enc_opt_homescreen(d.homescreen) + enc_bool(d.parses_text)
}

/// The definition's strings and lists are representable in their prefixes.
pub open spec fn fits_wrap_def(d: WrapDefV) -> bool {
    &&& fits_str(d.name)
    &&& fits_str(d.version)
    &&& fits_wrap_type(d.wrap_type)
    &&& fits_str(d.description)
    &&& fits_publisher(d.publisher)
    &&& fits_str(d.interface_version)
    &&& fits_opt_homescreen(d.homescreen)
}

/// The module definition whose wire form starts at `pos`, if any.
pub open spec fn dec_wrap_def(b: Seq<u8>, pos: int) -> Option<(WrapDefV, int)> {
    match dec_str(b, pos) {
        None => None,
        Some(name) => match dec_str(b, name.1) {
            None => None,
            Some(version) => match dec_wrap_type(b, version.1) {
                None => None,
                Some(wrap_type) => match dec_str(b, wrap_type.1) {
                    None => None,
                    Some(description) => match dec_publisher_at(b, description.1) {
                        None => None,
                        Some(publisher) => match dec_str(b, publisher.1) {
                            None => None,
                            Some(interface_version) => match dec_bool(b, interface_version.1) {
                                None => None,
                                Some(answers_ping) => match dec_opt_homescreen(
                                    b,
                                    answers_ping.1,
                                ) {
                                    None => None,
                                    Some(homescreen) => match dec_bool(b, homescreen.1) {
                                        None => None,
                                        Some(parses_text) => Some(
                                            (
                                                WrapDefV {
                                                    name: name.0,
                                                    version: version.0,
                                                    wrap_type: wrap_type.0,
                                                    description: description.0,
                                                    publisher: publisher.0,
                                                    interface_version: interface_version.0,
                                                    answers_ping: answers_ping.0,
                                                    homescreen: homescreen.0,
                                                    parses_text: parses_text.0,
                                                },
                                                parses_text.1,
                                            ),
                                        ),
                                    },
                                },
                            },
                        },
                    },
                },
            },
        },
    }
}

/// Decoding where a module definition was encoded yields it back.
#[verifier::rlimit(100)]
pub proof fn lemma_dec_enc_wrap_def(b: Seq<u8>, pos: int, d: WrapDefV)
    requires
        bytes_at(b, pos, enc_wrap_def(d)),
        fits_wrap_def(d),
    ensures
        dec_wrap_def(b, pos) == Some((d, pos + enc_wrap_def(d).len())),
{
    let e1 = enc_str(d.name);
    let e2 = enc_str(d.version);
    let e3 = enc_wrap_type(d.wrap_type);
    let e4 = enc_str(d.description);
    let e5 = enc_publisher(d.publisher);
    let e6 = enc_str(d.interface_version);
    let e7 = enc_bool(d.answers_ping);
    let e8 = enc_opt_homescreen(d.homescreen);
    let e9 = enc_bool(d.parses_text);
    assert(enc_wrap_def(d) =~= e1 + (e2 + (e3 + (e4 + (e5 + (e6 + (e7 + (e8 + e9))))))));
    lemma_bytes_at_split(b, pos, e1, e2 + (e3 + (e4 + (e5 + (e6 + (e7 + (e8 + e9)))))));
    let p1 = pos + e1.len();
    lemma_bytes_at_split(b, p1, e2, e3 + (e4 + (e5 + (e6 + (e7 + (e8 + e9))))));
    let p2 = p1 + e2.len();
    lemma_bytes_at_split(b, p2, e3, e4 + (e5 + (e6 + (e7 + (e8 + e9)))));
    let p3 = p2 + e3.len();
    lemma_bytes_at_split(b, p3, e4, e5 + (e6 + (e7 + (e8 + e9))));
    let p4 = p3 + e4.len();
    lemma_bytes_at_split(b, p4, e5, e6 + (e7 + (e8 + e9)));
    let p5 = p4 + e5.len();
    lemma_bytes_at_split(b, p5, e6, e7 + (e8 + e9));
    let p6 = p5 + e6.len();
    lemma_bytes_at_split(b, p6, e7, e8 + e9);
    let p7 = p6 + e7.len();
    lemma_bytes_at_split(b, p7, e8, e9);
    let p8 = p7 + e8.len();
    lemma_dec_enc_str(b, pos, d.name);
    lemma_dec_enc_str(b, p1, d.version);
    crate::wire::lemma_dec_enc_wrap_type(b, p2, d.wrap_type);
    lemma_dec_enc_str(b, p3, d.description);
    crate::wire::lemma_dec_enc_publisher(b, p4, d.publisher, crate::wire::pub_fuel(b));
    lemma_dec_enc_str(b, p5, d.interface_version);
    lemma_dec_enc_bool(b, p6, d.answers_ping);
    lemma_dec_enc_opt_homescreen(b, p7, d.homescreen);
    lemma_dec_enc_bool(b, p8, d.parses_text);
}

/// Appends the wire form of `d` to `out`.
#[verifier::rlimit(60)]
pub fn encode_wrap_def(out: &mut Vec<u8>, d: &WrapDef)
    ensures
        final(out)@ == old(out)@ + enc_wrap_def(d@),
        fits_wrap_def(d@),
{
    encode_str(out, d.name.as_str());
    encode_str(out, d.version.as_str());
    encode_wrap_type(out, &d.wrap_type);
    encode_str(out, d.description.as_str());
    encode_publisher(out, &d.publisher);
    encode_str(out, d.interface_version.0.as_str());
    encode_bool(out, d.answers_ping);
    encode_opt_homescreen(out, &d.homescreen);
    encode_bool(out, d.parses_text);
    assert(out@ =~= old(out)@ + enc_wrap_def(d@));
}

/// Reads a module definition at `pos`.
pub fn decode_wrap_def(b: &[u8], pos: usize) -> (r: Option<(WrapDef, usize)>)
    ensures
        match r {
            Some(p) => {
                &&& dec_wrap_def(b@, pos as int) matches Some(q)
                &&& p.0@ == q.0
                &&& p.1 == q.1
            },
            None => dec_wrap_def(b@, pos as int) is None,
        },
{
    let (name, p1) = match decode_str(b, pos) {
        Some(p) => p,
        None => { return None; },
    };
    let (version, p2) = match decode_str(b, p1) {
        Some(p) => p,
        None => { return None; },
    };
    let (wrap_type, p3) = match decode_wrap_type(b, p2) {
        Some(p) => p,
        None => { return None; },
    };
    let (description, p4) = match decode_str(b, p3) {
        Some(p) => p,
        None => { return None; },
    };
    let (publisher, p5) = match decode_publisher(b, p4) {
        Some(p) => p,
        None => { return None; },
    };
    let (interface_version, p6) = match decode_str(b, p5) {
        Some(p) => p,
        None => { return None; },
    };
    let (answers_ping, p7) = match decode_bool(b, p6) {
        Some(p) => p,
        None => { return None; },
    };
    let (homescreen, p8) = match decode_opt_homescreen(b, p7) {
        Some(p) => p,
        None => { return None; },
    };
    let (parses_text, p9) = match decode_bool(b, p8) {
        Some(p) => p,
        None => { return None; },
    };
    Some(
        (
            WrapDef {
                name,
                version,
                wrap_type,
                description,
                publisher,
                interface_version: InterfaceVersion(interface_version),
                answers_ping,
                homescreen,
                parses_text,
            },
            p9,
        ),
    )
}

// ------------------------------------------------------------------
// Export table
// ------------------------------------------------------------------
/// Wire forms of a run of export names, concatenated.
pub open spec fn enc_export_seq(s: Seq<Seq<char>>) -> Seq<u8>
    decreases s,
{
    if s.len() == 0 {
        Seq::empty()
    } else {
        enc_str(s[0]) + enc_export_seq(s.drop_first())
    }
}

/// Every name of the run is representable in its length prefix.
pub open spec fn fits_export_seq(s: Seq<Seq<char>>) -> bool
    decreases s,
{
    s.len() == 0 || (fits_str(s[0]) && fits_export_seq(s.drop_first()))
}

/// Decodes `cnt` export names in a row.
pub open spec fn dec_export_seq(b: Seq<u8>, pos: int, cnt: u64) -> Option<(Seq<Seq<char>>, int)>
    decreases cnt,
{
    if cnt == 0 {
        Some((Seq::empty(), pos))
    } else {
        match dec_str(b, pos) {
            None => None,
            Some(hp) => match dec_export_seq(b, hp.1, (cnt - 1) as u64) {
                None => None,
                Some(tp) => Some((seq![hp.0] + tp.0, tp.1)),
            },
        }
    }
}

/// Decoding where a run of export names was encoded yields that run back.
pub proof fn lemma_dec_enc_export_seq(b: Seq<u8>, pos: int, s: Seq<Seq<char>>)
    requires
        bytes_at(b, pos, enc_export_seq(s)),
        fits_export_seq(s),
        s.len() <= u64::MAX,
    ensures
        dec_export_seq(b, pos, s.len() as u64) == Some((s, pos + enc_export_seq(s).len())),
    decreases s,
{
    if s.len() == 0 {
        assert(s =~= Seq::<Seq<char>>::empty());
    } else {
        let e1 = enc_str(s[0]);
        let e2 = enc_export_seq(s.drop_first());
        lemma_bytes_at_split(b, pos, e1, e2);
        lemma_dec_enc_str(b, pos, s[0]);
        lemma_dec_enc_export_seq(b, pos + e1.len(), s.drop_first());
        assert(seq![s[0]] + s.drop_first() =~= s);
    }
}

/// Appending one name to a run appends its wire form.
pub proof fn lemma_enc_export_seq_push(s: Seq<Seq<char>>, p: Seq<char>)
    ensures
        enc_export_seq(s.push(p)) == enc_export_seq(s) + enc_str(p),
        fits_export_seq(s) && fits_str(p) ==> fits_export_seq(s.push(p)),
    decreases s,
{
    if s.len() == 0 {
        assert(s.push(p)[0] == p);
        assert(s.push(p).drop_first() =~= Seq::<Seq<char>>::empty());
        assert(enc_export_seq(s.push(p)) == enc_str(p) + enc_export_seq(
            Seq::<Seq<char>>::empty(),
        ));
        assert(enc_str(p) + Seq::<u8>::empty() =~= enc_export_seq(s) + enc_str(p));
        if fits_str(p) {
            assert(fits_export_seq(Seq::<Seq<char>>::empty()));
            assert(s.push(p).drop_first() == Seq::<Seq<char>>::empty());
            assert(fits_export_seq(s.push(p)));
        }
    } else {
        assert(s.push(p).drop_first() =~= s.drop_first().push(p));
        assert(s.push(p)[0] == s[0]);
        lemma_enc_export_seq_push(s.drop_first(), p);
        assert(enc_export_seq(s.push(p)) =~= enc_export_seq(s) + enc_str(p));
        if fits_export_seq(s) && fits_str(p) {
            assert(fits_export_seq(s.push(p)));
        }
    }
}

/// Reads `cnt` export names in a row at `pos`.
pub fn decode_export_seq(b: &[u8], pos: usize, cnt: u64) -> (r: Option<(Vec<String>, usize)>)
    requires
        pos <= b@.len(),
    ensures
        match r {
            Some(p) => {
                &&& dec_export_seq(b@, pos as int, cnt) matches Some(q)
                &&& p.0@.map_values(|s: String| s@) == q.0
                &&& p.1 == q.1
                &&& pos <= p.1 <= b@.len()
            },
            None => dec_export_seq(b@, pos as int, cnt) is None,
        },
    decreases cnt,
{
    if cnt == 0 {
        let v: Vec<String> = Vec::new();
        assert(v@.map_values(|s: String| s@) =~= Seq::<Seq<char>>::empty());
        return Some((v, pos));
    }
    let (head, p1) = match decode_str(b, pos) {
        Some(p) => p,
        None => { return None; },
    };
    match decode_export_seq(b, p1, cnt - 1) {
        Some((rest, end)) => {
            let mut v = rest;
            let ghost tailv = v@;
            v.insert(0, head);
            proof {
                assert(v@ =~= seq![head] + tailv);
                assert(v@.map_values(|s: String| s@) =~= seq![head@] + tailv.map_values(
                    |s: String| s@,
                ));
            }
            Some((v, end))
        },
        None => None,
    }
}

// ------------------------------------------------------------------
// The artifact: magic, export table, definition
// ------------------------------------------------------------------
/// Wire form of a whole module artifact.
pub open spec fn enc_artifact(d: WrapDefV, exports: Seq<Seq<char>>) -> Seq<u8> {
    magic_bytes() + enc_u64(exports.len() as u64) + enc_export_seq(exports) + enc_wrap_def(d)
}

/// The artifact's contents are representable in their prefixes.
pub open spec fn fits_artifact(d: WrapDefV, exports: Seq<Seq<char>>) -> bool {
    &&& exports.len() <= u64::MAX
    &&& fits_export_seq(exports)
    &&& fits_wrap_def(d)
}

/// The definition and export table laid down in the artifact bytes, if the
/// bytes carry a well-formed artifact.
pub open spec fn parse_artifact(b: Seq<u8>) -> Option<(WrapDefV, Seq<Seq<char>>)> {
    if b.len() < 4 || b.subrange(0, 4) != magic_bytes() {
        None
    } else if 12 > b.len() {
        None
    } else {
        let cnt = dec_u64_at(b, 4);
        match dec_export_seq(b, 12, cnt) {
            None => None,
            Some(exports) => match dec_wrap_def(b, exports.1) {
                None => None,
                Some(def) => Some((def.0, exports.0)),
            },
        }
    }
}

/// Encoding an artifact and parsing it yields the definition and exports
/// back.
#[verifier::rlimit(60)]
pub proof fn lemma_parse_enc_artifact(d: WrapDefV, exports: Seq<Seq<char>>)
    requires
        fits_artifact(d, exports),
    ensures
        parse_artifact(enc_artifact(d, exports)) == Some((d, exports)),
{
    let b = enc_artifact(d, exports);
    let e1 = magic_bytes();
    let e2 = enc_u64(exports.len() as u64);
    let e3 = enc_export_seq(exports);
    let e4 = enc_wrap_def(d);
    assert(b =~= e1 + (e2 + (e3 + e4)));
    assert(bytes_at(b, 0, b)) by {
        assert(b.subrange(0, b.len() as int) =~= b);
    }
    lemma_bytes_at_split(b, 0, e1, e2 + (e3 + e4));
    lemma_bytes_at_split(b, 4, e2, e3 + e4);
    lemma_bytes_at_split(b, 12, e3, e4);
    assert(b.subrange(0, 4) == magic_bytes());
    lemma_dec_enc_u64(b, 4, exports.len() as u64);
    lemma_dec_enc_export_seq(b, 12, exports);
    lemma_dec_enc_wrap_def(b, 12 + e3.len() as int, d);
}

/// Builds the artifact bytes a module is shipped as: the magic, its export
/// table, and its definition.
pub fn build_artifact(d: &WrapDef, exports: &Vec<String>) -> (r: Vec<u8>)
    ensures
        r@ == enc_artifact(d@, exports@.map_values(|s: String| s@)),
        fits_artifact(d@, exports@.map_values(|s: String| s@)),
{
    let ghost vs = exports@.map_values(|s: String| s@);
    let mut out: Vec<u8> = Vec::new();
    out.push(0x68u8);
    out.push(0x77u8);
    out.push(0x72u8);
    out.push(0x70u8);
    assert(out@ =~= magic_bytes());
    let n = exports.len();
    encode_u64(&mut out, n as u64);
    let ghost base = out@;
    let mut i: usize = 0;
    while i < n
        invariant
            i <= n,
            n == exports.len(),
            vs == exports@.map_values(|s: String| s@),
            out@ == base + enc_export_seq(vs.subrange(0, i as int)),
            fits_export_seq(vs.subrange(0, i as int)),
        decreases n - i,
    {
        proof {
            assert(vs.subrange(0, i + 1) =~= vs.subrange(0, i as int).push(vs[i as int]));
            lemma_enc_export_seq_push(vs.subrange(0, i as int), vs[i as int]);
        }
        encode_str(&mut out, exports[i].as_str());
        i = i + 1;
    }
    proof {
        assert(vs.subrange(0, n as int) =~= vs);
    }
    encode_wrap_def(&mut out, d);
    assert(out@ =~= enc_artifact(d@, vs));
    out
}

/// Reads a whole artifact: the definition and the export table.
pub fn decode_artifact(b: &[u8]) -> (r: Option<(WrapDef, Vec<String>)>)
    ensures
        match r {
            Some(p) => {
                &&& parse_artifact(b@) matches Some(q)
                &&& p.0@ == q.0
                &&& p.1@.map_values(|s: String| s@) == q.1
            },
            None => parse_artifact(b@) is None,
        },
{
    if b.len() < 4 {
        proof {
            assert(b@.len() < 4);
        }
        return None;
    }
    if !(b[0] == 0x68u8 && b[1] == 0x77u8 && b[2] == 0x72u8 && b[3] == 0x70u8) {
        proof {
            assert(b@.subrange(0, 4) != magic_bytes());
        }
        return None;
    }
    proof {
        assert(b@.subrange(0, 4) =~= magic_bytes());
    }
    let (cnt, p1) = match decode_u64(b, 4) {
        Some(p) => p,
        None => { return None; },
    };
    let (exports, p2) = match decode_export_seq(b, p1, cnt) {
        Some(p) => p,
        None => { return None; },
    };
    let (def, _p3) = match decode_wrap_def(b, p2) {
        Some(p) => p,
        None => { return None; },
    };
    Some((def, exports))
}

// ------------------------------------------------------------------
// What a module answers: the behaviour of the router as a function of
// the definition and the request
// ------------------------------------------------------------------
/// The detail string the guest reports when it cannot decode a request.
pub open spec fn decode_failed_detail() -> Seq<char> {
    "malformed request"@
}

/// The pong string the test handler builds from the module name and the
/// ping message.
pub open spec fn greeting_of(name: Seq<char>, message: Seq<char>) -> Seq<char> {
    "Greetings \""@ + message + "\"! I am "@ + name + ", the wrap. Pleasure to meet you :)"@
}

/// What a module answers to a common query.
pub open spec fn answer_common(d: WrapDefV, q: CommonQueryV) -> Result<
    CommonResponseV,
    WrapErrorV,
> {
    match q {
        CommonQueryV::AskMetadata => Result::Ok(CommonResponseV::Metadata(metadata_of(d))),
        CommonQueryV::Ping { message } => {
            if d.answers_ping {
                Result::Ok(
                    CommonResponseV::Pong { response: greeting_of(d.name, message) },
                )
            } else {
                Result::Err(WrapErrorV::UnsupportedSignal)
            }
        },
    }
}

/// The plain-text document a text-parsing module builds from a payload: one
/// canvas holding the payload as a single span.
pub open spec fn text_dimension_of(name: Seq<char>, data: DataTypeV) -> DimensionV {
    let payload = match data {
        DataTypeV::String(s) => s,
    };
    DimensionV {
        title: name,
        children: seq![
            ElementV::Canvas(
                CanvasV {
                    texts: seq![
                        TextV {
                            spans: seq![
                                TextSpanV {
                                    text: payload,
                                    color: Option::None,
                                    style: Style::Normal,
                                    weight: 400u16,
                                },
                            ],
                            font_size_milli: 16000u64,
                            line_height_milli: 1500u64,
                            color: TextColor { r: 0u8, g: 0u8, b: 0u8 },
                        },
                    ],
                },
            ),
        ],
    }
}

/// The encoded result the router returns for a common-contract call.
pub open spec fn common_result_of(d: WrapDefV, input: Seq<u8>) -> Result<
    CommonResponseV,
    WrapErrorV,
> {
    match dec_common_query(input, 0) {
        Option::None => Result::Err(WrapErrorV::DecodeFailed(decode_failed_detail())),
        Option::Some(q) => answer_common(d, q.0),
    }
}

/// The encoded result the router returns for a home-screen-contract call. A
/// module without home-screen content has no handler for this identifier at
/// all.
pub open spec fn homescreen_result_of(d: WrapDefV, input: Seq<u8>) -> Result<
    HomescreenResponseV,
    WrapErrorV,
> {
    match d.homescreen {
        Option::None => Result::Err(WrapErrorV::UnsupportedInterface(HOMESCREEN_QUERY_ID)),
        Option::Some(c) => match dec_homescreen_query(input, 0) {
            Option::None => Result::Err(WrapErrorV::DecodeFailed(decode_failed_detail())),
            Option::Some(_) => Result::Ok(
                HomescreenResponseV::HomeScreen { mime_type: c.mime_type, data: c.data },
            ),
        },
    }
}

/// The encoded result the router returns for a MIME-type-contract call.
pub open spec fn mimetype_result_of(d: WrapDefV, input: Seq<u8>) -> Result<
    MimetypeResponseV,
    WrapErrorV,
> {
    if !d.parses_text {
        Result::Err(WrapErrorV::UnsupportedInterface(MIMETYPE_QUERY_ID))
    } else {
        match dec_mimetype_query(input, 0) {
            Option::None => Result::Err(WrapErrorV::DecodeFailed(decode_failed_detail())),
            Option::Some(q) => {
                let data = match q.0 {
                    MimetypeQueryV::AskParse { data } => data,
                };
                Result::Ok(MimetypeResponseV::Dimension(text_dimension_of(d.name, data)))
            },
        }
    }
}

/// Wire form of a bare guest error, as every contract family carries it.
pub open spec fn enc_err_bytes(e: WrapErrorV) -> Seq<u8> {
    seq![1u8] + enc_wrap_error(e)
}

/// The common-contract result after the ceiling check: a response too large
/// for the packed word is replaced by an encode failure.
pub open spec fn effective_common_result(d: WrapDefV, input: Seq<u8>) -> Result<
    CommonResponseV,
    WrapErrorV,
> {
    if enc_common_result(common_result_of(d, input)).len() < PACK_LIMIT {
        common_result_of(d, input)
    } else {
        Result::Err(WrapErrorV::EncodeFailed(Seq::empty()))
    }
}

/// The home-screen-contract result after the ceiling check.
pub open spec fn effective_homescreen_result(d: WrapDefV, input: Seq<u8>) -> Result<
    HomescreenResponseV,
    WrapErrorV,
> {
    if enc_homescreen_result(homescreen_result_of(d, input)).len() < PACK_LIMIT {
        homescreen_result_of(d, input)
    } else {
        Result::Err(WrapErrorV::EncodeFailed(Seq::empty()))
    }
}

/// The MIME-type-contract result after the ceiling check.
pub open spec fn effective_mimetype_result(d: WrapDefV, input: Seq<u8>) -> Result<
    MimetypeResponseV,
    WrapErrorV,
> {
    if enc_mimetype_result(mimetype_result_of(d, input)).len() < PACK_LIMIT {
        mimetype_result_of(d, input)
    } else {
        Result::Err(WrapErrorV::EncodeFailed(Seq::empty()))
    }
}

/// The bytes the router leaves at the base of the module's memory.
pub open spec fn guest_response(d: WrapDefV, id: u64, input: Seq<u8>) -> Seq<u8> {
    if id == COMMON_QUERY_ID {
        enc_common_result(effective_common_result(d, input))
    } else if id == HOMESCREEN_QUERY_ID {
        enc_homescreen_result(effective_homescreen_result(d, input))
    } else if id == MIMETYPE_QUERY_ID {
        enc_mimetype_result(effective_mimetype_result(d, input))
    } else {
        enc_err_bytes(WrapErrorV::UnsupportedInterface(id))
    }
}

// ------------------------------------------------------------------
// The executable router
// ------------------------------------------------------------------
/// A copy of a payload value with the same value.
pub fn data_type_dup(d: &DataType) -> (r: DataType)
    ensures
        r@ == d@,
{
    match d {
        DataType::String(s) => DataType::String(s.clone()),
    }
}

/// The pong string for a ping carrying `message`.
pub fn greeting(def: &WrapDef, message: &String) -> (r: String)
    ensures
        r@ == greeting_of(def.name@, message@),
{
    let mut s = String::new();
    s.append("Greetings \"");
    s.append(message.as_str());
    s.append("\"! I am ");
    s.append(def.name.as_str());
    s.append(", the wrap. Pleasure to meet you :)");
    s
}

/// The plain-text document for a payload.
pub fn text_dimension(def: &WrapDef, data: &DataType) -> (r: Dimension)
    ensures
        r@ == text_dimension_of(def.name@, data@),
{
    let payload = match data {
        DataType::String(s) => s.clone(),
    };
    let span = TextSpan { text: payload, color: Option::None, style: Style::Normal, weight: 400 };
    let mut spans: Vec<TextSpan> = Vec::new();
    spans.push(span);
    let text = Text { spans, font_size_milli: 16000, line_height_milli: 1500, color: TextColor::black() };
    let mut texts: Vec<Text> = Vec::new();
    texts.push(text);
    let mut children: Vec<Element> = Vec::new();
    children.push(Element::Canvas(Canvas { texts }));
    let r = Dimension { title: def.name.clone(), children };
    proof {
        assert(r@ =~~= text_dimension_of(def.name@, data@));
    }
    r
}

/// Serves one common-contract call: decode, dispatch, encode.
pub fn dispatch_common(def: &WrapDef, input: &[u8]) -> (out: Vec<u8>)
    ensures
        out@ == enc_common_result(common_result_of(def@, input@)),
        fits_common_result(common_result_of(def@, input@)),
{
    let result: Result<CommonResponse, WrapError> = match decode_common_query(input, 0) {
        Option::None => Result::Err(
            WrapError::DecodeFailed(String::from_str("malformed request")),
        ),
        Option::Some((q, _)) => match q {
            CommonQuery::AskMetadata => Result::Ok(CommonResponse::Metadata(metadata(def))),
            CommonQuery::Ping { message } => {
                if def.answers_ping {
                    Result::Ok(
                        CommonResponse::Pong { response: greeting(def, &message) },
                    )
                } else {
                    Result::Err(WrapError::UnsupportedSignal)
                }
            },
        },
    };
    proof {
        assert(result_view(&result) == common_result_of(def@, input@));
    }
    let mut out: Vec<u8> = Vec::new();
    encode_common_result(&mut out, &result);
    out
}

/// Serves one home-screen-contract call.
pub fn dispatch_homescreen(def: &WrapDef, input: &[u8]) -> (out: Vec<u8>)
    ensures
        out@ == enc_homescreen_result(homescreen_result_of(def@, input@)),
        fits_homescreen_result(homescreen_result_of(def@, input@)),
{
    let result: Result<HomescreenResponse, WrapError> = match &def.homescreen {
        Option::None => Result::Err(WrapError::UnsupportedInterface(HOMESCREEN_QUERY_ID)),
        Option::Some(content) => match decode_homescreen_query(input, 0) {
            Option::None => Result::Err(
                WrapError::DecodeFailed(String::from_str("malformed request")),
            ),
            Option::Some(_) => Result::Ok(
                HomescreenResponse::HomeScreen {
                    mime_type: content.mime_type.clone(),
                    data: data_type_dup(&content.data),
                },
            ),
        },
    };
    proof {
        assert(result_view(&result) == homescreen_result_of(def@, input@));
    }
    let mut out: Vec<u8> = Vec::new();
    encode_homescreen_result(&mut out, &result);
    out
}

/// Serves one MIME-type-contract call.
pub fn dispatch_mimetype(def: &WrapDef, input: &[u8]) -> (out: Vec<u8>)
    ensures
        out@ == enc_mimetype_result(mimetype_result_of(def@, input@)),
        fits_mimetype_result(mimetype_result_of(def@, input@)),
{
    let result: Result<MimetypeResponse, WrapError> = if !def.parses_text {
        Result::Err(WrapError::UnsupportedInterface(MIMETYPE_QUERY_ID))
    } else {
        match decode_mimetype_query(input, 0) {
            Option::None => Result::Err(
                WrapError::DecodeFailed(String::from_str("malformed request")),
            ),
            Option::Some((q, _)) => {
                let data = match q {
                    MimetypeQuery::AskParse { data } => data,
                };
                Result::Ok(MimetypeResponse::Dimension(text_dimension(def, &data)))
            },
        }
    };
    proof {
        assert(result_view(&result) == mimetype_result_of(def@, input@));
    }
    let mut out: Vec<u8> = Vec::new();
    encode_mimetype_result(&mut out, &result);
    out
}

/// One instantiated module: its definition and its linear memory.
pub struct WrapInstance {
    pub def: WrapDef,
    pub memory: Vec<u8>,
}

/// The module's single entry point: takes a query identifier and the
/// request's offset and length in the module's own memory, leaves the
/// encoded result at the base of that memory, and returns its offset and
/// length packed into one word. Always answers; errors travel as encoded
/// results like any other payload.
pub fn guest_signal(inst: &mut WrapInstance, id: u64, ptr: u64, len: u64) -> (r: u64)
    requires
        ptr + len <= old(inst).memory@.len(),
    ensures
        ({
            let d = old(inst).def@;
            let input = old(inst).memory@.subrange(ptr as int, (ptr + len) as int);
            let resp = guest_response(d, id, input);
            &&& final(inst).def == old(inst).def
            &&& resp.len() < PACK_LIMIT
            &&& final(inst).memory@.len() >= resp.len()
            &&& final(inst).memory@.subrange(0, resp.len() as int) == resp
            &&& r == pack_spec(0, resp.len() as u64)
            &&& (id == COMMON_QUERY_ID ==> fits_common_result(effective_common_result(d, input)))
            &&& (id == HOMESCREEN_QUERY_ID ==> fits_homescreen_result(
                effective_homescreen_result(d, input),
            ))
            &&& (id == MIMETYPE_QUERY_ID ==> fits_mimetype_result(
                effective_mimetype_result(d, input),
            ))
        }),
{
    let m = inst.memory.len();
    proof {
        assert(ptr + len <= m);
    }
    let input: Vec<u8> = vstd::slice::slice_to_vec(
        vstd::slice::slice_subrange(inst.memory.as_slice(), ptr as usize, (ptr + len) as usize),
    );
    let mut resp: Vec<u8> = if id == COMMON_QUERY_ID {
        dispatch_common(&inst.def, input.as_slice())
    } else if id == HOMESCREEN_QUERY_ID {
        dispatch_homescreen(&inst.def, input.as_slice())
    } else if id == MIMETYPE_QUERY_ID {
        dispatch_mimetype(&inst.def, input.as_slice())
    } else {
        let mut o: Vec<u8> = Vec::new();
        o.push(1u8);
        encode_wrap_error(&mut o, &WrapError::UnsupportedInterface(id));
        proof {
            assert(o@ =~= enc_err_bytes(WrapErrorV::UnsupportedInterface(id)));
        }
        o
    };
    if resp.len() as u64 >= PACK_LIMIT {
        let mut o: Vec<u8> = Vec::new();
        o.push(1u8);
        encode_wrap_error(&mut o, &WrapError::EncodeFailed(String::new()));
        proof {
            assert(encode_utf8(Seq::<char>::empty()) =~= Seq::<u8>::empty());
            assert(o@ =~= enc_err_bytes(WrapErrorV::EncodeFailed(Seq::empty())));
            assert(o@.len() == 10);
        }
        resp = o;
    }
    grow_to(&mut inst.memory, resp.len());
    match write_request(&mut inst.memory, resp.as_slice()) {
        Result::Ok(()) => {},
        // The memory was just grown to hold the response: this arm is
        // unreachable.
        Result::Err(_) => {
            proof {
                assert(false);
            }
        },
    }
    pack(0, resp.len() as u64)
}

} // verus!
