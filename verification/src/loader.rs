//! The module loader: compiles artifact bytes into a module definition,
//! instantiates it with one page of linear memory, resolves the required
//! entry point, performs the mandatory metadata handshake, and enforces the
//! interface-version gate. Loading is all-or-nothing: a rejection at any
//! step leaves no module behind. The loader also carries a loaded module's
//! call path: one typed request/response exchange through the memory bridge.

use vstd::prelude::*;
use crate::interface::{WrapError, WrapErrorV, WrapMetdata, InterfaceVersion, host_version};
use crate::memory::{SignalError, write_request, read_packed, PAGE_SIZE, PACK_LIMIT};
use crate::router::{
    WrapInstance, WrapDefV, guest_signal, guest_response, parse_artifact, decode_artifact,
    answer_common, homescreen_result_of, common_result_of, effective_common_result,
    effective_homescreen_result, effective_mimetype_result, metadata_of, text_dimension_of,
};
use crate::signal::{
    Query, QueryV, Reply, ReplyV, CommonQuery, CommonResponse, CommonResponseV,
    HomescreenResponseV, MimetypeQueryV, MimetypeResponseV, COMMON_QUERY_ID, HOMESCREEN_QUERY_ID,
    MIMETYPE_QUERY_ID,
};
use crate::wire::{
    enc_common_query, enc_homescreen_query, enc_mimetype_query, fits_common_query,
    fits_mimetype_query, encode_common_query, encode_homescreen_query, encode_mimetype_query,
    enc_common_result, enc_homescreen_result, enc_mimetype_result, fits_common_result,
    fits_homescreen_result, fits_mimetype_result, decode_common_result,
    decode_homescreen_result, decode_mimetype_result, lemma_dec_enc_common_result,
    lemma_dec_enc_homescreen_result, lemma_dec_enc_mimetype_result,
    lemma_round_trip_common_query, lemma_round_trip_homescreen_query,
    lemma_round_trip_mimetype_query, lemma_bytes_at_self,
};

verus! {

/// An error while loading a module. All are fatal to that load attempt; the
/// registry is left unchanged.
#[derive(Debug)]
pub enum WrapLoaderError {
    /// The module's source could not be read.
    FileNotFound,
    /// The bytes are not a well-formed module artifact.
    InvalidWasm(String),
    /// A call into the module failed during loading.
    SignalError(SignalError),
    /// The artifact does not export the required entry point.
    MissingExport(String),
    /// The mandatory metadata handshake did not yield a metadata record.
    InvalidMetdata,
    /// The module was built against another protocol revision.
    UnsupportedInterfaceVersion(InterfaceVersion),
}

/// Wire form of a typed request, by its contract family.
pub open spec fn enc_query(q: QueryV) -> Seq<u8> {
    match q {
        QueryV::Common(c) => enc_common_query(c),
        QueryV::Homescreen(h) => enc_homescreen_query(h),
        QueryV::Mimetype(m) => enc_mimetype_query(m),
    }
}

/// The request's strings are representable in their prefixes.
pub open spec fn fits_query(q: QueryV) -> bool {
    match q {
        QueryV::Common(c) => fits_common_query(c),
        QueryV::Homescreen(_) => true,
        QueryV::Mimetype(m) => fits_mimetype_query(m),
    }
}

/// Encodes a typed request for the wire.
pub fn encode_query(q: &Query) -> (r: Vec<u8>)
    ensures
        r@ == enc_query(q@),
        fits_query(q@),
{
    let mut out: Vec<u8> = Vec::new();
    match q {
        Query::Common(c) => encode_common_query(&mut out, c),
        Query::Homescreen(h) => encode_homescreen_query(&mut out, h),
        Query::Mimetype(m) => encode_mimetype_query(&mut out, m),
    }
    out
}

/// What a module answers to a typed request, before the packing-ceiling
/// check: the typed mirror of the guest router's behaviour.
pub open spec fn wrap_answer(d: WrapDefV, q: QueryV) -> Result<ReplyV, WrapErrorV> {
    match q {
        QueryV::Common(c) => match answer_common(d, c) {
            Result::Ok(resp) => Result::Ok(ReplyV::Common(resp)),
            Result::Err(e) => Result::Err(e),
        },
        QueryV::Homescreen(_) => match d.homescreen {
            Option::None => Result::Err(
                WrapErrorV::UnsupportedInterface(HOMESCREEN_QUERY_ID),
            ),
            Option::Some(c) => Result::Ok(
                ReplyV::Homescreen(
                    HomescreenResponseV::HomeScreen { mime_type: c.mime_type, data: c.data },
                ),
            ),
        },
        QueryV::Mimetype(m) => {
            if !d.parses_text {
                Result::Err(WrapErrorV::UnsupportedInterface(MIMETYPE_QUERY_ID))
            } else {
                let data = match m {
                    MimetypeQueryV::AskParse { data } => data,
                };
                Result::Ok(
                    ReplyV::Mimetype(
                        MimetypeResponseV::Dimension(text_dimension_of(d.name, data)),
                    ),
                )
            }
        },
    }
}

/// The encoded size of the module's answer; a response at or above the
/// packing ceiling cannot cross the call boundary.
pub open spec fn answer_bytes_len(d: WrapDefV, q: QueryV) -> int {
    match q {
        QueryV::Common(c) => enc_common_result(answer_common(d, c)).len() as int,
        QueryV::Homescreen(_) => enc_homescreen_result(
            match d.homescreen {
                Option::None => Result::Err(
                    WrapErrorV::UnsupportedInterface(HOMESCREEN_QUERY_ID),
                ),
                Option::Some(c) => Result::Ok(
                    HomescreenResponseV::HomeScreen { mime_type: c.mime_type, data: c.data },
                ),
            },
        ).len() as int,
        QueryV::Mimetype(m) => enc_mimetype_result(
            if !d.parses_text {
                Result::Err(WrapErrorV::UnsupportedInterface(MIMETYPE_QUERY_ID))
            } else {
                let data = match m {
                    MimetypeQueryV::AskParse { data } => data,
                };
                Result::Ok(MimetypeResponseV::Dimension(text_dimension_of(d.name, data)))
            },
        ).len() as int,
    }
}

/// What a module answers to a typed request: its declared behaviour, with a
/// response too large for the packed word replaced by an encode failure.
pub open spec fn effective_answer(d: WrapDefV, q: QueryV) -> Result<ReplyV, WrapErrorV> {
    if answer_bytes_len(d, q) < PACK_LIMIT {
        wrap_answer(d, q)
    } else {
        Result::Err(WrapErrorV::EncodeFailed(Seq::empty()))
    }
}

/// One typed request/response exchange with an instantiated module: the
/// request is encoded at the base of the module's memory, the module's
/// entry point is invoked, and the packed result word is followed back to
/// the encoded response.
pub fn signal_instance(inst: &mut WrapInstance, query: &Query) -> (r: Result<Reply, SignalError>)
    ensures
        final(inst).def == old(inst).def,
        ({
            let d = old(inst).def@;
            let q = query@;
            if enc_query(q).len() > old(inst).memory@.len() {
                r matches Err(SignalError::EncodeFailed(_))
            } else {
                match effective_answer(d, q) {
                    Result::Ok(rep) => r matches Ok(x) && x@ == rep,
                    Result::Err(e) => (r matches Err(SignalError::WrapError(w)) && w@ == e),
                }
            }
        }),
{
    let ghost d = inst.def@;
    let req: Vec<u8> = encode_query(query);
    let n = req.len();
    match write_request(&mut inst.memory, req.as_slice()) {
        Result::Err(e) => {
            return Result::Err(e);
        },
        Result::Ok(()) => {},
    }
    let id: u64 = match query {
        Query::Common(_) => COMMON_QUERY_ID,
        Query::Homescreen(_) => HOMESCREEN_QUERY_ID,
        Query::Mimetype(_) => MIMETYPE_QUERY_ID,
    };
    let ghost input = inst.memory@.subrange(0, n as int);
    proof {
        assert(input =~= enc_query(query@));
    }
    let word = guest_signal(inst, id, 0, n as u64);
    let ghost resp = guest_response(d, id, input);
    let out = match read_packed(inst.memory.as_slice(), word) {
        Result::Ok(out) => out,
        Result::Err(e) => {
            // The router leaves the response within its memory, so the
            // packed word can never point past it: this arm is unreachable.
            proof {
                crate::memory::lemma_pack_unpack(0, resp.len() as u64);
            }
            return Result::Err(e);
        },
    };
    proof {
        crate::memory::lemma_pack_unpack(0, resp.len() as u64);
        assert(out@ =~= resp);
        lemma_bytes_at_self(resp);
    }
    match query {
        Query::Common(c) => {
            proof {
                lemma_round_trip_common_query(c@);
                assert(common_result_of(d, input) == answer_common(d, c@));
                lemma_dec_enc_common_result(resp, 0, effective_common_result(d, input));
            }
            match decode_common_result(out.as_slice(), 0) {
                Option::Some((res, _)) => match res {
                    Result::Ok(resp) => Result::Ok(Reply::Common(resp)),
                    Result::Err(w) => Result::Err(SignalError::WrapError(w)),
                },
                Option::None => {
                    // The response is an encoding the round trip pins down,
                    // so decoding cannot fail: this arm is unreachable.
                    proof {
                        assert(false);
                    }
                    Result::Err(SignalError::DecodeFailed(String::new()))
                },
            }
        },
        Query::Homescreen(h) => {
            proof {
                lemma_round_trip_homescreen_query(h@);
                lemma_dec_enc_homescreen_result(resp, 0, effective_homescreen_result(d, input));
            }
            match decode_homescreen_result(out.as_slice(), 0) {
                Option::Some((res, _)) => match res {
                    Result::Ok(resp) => Result::Ok(Reply::Homescreen(resp)),
                    Result::Err(w) => Result::Err(SignalError::WrapError(w)),
                },
                Option::None => {
                    // The response is an encoding the round trip pins down,
                    // so decoding cannot fail: this arm is unreachable.
                    proof {
                        assert(false);
                    }
                    Result::Err(SignalError::DecodeFailed(String::new()))
                },
            }
        },
        Query::Mimetype(m) => {
            proof {
                lemma_round_trip_mimetype_query(m@);
                lemma_dec_enc_mimetype_result(resp, 0, effective_mimetype_result(d, input));
            }
            match decode_mimetype_result(out.as_slice(), 0) {
                Option::Some((res, _)) => match res {
                    Result::Ok(resp) => Result::Ok(Reply::Mimetype(resp)),
                    Result::Err(w) => Result::Err(SignalError::WrapError(w)),
                },
                Option::None => {
                    // The response is an encoding the round trip pins down,
                    // so decoding cannot fail: this arm is unreachable.
                    proof {
                        assert(false);
                    }
                    Result::Err(SignalError::DecodeFailed(String::new()))
                },
            }
        },
    }
}

/// The artifact's export table names the required entry point.
pub open spec fn has_signal_export(exports: Seq<Seq<char>>) -> bool {
    exists|i: int| 0 <= i < exports.len() && exports[i] == "signal"@
}

/// The module's metadata response is too large for the packed result word;
/// such a module cannot complete the handshake.
pub open spec fn metadata_oversize(d: WrapDefV) -> bool {
    enc_common_result(
        Result::Ok(CommonResponseV::Metadata(metadata_of(d))),
    ).len() >= PACK_LIMIT
}

/// A module loaded and validated: its instantiated state and the metadata
/// it reported in the handshake, immutable thereafter.
pub struct LoadedWrap {
    pub instance: WrapInstance,
    pub metadata: WrapMetdata,
}

impl LoadedWrap {
    /// Compiles, instantiates, and validates a module from artifact bytes:
    /// the bytes must parse, export the entry point, answer the metadata
    /// handshake, and report the host's own interface version. Any failure
    /// rejects the module with the step's error and leaves nothing behind.
    pub fn from_bytes(bytes: &[u8]) -> (r: Result<LoadedWrap, WrapLoaderError>)
        ensures
            match r {
                Result::Ok(w) => {
                    &&& parse_artifact(bytes@) matches Some(p)
                    &&& has_signal_export(p.1)
                    &&& !metadata_oversize(p.0)
                    &&& p.0.interface_version == host_version()
                    &&& w.instance.def@ == p.0
                    &&& w.metadata@ == metadata_of(p.0)
                },
                Result::Err(WrapLoaderError::InvalidWasm(_)) => parse_artifact(bytes@) is None,
                Result::Err(WrapLoaderError::MissingExport(_)) => {
                    &&& parse_artifact(bytes@) matches Some(p)
                    &&& !has_signal_export(p.1)
                },
                Result::Err(WrapLoaderError::InvalidMetdata) => {
                    &&& parse_artifact(bytes@) matches Some(p)
                    &&& has_signal_export(p.1)
                    &&& metadata_oversize(p.0)
                },
                Result::Err(WrapLoaderError::UnsupportedInterfaceVersion(v)) => {
                    &&& parse_artifact(bytes@) matches Some(p)
                    &&& has_signal_export(p.1)
                    &&& !metadata_oversize(p.0)
                    &&& p.0.interface_version != host_version()
                    &&& v@ == p.0.interface_version
                },
                _ => false,
            },
    {
        let (def, exports) = match decode_artifact(bytes) {
            Option::Some(p) => p,
            Option::None => {
                return Result::Err(
                    WrapLoaderError::InvalidWasm(String::from_str("malformed artifact")),
                );
            },
        };
        let entry = String::from_str("signal");
        let mut found: bool = false;
        let n = exports.len();
        let mut i: usize = 0;
        while i < n
            invariant
                i <= n,
                n == exports.len(),
                entry@ == "signal"@,
                found == exists|j: int| 0 <= j < i && (#[trigger] exports@[j]@) == "signal"@,
            decreases n - i,
        {
            let cur: &String = &exports[i];
            if cur.eq(&entry) {
                found = true;
            }
            i = i + 1;
        }
        proof {
            let mv = exports@.map_values(|s: String| s@);
            if found {
                let j = choose|j: int| 0 <= j < n && (#[trigger] exports@[j]@) == "signal"@;
                assert(mv[j] == "signal"@);
                assert(has_signal_export(mv));
            }
            if has_signal_export(mv) {
                let j = choose|j: int| 0 <= j < mv.len() && mv[j] == "signal"@;
                assert(exports@[j]@ == "signal"@);
                assert(found);
            }
        }
        if !found {
            return Result::Err(
                WrapLoaderError::MissingExport(String::from_str("signal")),
            );
        }
        let mut memory: Vec<u8> = Vec::new();
        crate::memory::grow_to(&mut memory, PAGE_SIZE);
        let mut inst = WrapInstance { def, memory };
        let ghost d = inst.def@;
        let reply = signal_instance(&mut inst, &Query::Common(CommonQuery::AskMetadata));
        let metadata = match reply {
            Result::Ok(Reply::Common(CommonResponse::Metadata(m))) => m,
            // The router always answers the metadata query with a metadata
            // record; the only other outcome is a record too large for the
            // packed result word.
            _ => {
                return Result::Err(WrapLoaderError::InvalidMetdata);
            },
        };
        if !metadata.interface_version.matches_own() {
            return Result::Err(
                WrapLoaderError::UnsupportedInterfaceVersion(metadata.interface_version),
            );
        }
        Result::Ok(LoadedWrap { instance: inst, metadata })
    }

    /// One typed request/response exchange with this module.
    pub fn send_signal(&mut self, query: &Query) -> (r: Result<Reply, SignalError>)
        ensures
            final(self).instance.def == old(self).instance.def,
            final(self).metadata == old(self).metadata,
            ({
                let d = old(self).instance.def@;
                let q = query@;
                if enc_query(q).len() > old(self).instance.memory@.len() {
                    r matches Err(SignalError::EncodeFailed(_))
                } else {
                    match effective_answer(d, q) {
                        Result::Ok(rep) => r matches Ok(x) && x@ == rep,
                        Result::Err(e) => (r matches Err(SignalError::WrapError(w)) && w@
                            == e),
                    }
                }
            }),
    {
        signal_instance(&mut self.instance, query)
    }

    /// The metadata the module reported in the handshake.
    pub fn get_metadata(&self) -> (r: &WrapMetdata)
        ensures
            r == self.metadata,
    {
        &self.metadata
    }
}

} // verus!
