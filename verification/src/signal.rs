//! The typed query contracts: each request type is paired with a response
//! type and bound to a small numeric query identifier. The identifier space
//! is closed and append-only; ids are never reused or reordered.

use vstd::prelude::*;
use crate::dom::Dimension;
use crate::interface::DataType;
use crate::interface::WrapError;
use crate::interface::WrapMetdata;

verus! {

/// The query identifier of the common contract (metadata and ping).
pub const COMMON_QUERY_ID: u64 = 0;

/// The query identifier of the home-screen contract.
pub const HOMESCREEN_QUERY_ID: u64 = 1;

/// The query identifier of the MIME-type contract.
pub const MIMETYPE_QUERY_ID: u64 = 2;

/// Requests every module must answer: the mandatory metadata handshake and a
/// liveness ping.
#[derive(Debug)]
pub enum CommonQuery {
    AskMetadata,
    Ping { message: String },
}

/// Responses of the common contract.
#[derive(Debug)]
pub enum CommonResponse {
    Metadata(WrapMetdata),
    Pong { response: String },
}

/// Requests of the home-screen contract.
#[derive(Debug)]
pub enum HomescreenQuery {
    AskHomeScreen,
}

/// Responses of the home-screen contract.
#[derive(Debug)]
pub enum HomescreenResponse {
    HomeScreen { mime_type: String, data: DataType },
}

/// Requests of the MIME-type contract.
#[derive(Debug)]
pub enum MimetypeQuery {
    AskParse { data: DataType },
}

/// Responses of the MIME-type contract.
#[derive(Debug)]
pub enum MimetypeResponse {
    Dimension(Dimension),
}

/// The mathematical value of a [`CommonQuery`].
#[verifier::ext_equal]
pub enum CommonQueryV {
    AskMetadata,
    Ping { message: Seq<char> },
}

impl View for CommonQuery {
    type V = CommonQueryV;

    open spec fn view(&self) -> CommonQueryV {
        match self {
            CommonQuery::AskMetadata => CommonQueryV::AskMetadata,
            CommonQuery::Ping { message } => CommonQueryV::Ping { message: message@ },
        }
    }
}

/// The mathematical value of a [`CommonResponse`].
#[verifier::ext_equal]
pub enum CommonResponseV {
    Metadata(crate::interface::WrapMetdataV),
    Pong { response: Seq<char> },
}

impl View for CommonResponse {
    type V = CommonResponseV;

    open spec fn view(&self) -> CommonResponseV {
        match self {
            CommonResponse::Metadata(m) => CommonResponseV::Metadata(m@),
            CommonResponse::Pong { response } => CommonResponseV::Pong { response: response@ },
        }
    }
}

impl View for HomescreenQuery {
    type V = HomescreenQuery;

    open spec fn view(&self) -> HomescreenQuery {
        *self
    }
}

/// The mathematical value of a [`HomescreenResponse`].
#[verifier::ext_equal]
pub enum HomescreenResponseV {
    HomeScreen { mime_type: Seq<char>, data: crate::interface::DataTypeV },
}

impl View for HomescreenResponse {
    type V = HomescreenResponseV;

    open spec fn view(&self) -> HomescreenResponseV {
        match self {
            HomescreenResponse::HomeScreen { mime_type, data } => HomescreenResponseV::HomeScreen {
                mime_type: mime_type@,
                data: data@,
            },
        }
    }
}

/// The mathematical value of a [`MimetypeQuery`].
#[verifier::ext_equal]
pub enum MimetypeQueryV {
    AskParse { data: crate::interface::DataTypeV },
}

impl View for MimetypeQuery {
    type V = MimetypeQueryV;

    open spec fn view(&self) -> MimetypeQueryV {
        match self {
            MimetypeQuery::AskParse { data } => MimetypeQueryV::AskParse { data: data@ },
        }
    }
}

/// The mathematical value of a [`MimetypeResponse`].
#[verifier::ext_equal]
pub enum MimetypeResponseV {
    Dimension(crate::dom::DimensionV),
}

impl View for MimetypeResponse {
    type V = MimetypeResponseV;

    open spec fn view(&self) -> MimetypeResponseV {
        match self {
            MimetypeResponse::Dimension(d) => MimetypeResponseV::Dimension(d@),
        }
    }
}

/// A request of any of the typed contracts, tagged with its contract family.
#[derive(Debug)]
pub enum Query {
    Common(CommonQuery),
    Homescreen(HomescreenQuery),
    Mimetype(MimetypeQuery),
}

/// A response of any of the typed contracts.
#[derive(Debug)]
pub enum Reply {
    Common(CommonResponse),
    Homescreen(HomescreenResponse),
    Mimetype(MimetypeResponse),
}

/// The mathematical value of a [`Query`].
#[verifier::ext_equal]
pub enum QueryV {
    Common(CommonQueryV),
    Homescreen(HomescreenQuery),
    Mimetype(MimetypeQueryV),
}

impl View for Query {
    type V = QueryV;

    open spec fn view(&self) -> QueryV {
        match self {
            Query::Common(q) => QueryV::Common(q@),
            Query::Homescreen(q) => QueryV::Homescreen(q@),
            Query::Mimetype(q) => QueryV::Mimetype(q@),
        }
    }
}

/// The mathematical value of a [`Reply`].
#[verifier::ext_equal]
pub enum ReplyV {
    Common(CommonResponseV),
    Homescreen(HomescreenResponseV),
    Mimetype(MimetypeResponseV),
}

impl View for Reply {
    type V = ReplyV;

    open spec fn view(&self) -> ReplyV {
        match self {
            Reply::Common(r) => ReplyV::Common(r@),
            Reply::Homescreen(r) => ReplyV::Homescreen(r@),
            Reply::Mimetype(r) => ReplyV::Mimetype(r@),
        }
    }
}

/// The numeric query identifier a query travels under on the wire.
pub open spec fn query_id_of(q: QueryV) -> u64 {
    match q {
        QueryV::Common(_) => COMMON_QUERY_ID,
        QueryV::Homescreen(_) => HOMESCREEN_QUERY_ID,
        QueryV::Mimetype(_) => MIMETYPE_QUERY_ID,
    }
}

/// Binds a request type to its query identifier: the numeric dispatch table
/// that stands in for schema negotiation.
pub trait HarmonySignal: Sized {
    /// The response type paired with this request type.
    type ResponseType;

    /// The query identifier this request type is bound to.
    spec fn query_id_spec() -> u64;

    /// The query identifier, as sent on the wire.
    fn query_id() -> (r: u64)
        ensures
            r == Self::query_id_spec(),
    ;

    /// This request, tagged with its contract family.
    fn into_query(self) -> (r: Query)
        ensures
            query_id_of(r@) == Self::query_id_spec(),
    ;
}

impl HarmonySignal for CommonQuery {
    type ResponseType = CommonResponse;

    open spec fn query_id_spec() -> u64 {
        COMMON_QUERY_ID
    }

    fn query_id() -> u64 {
        COMMON_QUERY_ID
    }

    fn into_query(self) -> Query {
        Query::Common(self)
    }
}

impl HarmonySignal for HomescreenQuery {
    type ResponseType = HomescreenResponse;

    open spec fn query_id_spec() -> u64 {
        HOMESCREEN_QUERY_ID
    }

    fn query_id() -> u64 {
        HOMESCREEN_QUERY_ID
    }

    fn into_query(self) -> Query {
        Query::Homescreen(self)
    }
}

impl HarmonySignal for MimetypeQuery {
    type ResponseType = MimetypeResponse;

    open spec fn query_id_spec() -> u64 {
        MIMETYPE_QUERY_ID
    }

    fn query_id() -> u64 {
        MIMETYPE_QUERY_ID
    }

    fn into_query(self) -> Query {
        Query::Mimetype(self)
    }
}

/// The result of a common query as the guest reports it.
pub type CommonResult = Result<CommonResponse, WrapError>;

/// The result of a home-screen query as the guest reports it.
pub type HomescreenResult = Result<HomescreenResponse, WrapError>;

/// The result of a MIME-type query as the guest reports it.
pub type MimetypeResult = Result<MimetypeResponse, WrapError>;

/// The handler interface of the common contract, implemented by every wrap.
pub trait CommonInterface {
    fn common_query(query: CommonQuery) -> CommonResult;
}

/// The handler interface of the home-screen contract.
pub trait HomescreenInterface {
    fn homescreen_query(query: HomescreenQuery) -> HomescreenResult;
}

/// The handler interface of the MIME-type contract.
pub trait MimetypeInterface {
    fn mimetype_query(query: MimetypeQuery) -> MimetypeResult;
}

} // verus!
