//! Core data types of the wrap interface: the protocol version tag, the
//! capability classification of a module, its metadata record, the publisher
//! signature chain, and the error taxonomy shared by host and guest.

use vstd::prelude::*;

verus! {

/// The protocol revision this host was built against. A module is usable only
/// if the tag it reports equals this one exactly; there is no compatibility
/// window.
pub const INTERFACE_VERSION: &'static str = "0.1.0";

/// The interface version tag of this host, as a sequence of characters.
pub open spec fn host_version() -> Seq<char> {
    INTERFACE_VERSION@
}

/// Opaque string tag identifying the protocol revision a module was built
/// against.
#[derive(Debug)]
pub struct InterfaceVersion(pub String);

impl View for InterfaceVersion {
    type V = Seq<char>;

    open spec fn view(&self) -> Seq<char> {
        self.0@
    }
}

impl InterfaceVersion {
    /// The host's own interface version.
    pub fn new() -> (r: Self)
        ensures
            r@ == host_version(),
    {
        InterfaceVersion(String::from_str(INTERFACE_VERSION))
    }

    /// An interface version as reported by a module.
    pub fn from(version: &str) -> (r: Self)
        ensures
            r@ == version@,
    {
        InterfaceVersion(String::from_str(version))
    }

    /// Whether this tag matches the host's own interface version exactly.
    pub fn matches_own(&self) -> (r: bool)
        ensures
            r == (self@ == host_version()),
    {
        let own = InterfaceVersion::new();
        self.0 == own.0
    }
}

/// The mathematical value of a [`WrapType`].
#[verifier::ext_equal]
pub enum WrapTypeV {
    NoCapability,
    Test,
    HomeScreen,
    Mimetype(Seq<char>),
}

/// The mathematical value of a [`Publisher`]: a finite tree of names.
#[verifier::ext_equal]
pub struct PublisherV {
    pub name: Seq<char>,
    pub signed_by: Seq<PublisherV>,
}

/// The mathematical value of a [`WrapMetdata`].
#[verifier::ext_equal]
pub struct WrapMetdataV {
    pub name: Seq<char>,
    pub version: Seq<char>,
    pub wrap_type: WrapTypeV,
    pub description: Seq<char>,
    pub publisher: PublisherV,
    pub interface_version: Seq<char>,
}

/// The mathematical value of a [`WrapError`].
#[verifier::ext_equal]
pub enum WrapErrorV {
    UnsupportedSignal,
    DecodeFailed(Seq<char>),
    EncodeFailed(Seq<char>),
    UnsupportedInterface(u64),
    Other(Seq<char>),
}

/// The mathematical value of a [`DataType`].
#[verifier::ext_equal]
pub enum DataTypeV {
    String(Seq<char>),
}

/// Tagged variant describing what a module provides. It determines the
/// capability key under which the module is stored in the registry.
#[derive(Debug)]
pub enum WrapType {
    /// The module provides no capability.
    NoCapability,
    /// A module used only for exercising the protocol.
    Test,
    /// The singleton home-screen provider; at most one module may hold this
    /// key at a time.
    HomeScreen,
    /// A parser for one MIME type; one module per distinct name.
    Mimetype(String),
}

impl View for WrapType {
    type V = WrapTypeV;

    open spec fn view(&self) -> WrapTypeV {
        match self {
            WrapType::NoCapability => WrapTypeV::NoCapability,
            WrapType::Test => WrapTypeV::Test,
            WrapType::HomeScreen => WrapTypeV::HomeScreen,
            WrapType::Mimetype(name) => WrapTypeV::Mimetype(name@),
        }
    }
}

/// A publisher in a module's signature chain: a name plus the list of
/// co-signing publishers. Structure only; no cryptographic verification.
#[derive(Debug)]
pub struct Publisher {
    pub name: String,
    pub signed_by: Vec<Publisher>,
}

/// The value of a publisher tree.
pub open spec fn publisher_view(p: Publisher) -> PublisherV
    decreases p,
{
    PublisherV { name: p.name@, signed_by: publisher_seq_view(p.signed_by@) }
}

/// The values of a sequence of publisher trees, element by element.
pub open spec fn publisher_seq_view(s: Seq<Publisher>) -> Seq<PublisherV>
    decreases s,
{
    if s.len() == 0 {
        Seq::empty()
    } else {
        seq![publisher_view(s[0])] + publisher_seq_view(s.drop_first())
    }
}

/// `publisher_seq_view` maps the view over the sequence index by index.
pub proof fn lemma_publisher_seq_view(s: Seq<Publisher>)
    ensures
        publisher_seq_view(s).len() == s.len(),
        forall|i: int|
            0 <= i < s.len() ==> #[trigger] publisher_seq_view(s)[i] == publisher_view(s[i]),
    decreases s.len(),
{
    if s.len() > 0 {
        lemma_publisher_seq_view(s.drop_first());
        assert forall|i: int| 0 <= i < s.len() implies #[trigger] publisher_seq_view(s)[i]
            == publisher_view(s[i]) by {
            if i > 0 {
                assert(publisher_seq_view(s)[i] == publisher_seq_view(s.drop_first())[i - 1]);
                assert(s.drop_first()[i - 1] == s[i]);
            }
        }
    }
}

impl View for Publisher {
    type V = PublisherV;

    open spec fn view(&self) -> PublisherV {
        publisher_view(*self)
    }
}

impl Publisher {
    pub fn new(name: &str, signed_by: Vec<Publisher>) -> (r: Self)
        ensures
            r.name@ == name@,
            r.signed_by == signed_by,
    {
        Publisher { name: String::from_str(name), signed_by }
    }
}

/// The metadata record a module reports in the mandatory handshake,
/// immediately after instantiation. Immutable thereafter.
#[derive(Debug)]
pub struct WrapMetdata {
    pub name: String,
    pub version: String,
    pub wrap_type: WrapType,
    pub description: String,
    pub publisher: Publisher,
    pub interface_version: InterfaceVersion,
}

impl View for WrapMetdata {
    type V = WrapMetdataV;

    open spec fn view(&self) -> WrapMetdataV {
        WrapMetdataV {
            name: self.name@,
            version: self.version@,
            wrap_type: self.wrap_type@,
            description: self.description@,
            publisher: self.publisher@,
            interface_version: self.interface_version@,
        }
    }
}

/// An error reported by the guest side of the protocol.
#[derive(Debug)]
pub enum WrapError {
    /// The query variant has no matching handler case in the module.
    UnsupportedSignal,
    /// The guest could not decode the request bytes.
    DecodeFailed(String),
    /// The guest could not encode the response within the protocol's limits.
    EncodeFailed(String),
    /// The module has no handler registered for this query identifier at all.
    UnsupportedInterface(u64),
    /// An open escape hatch for module-specific failures.
    Other(String),
}

impl View for WrapError {
    type V = WrapErrorV;

    open spec fn view(&self) -> WrapErrorV {
        match self {
            WrapError::UnsupportedSignal => WrapErrorV::UnsupportedSignal,
            WrapError::DecodeFailed(detail) => WrapErrorV::DecodeFailed(detail@),
            WrapError::EncodeFailed(detail) => WrapErrorV::EncodeFailed(detail@),
            WrapError::UnsupportedInterface(id) => WrapErrorV::UnsupportedInterface(*id),
            WrapError::Other(message) => WrapErrorV::Other(message@),
        }
    }
}

/// The payload carried by a single protocol exchange: a value of one of the
/// typed query or response contracts, serialized to bytes.
#[derive(Debug)]
pub enum DataType {
    String(String),
}

impl View for DataType {
    type V = DataTypeV;

    open spec fn view(&self) -> DataTypeV {
        match self {
            DataType::String(s) => DataTypeV::String(s@),
        }
    }
}

/// A non-owning reference into a module's linear memory: a byte offset and a
/// byte length. Valid only until the next call into the module.
#[derive(Debug)]
pub struct RawVectorPtr {
    pub ptr: u64,
    pub len: u64,
}

/// The versioned envelope of an exchange: the sender's interface version and
/// either a buffer reference or a guest error. Later protocol revisions fold
/// this into a per-call result, but the envelope remains the wire-level
/// statement of what one exchange carries.
#[derive(Debug)]
pub struct SignalPacket {
    pub version: InterfaceVersion,
    pub payload: Result<RawVectorPtr, WrapError>,
}

impl SignalPacket {
    pub fn new(payload: Result<RawVectorPtr, WrapError>) -> (r: Self)
        ensures
            r.version@ == host_version(),
            r.payload == payload,
    {
        SignalPacket { version: InterfaceVersion::new(), payload }
    }
}

} // verus!
