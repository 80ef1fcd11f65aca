//! The capability registry: a keyed store of loaded modules supporting load
//! (install or replace), unload, and query dispatch by capability key, plus
//! the source map from external source identity to capability key that hot
//! reload uses to evict the right module. The registry is modeled as two
//! maps; every operation states exactly how it changes them.

use vstd::prelude::*;
use crate::interface::{WrapType, WrapTypeV, WrapMetdataV, host_version};
use crate::loader::{
    LoadedWrap, WrapLoaderError, enc_query, effective_answer, has_signal_export,
    metadata_oversize,
};
use crate::memory::SignalError;
use crate::router::{parse_artifact, metadata_of, wrap_type_dup};
use crate::signal::{Query, Reply, CommonQuery};

verus! {

/// The registry key derived from a module's capability type: the singleton
/// home-screen key, one key per MIME name, or a type-and-name pair.
#[derive(Debug)]
pub enum WrapKey {
    HomeScreen,
    Mimetype(String),
    Other(WrapType, String),
}

/// The mathematical value of a [`WrapKey`].
#[verifier::ext_equal]
pub enum WrapKeyV {
    HomeScreen,
    Mimetype(Seq<char>),
    Other(WrapTypeV, Seq<char>),
}

impl View for WrapKey {
    type V = WrapKeyV;

    open spec fn view(&self) -> WrapKeyV {
        match self {
            WrapKey::HomeScreen => WrapKeyV::HomeScreen,
            WrapKey::Mimetype(name) => WrapKeyV::Mimetype(name@),
            WrapKey::Other(t, name) => WrapKeyV::Other(t@, name@),
        }
    }
}

/// Whether two capability types have the same value.
pub fn wrap_type_eq(a: &WrapType, b: &WrapType) -> (r: bool)
    ensures
        r == (a@ == b@),
{
    match (a, b) {
        (WrapType::NoCapability, WrapType::NoCapability) => true,
        (WrapType::Test, WrapType::Test) => true,
        (WrapType::HomeScreen, WrapType::HomeScreen) => true,
        (WrapType::Mimetype(x), WrapType::Mimetype(y)) => x.eq(y),
        _ => false,
    }
}

impl WrapKey {
    /// Whether two capability keys have the same value.
    pub fn key_eq(&self, other: &WrapKey) -> (r: bool)
        ensures
            r == (self@ == other@),
    {
        match (self, other) {
            (WrapKey::HomeScreen, WrapKey::HomeScreen) => true,
            (WrapKey::Mimetype(x), WrapKey::Mimetype(y)) => x.eq(y),
            (WrapKey::Other(t, x), WrapKey::Other(u, y)) => wrap_type_eq(t, u) && x.eq(y),
            _ => false,
        }
    }
}

/// The capability key a metadata record assigns its module.
pub open spec fn key_of(m: WrapMetdataV) -> WrapKeyV {
    match m.wrap_type {
        WrapTypeV::HomeScreen => WrapKeyV::HomeScreen,
        WrapTypeV::Mimetype(name) => WrapKeyV::Mimetype(name),
        t => WrapKeyV::Other(t, m.name),
    }
}

/// The capability key of a loaded module.
pub fn get_wrap_key(w: &LoadedWrap) -> (k: WrapKey)
    ensures
        k@ == key_of(w.metadata@),
{
    match &w.metadata.wrap_type {
        WrapType::HomeScreen => WrapKey::HomeScreen,
        WrapType::Mimetype(name) => WrapKey::Mimetype(name.clone()),
        t => WrapKey::Other(wrap_type_dup(t), w.metadata.name.clone()),
    }
}

// ------------------------------------------------------------------
// Association lists as maps
// ------------------------------------------------------------------
/// The map an association list denotes; a later entry wins over an earlier
/// one with the same key value.
pub open spec fn assoc_map<K: View, V>(s: Seq<(K, V)>) -> Map<<K as View>::V, V>
    decreases s,
{
    if s.len() == 0 {
        Map::empty()
    } else {
        assoc_map(s.drop_last()).insert(s.last().0@, s.last().1)
    }
}

/// No two entries of the list share a key value.
pub open spec fn assoc_unique<K: View, V>(s: Seq<(K, V)>) -> bool {
    forall|i: int, j: int| 0 <= i < j < s.len() ==> s[i].0@ != s[j].0@
}

/// A key value is in the map exactly when some entry carries it.
pub proof fn lemma_assoc_mem<K: View, V>(s: Seq<(K, V)>, k: <K as View>::V)
    ensures
        assoc_map(s).contains_key(k) == exists|i: int|
            0 <= i < s.len() && (#[trigger] s[i].0@) == k,
    decreases s.len(),
{
    if s.len() > 0 {
        lemma_assoc_mem(s.drop_last(), k);
        if s.last().0@ == k {
            assert(s[s.len() - 1].0@ == k);
        } else {
            if exists|i: int| 0 <= i < s.len() && (#[trigger] s[i].0@) == k {
                let i = choose|i: int| 0 <= i < s.len() && (#[trigger] s[i].0@) == k;
                assert(i < s.len() - 1);
                assert(s.drop_last()[i].0@ == k);
            }
            if assoc_map(s.drop_last()).contains_key(k) {
                let i = choose|i: int|
                    0 <= i < s.drop_last().len() && (#[trigger] s.drop_last()[i].0@) == k;
                assert(s[i].0@ == k);
            }
        }
    }
}

/// With unique keys, the entry at any index is what the map holds for its
/// key.
pub proof fn lemma_assoc_index<K: View, V>(s: Seq<(K, V)>, i: int)
    requires
        assoc_unique(s),
        0 <= i < s.len(),
    ensures
        assoc_map(s).contains_key(s[i].0@),
        assoc_map(s)[s[i].0@] == s[i].1,
    decreases s.len(),
{
    if i == s.len() - 1 {
    } else {
        assert(assoc_unique(s.drop_last())) by {
            assert(forall|x: int, y: int|
                0 <= x < y < s.drop_last().len() ==> s.drop_last()[x].0@ == s[x].0@
                    && s.drop_last()[y].0@ == s[y].0@);
        }
        lemma_assoc_index(s.drop_last(), i);
        assert(s.drop_last()[i] == s[i]);
        assert(s[i].0@ != s.last().0@);
    }
}

/// Appending an entry inserts its key and value.
pub proof fn lemma_assoc_push<K: View, V>(s: Seq<(K, V)>, p: (K, V))
    ensures
        assoc_map(s.push(p)) == assoc_map(s).insert(p.0@, p.1),
{
    assert(s.push(p).drop_last() =~= s);
    assert(s.push(p).last() == p);
}

/// With unique keys, removing the entry at an index removes its key from
/// the map and keeps the keys unique.
pub proof fn lemma_assoc_remove<K: View, V>(s: Seq<(K, V)>, i: int)
    requires
        assoc_unique(s),
        0 <= i < s.len(),
    ensures
        assoc_map(s.remove(i)) == assoc_map(s).remove(s[i].0@),
        assoc_unique(s.remove(i)),
    decreases s.len(),
{
    assert(assoc_unique(s.remove(i))) by {
        assert(forall|x: int|
            0 <= x < s.remove(i).len() ==> (#[trigger] s.remove(i)[x]) == (if x < i {
                s[x]
            } else {
                s[x + 1]
            }));
    }
    assert(assoc_unique(s.drop_last())) by {
        assert(forall|x: int|
            0 <= x < s.drop_last().len() ==> (#[trigger] s.drop_last()[x]) == s[x]);
    }
    if i == s.len() - 1 {
        assert(s.remove(i) =~= s.drop_last());
        lemma_assoc_mem(s.drop_last(), s[i].0@);
        assert(forall|x: int| 0 <= x < s.drop_last().len() ==> s.drop_last()[x].0@ != s[i].0@);
        assert(!assoc_map(s.drop_last()).contains_key(s[i].0@));
        assert(assoc_map(s.drop_last()) =~= assoc_map(s).remove(s[i].0@));
    } else {
        lemma_assoc_remove(s.drop_last(), i);
        assert(s.remove(i).drop_last() =~= s.drop_last().remove(i));
        assert(s.remove(i).last() == s.last());
        assert(s.remove(i).len() == s.len() - 1);
        assert(assoc_map(s.remove(i)) == assoc_map(s.drop_last().remove(i)).insert(
            s.last().0@,
            s.last().1,
        ));
        assert(s.drop_last()[i] == s[i]);
        assert(s[i].0@ != s.last().0@);
        assert(assoc_map(s.drop_last()).remove(s[i].0@).insert(s.last().0@, s.last().1)
            =~= assoc_map(s.drop_last()).insert(s.last().0@, s.last().1).remove(s[i].0@));
    }
}

// ------------------------------------------------------------------
// The registry
// ------------------------------------------------------------------
/// The keyed store of loaded modules and the map from external source
/// identity to capability key.
///
/// Every operation takes the registry exclusively, so a replacement can
/// never drop a module while a call against it is outstanding: no call is
/// outstanding while another operation runs. Callers that share the
/// registry across threads serialize access around it.
pub struct Wraps {
    source_map: Vec<(String, WrapKey)>,
    loaded: Vec<(WrapKey, LoadedWrap)>,
}

impl Wraps {
    /// The source map as a mathematical map. Values are the stored keys;
    /// their mathematical value is reached through `@`.
    pub closed spec fn sources(self) -> Map<Seq<char>, WrapKey> {
        assoc_map(self.source_map@)
    }

    /// The keyed store as a mathematical map.
    pub closed spec fn wraps(self) -> Map<WrapKeyV, LoadedWrap> {
        assoc_map(self.loaded@)
    }

    /// Well-formedness: each store holds at most one entry per key value.
    /// `new` establishes it and every operation preserves it.
    pub closed spec fn wf(self) -> bool {
        assoc_unique(self.source_map@) && assoc_unique(self.loaded@)
    }

    /// An empty registry.
    pub fn new() -> (r: Wraps)
        ensures
            r.wf(),
            r.sources() == Map::<Seq<char>, WrapKey>::empty(),
            r.wraps() == Map::<WrapKeyV, LoadedWrap>::empty(),
    {
        Wraps { source_map: Vec::new(), loaded: Vec::new() }
    }

    /// The index of the entry under `key`, if one is loaded.
    fn find_loaded(&self, key: &WrapKey) -> (r: Option<usize>)
        ensures
            match r {
                Some(i) => i < self.loaded@.len() && self.loaded@[i as int].0@ == key@,
                None => forall|i: int|
                    0 <= i < self.loaded@.len() ==> (#[trigger] self.loaded@[i].0@) != key@,
            },
    {
        let n = self.loaded.len();
        let mut i: usize = 0;
        while i < n
            invariant
                i <= n,
                n == self.loaded@.len(),
                forall|j: int| 0 <= j < i ==> (#[trigger] self.loaded@[j].0@) != key@,
            decreases n - i,
        {
            let pair = &self.loaded[i];
            if pair.0.key_eq(key) {
                return Some(i);
            }
            i = i + 1;
        }
        None
    }

    /// The index of the entry under `source`, if one is recorded.
    fn find_source(&self, source: &String) -> (r: Option<usize>)
        ensures
            match r {
                Some(i) => i < self.source_map@.len() && self.source_map@[i as int].0@
                    == source@,
                None => forall|i: int|
                    0 <= i < self.source_map@.len() ==> (#[trigger] self.source_map@[i].0@)
                        != source@,
            },
    {
        let n = self.source_map.len();
        let mut i: usize = 0;
        while i < n
            invariant
                i <= n,
                n == self.source_map@.len(),
                forall|j: int| 0 <= j < i ==> (#[trigger] self.source_map@[j].0@) != source@,
            decreases n - i,
        {
            let pair = &self.source_map[i];
            if pair.0.eq(source) {
                return Some(i);
            }
            i = i + 1;
        }
        None
    }

    /// Stores a module under its key, replacing and dropping any prior
    /// occupant.
    fn insert_loaded(&mut self, key: WrapKey, wrap: LoadedWrap)
        requires
            old(self).wf(),
        ensures
            final(self).wf(),
            final(self).wraps() == old(self).wraps().insert(key@, wrap),
            final(self).sources() == old(self).sources(),
    {
        match self.find_loaded(&key) {
            Some(i) => {
                proof {
                    lemma_assoc_remove(self.loaded@, i as int);
                }
                let _ = self.loaded.remove(i);
                proof {
                    lemma_assoc_mem(self.loaded@, key@);
                    lemma_assoc_push(self.loaded@, (key, wrap));
                }
                let ghost before = self.loaded@;
                self.loaded.push((key, wrap));
                proof {
                    assert(assoc_unique(self.loaded@)) by {
                        assert(forall|x: int|
                            0 <= x < before.len() ==> (#[trigger] self.loaded@[x]) == before[x]);
                        assert(forall|x: int|
                            0 <= x < before.len() ==> before[x].0@ != old(self).loaded@[
                                i as int
                            ].0@);
                    }
                    assert(final(self).wraps() =~= old(self).wraps().insert(
                        old(self).loaded@[i as int].0@,
                        final(self).loaded@.last().1,
                    ));
                }
            },
            None => {
                proof {
                    lemma_assoc_push(self.loaded@, (key, wrap));
                }
                let ghost before = self.loaded@;
                self.loaded.push((key, wrap));
                proof {
                    assert(assoc_unique(self.loaded@)) by {
                        assert(forall|x: int|
                            0 <= x < before.len() ==> (#[trigger] self.loaded@[x]) == before[x]);
                    }
                }
            },
        }
    }

    /// Records a source's key, replacing any prior record.
    fn insert_source(&mut self, source: String, key: WrapKey)
        requires
            old(self).wf(),
        ensures
            final(self).wf(),
            final(self).sources() == old(self).sources().insert(source@, key),
            final(self).wraps() == old(self).wraps(),
    {
        match self.find_source(&source) {
            Some(i) => {
                proof {
                    lemma_assoc_remove(self.source_map@, i as int);
                }
                let _ = self.source_map.remove(i);
                proof {
                    lemma_assoc_push(self.source_map@, (source, key));
                }
                let ghost before = self.source_map@;
                let ghost removed_key = old(self).source_map@[i as int].0@;
                self.source_map.push((source, key));
                proof {
                    assert(assoc_unique(self.source_map@)) by {
                        assert(forall|x: int|
                            0 <= x < before.len() ==> (#[trigger] self.source_map@[x])
                                == before[x]);
                        assert(forall|x: int|
                            0 <= x < before.len() ==> before[x].0@ != removed_key);
                    }
                    assert(final(self).sources() =~= old(self).sources().insert(
                        removed_key,
                        final(self).source_map@.last().1,
                    ));
                }
            },
            None => {
                proof {
                    lemma_assoc_push(self.source_map@, (source, key));
                }
                let ghost before = self.source_map@;
                self.source_map.push((source, key));
                proof {
                    assert(assoc_unique(self.source_map@)) by {
                        assert(forall|x: int|
                            0 <= x < before.len() ==> (#[trigger] self.source_map@[x])
                                == before[x]);
                    }
                }
            },
        }
    }

    /// Loads a module from artifact bytes under an external source
    /// identity: validates it, installs it under the capability key its
    /// metadata assigns (replacing and dropping any prior occupant), and
    /// records the source's key. Any rejection leaves the registry exactly
    /// as it was.
    pub fn load(&mut self, bytes: &[u8], source: &str) -> (r: Result<(), WrapLoaderError>)
        requires
            old(self).wf(),
        ensures
            final(self).wf(),
            match r {
                Result::Ok(()) => {
                    &&& parse_artifact(bytes@) matches Some(p)
                    &&& has_signal_export(p.1)
                    &&& !metadata_oversize(p.0)
                    &&& p.0.interface_version == host_version()
                    &&& ({
                        let k = key_of(metadata_of(p.0));
                        &&& final(self).wraps().contains_key(k)
                        &&& final(self).wraps()[k].instance.def@ == p.0
                        &&& final(self).wraps()[k].metadata@ == metadata_of(p.0)
                        &&& final(self).wraps() == old(self).wraps().insert(
                            k,
                            final(self).wraps()[k],
                        )
                        &&& final(self).sources().contains_key(source@)
                        &&& final(self).sources()[source@]@ == k
                        &&& final(self).sources() == old(self).sources().insert(
                            source@,
                            final(self).sources()[source@],
                        )
                    })
                },
                Result::Err(e) => {
                    &&& final(self).wraps() == old(self).wraps()
                    &&& final(self).sources() == old(self).sources()
                    &&& match e {
                        WrapLoaderError::InvalidWasm(_) => parse_artifact(bytes@) is None,
                        WrapLoaderError::MissingExport(_) => {
                            &&& parse_artifact(bytes@) matches Some(p)
                            &&& !has_signal_export(p.1)
                        },
                        WrapLoaderError::InvalidMetdata => {
                            &&& parse_artifact(bytes@) matches Some(p)
                            &&& has_signal_export(p.1)
                            &&& metadata_oversize(p.0)
                        },
                        WrapLoaderError::UnsupportedInterfaceVersion(v) => {
                            &&& parse_artifact(bytes@) matches Some(p)
                            &&& has_signal_export(p.1)
                            &&& !metadata_oversize(p.0)
                            &&& p.0.interface_version != host_version()
                            &&& v@ == p.0.interface_version
                        },
                        _ => false,
                    }
                },
            },
    {
        let mut wrap = match LoadedWrap::from_bytes(bytes) {
            Result::Ok(w) => w,
            Result::Err(e) => {
                return Result::Err(e);
            },
        };
        // The load-time liveness ping; its outcome does not affect the load.
        let ping = Query::Common(
            CommonQuery::Ping { message: String::from_str("Harmony core") },
        );
        let _ = wrap.send_signal(&ping);
        let key_for_store = get_wrap_key(&wrap);
        let key_for_source = get_wrap_key(&wrap);
        self.insert_loaded(key_for_store, wrap);
        self.insert_source(String::from_str(source), key_for_source);
        Result::Ok(())
    }

    /// Removes the module recorded under an external source identity:
    /// the source-map entry goes first, then the registry entry under its
    /// key. A source never loaded leaves the registry untouched and yields
    /// `FileNotFound`; a recorded source whose key is no longer occupied
    /// loses its record and yields `FileNotFound` too.
    pub fn unload(&mut self, source: &str) -> (r: Result<(), WrapLoaderError>)
        requires
            old(self).wf(),
        ensures
            final(self).wf(),
            ({
                if !old(self).sources().contains_key(source@) {
                    &&& r matches Err(WrapLoaderError::FileNotFound)
                    &&& final(self).sources() == old(self).sources()
                    &&& final(self).wraps() == old(self).wraps()
                } else {
                    let k = old(self).sources()[source@]@;
                    &&& final(self).sources() == old(self).sources().remove(source@)
                    &&& if old(self).wraps().contains_key(k) {
                        &&& r matches Ok(())
                        &&& final(self).wraps() == old(self).wraps().remove(k)
                    } else {
                        &&& r matches Err(WrapLoaderError::FileNotFound)
                        &&& final(self).wraps() == old(self).wraps()
                    }
                }
            }),
    {
        let s = String::from_str(source);
        let i = match self.find_source(&s) {
            Option::Some(i) => i,
            Option::None => {
                proof {
                    lemma_assoc_mem(self.source_map@, source@);
                }
                return Result::Err(WrapLoaderError::FileNotFound);
            },
        };
        proof {
            lemma_assoc_index(self.source_map@, i as int);
            lemma_assoc_remove(self.source_map@, i as int);
        }
        let pair = self.source_map.remove(i);
        let key = pair.1;
        match self.find_loaded(&key) {
            Option::Some(j) => {
                proof {
                    lemma_assoc_index(self.loaded@, j as int);
                    lemma_assoc_remove(self.loaded@, j as int);
                }
                let _ = self.loaded.remove(j);
                Result::Ok(())
            },
            Option::None => {
                proof {
                    lemma_assoc_mem(self.loaded@, key@);
                }
                Result::Err(WrapLoaderError::FileNotFound)
            },
        }
    }

    /// Routes a typed request to the module under a capability key and
    /// returns its typed result. A key with no module under it yields
    /// `WrapDoesNotExist` and changes nothing.
    pub fn signal(&mut self, key: &WrapKey, query: &Query) -> (r: Result<Reply, SignalError>)
        requires
            old(self).wf(),
        ensures
            final(self).wf(),
            final(self).sources() == old(self).sources(),
            ({
                if !old(self).wraps().contains_key(key@) {
                    &&& r matches Err(SignalError::WrapDoesNotExist)
                    &&& final(self).wraps() == old(self).wraps()
                } else {
                    let w = old(self).wraps()[key@];
                    &&& final(self).wraps().contains_key(key@)
                    &&& final(self).wraps() == old(self).wraps().insert(
                        key@,
                        final(self).wraps()[key@],
                    )
                    &&& final(self).wraps()[key@].instance.def == w.instance.def
                    &&& final(self).wraps()[key@].metadata == w.metadata
                    &&& (if enc_query(query@).len() > w.instance.memory@.len() {
                        r matches Err(SignalError::EncodeFailed(_))
                    } else {
                        match effective_answer(w.instance.def@, query@) {
                            Result::Ok(rep) => r matches Ok(x) && x@ == rep,
                            Result::Err(e) => (r matches Err(SignalError::WrapError(we)) && we@
                                == e),
                        }
                    })
                }
            }),
    {
        let j = match self.find_loaded(key) {
            Option::Some(j) => j,
            Option::None => {
                proof {
                    lemma_assoc_mem(self.loaded@, key@);
                }
                return Result::Err(SignalError::WrapDoesNotExist);
            },
        };
        proof {
            lemma_assoc_index(self.loaded@, j as int);
            lemma_assoc_remove(self.loaded@, j as int);
        }
        let pair = self.loaded.remove(j);
        let k = pair.0;
        let mut w = pair.1;
        let res = w.send_signal(query);
        proof {
            lemma_assoc_mem(self.loaded@, k@);
            lemma_assoc_push(self.loaded@, (k, w));
        }
        let ghost before = self.loaded@;
        self.loaded.push((k, w));
        proof {
            assert(assoc_unique(self.loaded@)) by {
                assert(forall|x: int|
                    0 <= x < before.len() ==> (#[trigger] self.loaded@[x]) == before[x]);
                assert(forall|x: int| 0 <= x < before.len() ==> before[x].0@ != k@);
            }
            assert(final(self).wraps() =~= old(self).wraps().insert(
                key@,
                final(self).loaded@.last().1,
            ));
        }
        res
    }
}

/// Key replacement: installing one module and then another under the same
/// capability key leaves exactly the second in the registry; the first is
/// no longer reachable under that key.
pub proof fn lemma_key_replacement(
    m: Map<WrapKeyV, LoadedWrap>,
    k: WrapKeyV,
    a: LoadedWrap,
    b: LoadedWrap,
)
    ensures
        m.insert(k, a).insert(k, b) == m.insert(k, b),
        m.insert(k, a).insert(k, b)[k] == b,
{
    assert(m.insert(k, a).insert(k, b) =~= m.insert(k, b));
}

} // verus!
