//! Typed values and the key-value store interface.
use vstd::prelude::*;
use vstd::string::*;
use crate::vec_map::VecMap;
use crate::decoder::{decimal, decimal_text};

verus! {

/// The kind of data a stored value holds.
#[derive(PartialEq, Eq, Structural, Clone, Copy, Debug)]
pub enum ValueKind {
    /// Used when storing simple strings
    String,
    /// Used when storing data as a map
    Dict,
    /// Used when storing json
    Json,
    /// Used when storing lists
    List,
}

/// The lower-case name of a kind.
pub open spec fn kind_name(k: ValueKind) -> Seq<char> {
    match k {
        ValueKind::String => "string"@,
        ValueKind::Dict => "map"@,
        ValueKind::Json => "json"@,
        ValueKind::List => "list"@,
    }
}

impl ValueKind {
    /// The lower-case name of this kind ("string", "map", "json", "list").
    pub fn name(&self) -> (r: String)
        ensures
            r@ == kind_name(*self),
    {
        match self {
            ValueKind::String => String::from_str("string"),
            ValueKind::Dict => String::from_str("map"),
            ValueKind::Json => String::from_str("json"),
            ValueKind::List => String::from_str("list"),
        }
    }
}

/// What a stored value is: its kind and its bytes.
pub struct ValueModel {
    pub kind: ValueKind,
    pub data: Seq<u8>,
}

/// Represents a value in the store: a kind tag and the bytes it describes.
#[derive(PartialEq, Debug)]
pub struct Value {
    /// The kind of data stored in this value
    pub kind: ValueKind,
    /// The data as an array of bytes
    pub data: Vec<u8>,
}

impl View for Value {
    type V = ValueModel;

    open spec fn view(&self) -> ValueModel {
        ValueModel { kind: self.kind, data: self.data@ }
    }
}

impl Value {
    /// Creates a new value with the desired kind.
    pub fn new(data: Vec<u8>, kind: ValueKind) -> (r: Value)
        ensures
            r@ == (ValueModel { kind: kind, data: data@ }),
    {
        Value { kind, data }
    }

    /// Creates a new value of kind string.
    pub fn new_string(data: Vec<u8>) -> (r: Value)
        ensures
            r@ == (ValueModel { kind: ValueKind::String, data: data@ }),
    {
        Value { kind: ValueKind::String, data }
    }

    /// A short description that leaves the data out: `k=<kind> len=<bytes>`.
    pub fn describe(&self) -> (r: String)
        ensures
            r@ == "k="@ + kind_name(self.kind) + " len="@ + decimal(self.data@.len()),
    {
        let r = String::from_str("k=");
        let r = r.concat(self.kind.name().as_str());
        let r = r.concat(" len=");
        r.concat(decimal_text(self.data.len()).as_str())
    }

    /// Creates a new value of kind map.
    pub fn new_map(data: Vec<u8>) -> (r: Value)
        ensures
            r@ == (ValueModel { kind: ValueKind::Dict, data: data@ }),
    {
        Value { kind: ValueKind::Dict, data }
    }
}

/// Store errors.
#[derive(PartialEq, Debug)]
pub enum StoreError {
    /// No entry for the key.
    KeyNotFoundError,
    /// An entry exists but holds another kind of data.
    KeyMismatchError(String),
}

/// Detail carried by a kind mismatch.
pub open spec fn mismatch_detail() -> Seq<char> {
    "key xxx does not match yyy"@
}

/// The reply text of a store error.
pub open spec fn error_text(e: StoreError) -> Seq<char> {
    match e {
        StoreError::KeyNotFoundError => "-ERR key not found"@,
        StoreError::KeyMismatchError(m) => "-ERR "@ + m@,
    }
}

impl StoreError {
    /// The reply text of this error: `-ERR key not found` or `-ERR <detail>`.
    pub fn message(&self) -> (r: String)
        ensures
            r@ == error_text(*self),
    {
        match self {
            StoreError::KeyNotFoundError => String::from_str("-ERR key not found"),
            StoreError::KeyMismatchError(m) => {
                let r = String::from_str("-ERR ");
                r.concat(m.as_str())
            },
        }
    }
}

/// What `get(k, kind)` answers on a store holding `m`.
pub open spec fn lookup(m: Map<Seq<char>, ValueModel>, k: Seq<char>, kind: ValueKind) -> Result<
    ValueModel,
    StoreError,
> {
    if !m.contains_key(k) {
        Err(StoreError::KeyNotFoundError)
    } else if m[k].kind != kind {
        Err(StoreError::KeyMismatchError(arbitrary()))
    } else {
        Ok(m[k])
    }
}

/// The result of `get` agrees with `lookup`, and a mismatch carries the fixed detail.
pub open spec fn get_agrees(
    m: Map<Seq<char>, ValueModel>,
    k: Seq<char>,
    kind: ValueKind,
    r: Result<&Value, StoreError>,
) -> bool {
    match lookup(m, k, kind) {
        Ok(v) => r is Ok && r->Ok_0@ == v,
        Err(StoreError::KeyNotFoundError) => r == Err::<&Value, StoreError>(
            StoreError::KeyNotFoundError,
        ),
        Err(StoreError::KeyMismatchError(_)) => r is Err && r->Err_0 is KeyMismatchError
            && r->Err_0->KeyMismatchError_0@ == mismatch_detail(),
    }
}


/// Defines the storage interface.
///
/// `entries` is what `get` sees. A closed store refuses every write with
/// `KeyNotFoundError`; a store that discards writes accepts them and keeps
/// nothing (a stand-in for tests).
pub trait IStore {
    /// The entries that `get` answers from.
    spec fn entries(&self) -> Map<Seq<char>, ValueModel>;

    /// The store's internal invariant, which every operation keeps.
    spec fn inv(&self) -> bool;

    /// Whether the store is closed to writes.
    spec fn is_closed(&self) -> bool;

    /// Whether accepted writes are dropped rather than kept.
    spec fn discards_writes(&self) -> bool;

    /// Sets the given value under the given key.
    fn set(&mut self, k: String, v: Value) -> (r: Result<(), StoreError>)
        requires
            old(self).inv(),
        ensures
            final(self).inv(),
            final(self).is_closed() == old(self).is_closed(),
            final(self).discards_writes() == old(self).discards_writes(),
            old(self).is_closed() ==> r == Err::<(), StoreError>(StoreError::KeyNotFoundError),
            !old(self).is_closed() ==> r == Ok::<(), StoreError>(()),
            (old(self).is_closed() || old(self).discards_writes()) ==> final(self).entries()
                == old(self).entries(),
            (!old(self).is_closed() && !old(self).discards_writes()) ==> final(self).entries()
                == old(self).entries().insert(k@, v@),
    ;

    /// Retrieves the value under a key, if it holds data of the given kind.
    fn get(&self, k: String, vk: ValueKind) -> (r: Result<&Value, StoreError>)
        requires
            self.inv(),
        ensures
            get_agrees(self.entries(), k@, vk, r),
    ;
}

/// The in-memory store, keyed by string.
pub struct RedisStore {
    map: VecMap<Value>,
}

impl RedisStore {
    /// The key map is well formed.
    pub closed spec fn well_formed(&self) -> bool {
        self.map.well_formed()
    }

    /// The entries of the store: each key with the view of its value.
    pub closed spec fn contents(&self) -> Map<Seq<char>, ValueModel> {
        Map::new(|k: Seq<char>| self.map.model().contains_key(k), |k: Seq<char>| self.map.model()[k]@)
    }

    proof fn lemma_contents_finite(&self)
        requires
            self.well_formed(),
        ensures
            self.contents().dom().finite(),
    {
        self.map.lemma_finite();
        assert(self.contents().dom() =~= self.map.model().dom());
    }

    /// An empty store.
    pub fn new() -> (r: RedisStore)
        ensures
            r.inv(),
            r.contents() == Map::<Seq<char>, ValueModel>::empty(),
    {
        let r = RedisStore { map: VecMap::new() };
        proof {
            r.lemma_contents_finite();
        }
        assert(r.contents() =~= Map::<Seq<char>, ValueModel>::empty());
        r
    }
}

impl Default for RedisStore {
    fn default() -> (r: RedisStore)
        ensures
            r.inv(),
            r.contents() == Map::<Seq<char>, ValueModel>::empty(),
    {
        RedisStore::new()
    }
}

impl IStore for RedisStore {
    open spec fn entries(&self) -> Map<Seq<char>, ValueModel> {
        self.contents()
    }

    /// The key map is well formed and holds finitely many entries.
    open spec fn inv(&self) -> bool {
        self.well_formed() && self.contents().dom().finite()
    }

    open spec fn is_closed(&self) -> bool {
        false
    }

    open spec fn discards_writes(&self) -> bool {
        false
    }

    fn set(&mut self, k: String, v: Value) -> (r: Result<(), StoreError>) {
        let ghost km = k@;
        let ghost vm = v@;
        self.map.insert(k, v);
        proof {
            self.lemma_contents_finite();
        }
        assert(self.contents() =~= old(self).contents().insert(km, vm));
        Ok(())
    }

    fn get(&self, k: String, vk: ValueKind) -> (r: Result<&Value, StoreError>) {
        match self.map.get(&k) {
            Some(v) => {
                if v.kind == vk {
                    Ok(v)
                } else {
                    Err(StoreError::KeyMismatchError(String::from_str("key xxx does not match yyy")))
                }
            },
            None => Err(StoreError::KeyNotFoundError),
        }
    }
}

/// A stand-in store for tests: it holds nothing, and either refuses every
/// write (`err`) or accepts and drops it.
pub struct Teststore {
    /// Whether writes fail
    pub err: bool,
}

impl IStore for Teststore {
    open spec fn entries(&self) -> Map<Seq<char>, ValueModel> {
        Map::empty()
    }

    open spec fn inv(&self) -> bool {
        true
    }

    open spec fn is_closed(&self) -> bool {
        self.err
    }

    open spec fn discards_writes(&self) -> bool {
        true
    }

    fn set(&mut self, k: String, v: Value) -> (r: Result<(), StoreError>) {
        if self.err {
            return Err(StoreError::KeyNotFoundError);
        }
        Ok(())
    }

    fn get(&self, k: String, vk: ValueKind) -> (r: Result<&Value, StoreError>) {
        Err(StoreError::KeyNotFoundError)
    }
}

/// After a write of `v` at `k`, reading `k` as `v`'s kind gives back `v`.
pub proof fn lemma_set_then_get(m: Map<Seq<char>, ValueModel>, k: Seq<char>, v: ValueModel)
    ensures
        lookup(m.insert(k, v), k, v.kind) == Ok::<ValueModel, StoreError>(v),
{
}

/// After a write of `v` at `k`, reading `k` as any other kind fails with a
/// kind mismatch, not with a missing key.
pub proof fn lemma_set_then_get_other_kind(
    m: Map<Seq<char>, ValueModel>,
    k: Seq<char>,
    v: ValueModel,
    kind: ValueKind,
)
    requires
        kind != v.kind,
    ensures
        lookup(m.insert(k, v), k, kind) is Err,
        lookup(m.insert(k, v), k, kind)->Err_0 is KeyMismatchError,
{
}

/// The entries of an empty store after the writes `w`, in order.
pub open spec fn after_writes(w: Seq<(Seq<char>, ValueModel)>) -> Map<Seq<char>, ValueModel>
    decreases w.len(),
{
    if w.len() == 0 {
        Map::empty()
    } else {
        after_writes(w.drop_last()).insert(w.last().0, w.last().1)
    }
}

/// On a store that started empty, a key that no write named reads as
/// missing, whatever kind is asked for.
pub proof fn lemma_never_set_not_found(w: Seq<(Seq<char>, ValueModel)>, k: Seq<char>, kind: ValueKind)
    requires
        forall|i: int| 0 <= i < w.len() ==> (#[trigger] w[i]).0 != k,
    ensures
        lookup(after_writes(w), k, kind) == Err::<ValueModel, StoreError>(
            StoreError::KeyNotFoundError,
        ),
    decreases w.len(),
{
    if w.len() > 0 {
        let p = w.drop_last();
        assert forall|i: int| 0 <= i < p.len() implies (#[trigger] p[i]).0 != k by {
            assert(p[i] == w[i]);
        }
        assert(w.last() == w[w.len() - 1]);
        lemma_never_set_not_found(p, k, kind);
    }
}

} // verus!
