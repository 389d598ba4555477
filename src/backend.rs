use vstd::prelude::*;

use dashmap::DashMap;

use crate::frame::{view_entries, Frame, RespFrame};

verus! {

#[verifier::external_type_specification]
#[verifier::external_body]
#[verifier::reject_recursive_types(K)]
#[verifier::reject_recursive_types(V)]
#[verifier::reject_recursive_types(S)]
pub struct ExDashMap<K, V, S>(DashMap<K, V, S>);

/// A map from keys to frames.
pub type FrameMap = DashMap<String, RespFrame>;

/// A map from keys to maps of frames.
pub type HashMaps = DashMap<String, DashMap<String, RespFrame>>;

/// The values that a map of frames holds, by key.
pub uninterp spec fn value_entries(m: DashMap<String, RespFrame>) -> Map<Seq<char>, Frame>;

/// The hashes that a map of hashes holds: for each key, its fields and their values.
pub uninterp spec fn hash_entries(m: DashMap<String, DashMap<String, RespFrame>>) -> Map<
    Seq<char>,
    Map<Seq<char>, Frame>,
>;

/// Relies on `DashMap::new`: a map with no entries.
#[verifier::external_body]
fn new_value_map() -> (r: FrameMap)
    ensures
        forall|k: Seq<char>| !(#[trigger] value_entries(r).contains_key(k)),
{
    DashMap::new()
}

/// Relies on `DashMap::new`: a map with no entries.
#[verifier::external_body]
fn new_hash_map() -> (r: HashMaps)
    ensures
        forall|k: Seq<char>| !(#[trigger] hash_entries(r).contains_key(k)),
{
    DashMap::new()
}

/// Relies on `DashMap::get`: the entry under `key`, if any, copied out.
#[verifier::external_body]
fn value_get(m: &DashMap<String, RespFrame>, key: &str) -> (r: Option<RespFrame>)
    ensures
        r is Some <==> value_entries(*m).contains_key(key@),
        r matches Some(v) ==> v@ == value_entries(*m)[key@],
{
    match m.get(key) {
        Some(entry) => Some(entry.value().clone()),
        None => None,
    }
}

/// Relies on `DashMap::insert`: `key` holds `value` afterwards, the other keys keep theirs.
#[verifier::external_body]
fn value_insert(m: &mut DashMap<String, RespFrame>, key: String, value: RespFrame)
    ensures
        value_entries(*final(m)) == value_entries(*old(m)).insert(key@, value@),
{
    m.insert(key, value);
}

/// Relies on `DashMap::get`, on the map of hashes and then on the hash: the value of
/// `field` in the hash under `key`, if both are there, copied out.
#[verifier::external_body]
fn hash_field_get(m: &HashMaps, key: &str, field: &str) -> (r: Option<RespFrame>)
    ensures
        r is Some <==> (hash_entries(*m).contains_key(key@) && hash_entries(*m)[key@].contains_key(field@)),
        r matches Some(v) ==> v@ == hash_entries(*m)[key@][field@],
{
    match m.get(key) {
        Some(hash) => match hash.get(field) {
            Some(entry) => Some(entry.value().clone()),
            None => None,
        },
        None => None,
    }
}

/// Relies on `DashMap::entry` and `Entry::or_default`, which find the hash under `key` or
/// put an empty one there, and on `DashMap::insert` on that hash.
#[verifier::external_body]
fn hash_field_insert(
    m: &mut DashMap<String, DashMap<String, RespFrame>>,
    key: String,
    field: String,
    value: RespFrame,
)
    ensures
        hash_entries(*final(m)) == hash_entries(*old(m)).insert(
            key@,
            (if hash_entries(*old(m)).contains_key(key@) {
                hash_entries(*old(m))[key@]
            } else {
                Map::empty()
            }).insert(field@, value@),
        ),
{
    m.entry(key).or_default().insert(field, value);
}

/// Relies on `DashMap::get` and `DashMap::iter`: every field of the hash under `key` with
/// its value, copied out, in the order that the hash walks them.
#[verifier::external_body]
fn hash_fields(m: &DashMap<String, DashMap<String, RespFrame>>, key: &str) -> (r: Option<
    Vec<(String, RespFrame)>,
>)
    ensures
        r is Some <==> hash_entries(*m).contains_key(key@),
        r matches Some(v) ==> lists_entries(view_entries(v@), hash_entries(*m)[key@]),
{
    match m.get(key) {
        Some(hash) => Some(hash.iter().map(|e| (e.key().clone(), e.value().clone())).collect()),
        None => None,
    }
}

/// `ps` lists each entry of `h` once, in some order.
pub open spec fn lists_entries(ps: Seq<(Seq<char>, Frame)>, h: Map<Seq<char>, Frame>) -> bool {
    &&& forall|i: int| 0 <= i < ps.len() ==> h.contains_key((#[trigger] ps[i]).0) && h[ps[i].0] == ps[i].1
    &&& forall|i: int, j: int| 0 <= i < j < ps.len() ==> (#[trigger] ps[i]).0 != (#[trigger] ps[j]).0
    &&& forall|k: Seq<char>| #[trigger] h.contains_key(k) ==> exists|i: int| 0 <= i < ps.len() && (#[trigger] ps[i]).0 == k
}

/// What the store holds: plain values by key, and hashes of fields by key.
pub struct StoreView {
    pub values: Map<Seq<char>, Frame>,
    pub hashes: Map<Seq<char>, Map<Seq<char>, Frame>>,
}

/// The store that every connection shares.
pub struct Backend {
    map: DashMap<String, RespFrame>,
    hmap: DashMap<String, DashMap<String, RespFrame>>,
}

impl View for Backend {
    type V = StoreView;

    closed spec fn view(&self) -> StoreView {
        StoreView { values: value_entries(self.map), hashes: hash_entries(self.hmap) }
    }
}

impl Backend {
    /// An empty store.
    pub fn new() -> (r: Self)
        ensures
            r@.values == Map::<Seq<char>, Frame>::empty(),
            r@.hashes == Map::<Seq<char>, Map<Seq<char>, Frame>>::empty(),
    {
        let b = Backend { map: new_value_map(), hmap: new_hash_map() };
        assert(b@.values =~= Map::<Seq<char>, Frame>::empty());
        assert(b@.hashes =~= Map::<Seq<char>, Map<Seq<char>, Frame>>::empty());
        b
    }

    /// The value under `key`, if any.
    pub fn get(&self, key: &str) -> (r: Option<RespFrame>)
        ensures
            r is Some <==> self@.values.contains_key(key@),
            r matches Some(v) ==> v@ == self@.values[key@],
    {
        value_get(&self.map, key)
    }

    /// Puts `value` under `key`, replacing what was there.
    pub fn set(&mut self, key: String, value: RespFrame)
        ensures
            final(self)@.values == old(self)@.values.insert(key@, value@),
            final(self)@.hashes == old(self)@.hashes,
    {
        value_insert(&mut self.map, key, value);
    }

    /// The value of `field` in the hash under `key`, if both are there.
    pub fn hget(&self, key: &str, field: &str) -> (r: Option<RespFrame>)
        ensures
            r is Some <==> self@.hashes.contains_key(key@) && self@.hashes[key@].contains_key(field@),
            r matches Some(v) ==> v@ == self@.hashes[key@][field@],
    {
        hash_field_get(&self.hmap, key, field)
    }

    /// Puts `value` under `field` in the hash under `key`, which is made when absent.
    pub fn hset(&mut self, key: String, field: String, value: RespFrame)
        ensures
            final(self)@.hashes == old(self)@.hashes.insert(
                key@,
                (if old(self)@.hashes.contains_key(key@) {
                    old(self)@.hashes[key@]
                } else {
                    Map::empty()
                }).insert(field@, value@),
            ),
            final(self)@.values == old(self)@.values,
    {
        hash_field_insert(&mut self.hmap, key, field, value);
    }

    /// A snapshot of the hash under `key`: each field with its value, in no set order.
    pub fn hgetall(&self, key: &str) -> (r: Option<Vec<(String, RespFrame)>>)
        ensures
            r is Some <==> self@.hashes.contains_key(key@),
            r matches Some(v) ==> lists_entries(view_entries(v@), self@.hashes[key@]),
    {
        hash_fields(&self.hmap, key)
    }
}

} // verus!
