//! The `ahash` maps that hold a slot's shreds and metadata, seen through the
//! contents that each map kind holds.
use vstd::prelude::*;
use crate::types::ShredInfo;
use crate::storage::slot_metadata::FecMeta;

verus! {

#[verifier::external_type_specification]
#[verifier::external_body]
#[verifier::reject_recursive_types(K)]
#[verifier::reject_recursive_types(V)]
#[verifier::reject_recursive_types(S)]
pub struct ExAHashMap<K, V, S>(ahash::AHashMap<K, V, S>);

#[verifier::external_type_specification]
#[verifier::external_body]
pub struct ExAHashRandomState(ahash::RandomState);

/// Shreds of one slot, keyed by shred index.
pub type ShredMap = ahash::AHashMap<u32, ShredInfo>;

/// Shred indices of one slot, grouped by FEC set index.
pub type IndexMap = ahash::AHashMap<u32, Vec<u32>>;

/// Erasure parameters of one slot, keyed by FEC set index.
pub type FecMetaMap = ahash::AHashMap<u32, FecMeta>;

/// What a shred map holds.
pub uninterp spec fn shred_map_contents(m: ShredMap) -> Map<u32, ShredInfo>;

/// What an index map holds.
pub uninterp spec fn index_map_contents(m: IndexMap) -> Map<u32, Seq<u32>>;

/// What a FEC metadata map holds.
pub uninterp spec fn fec_meta_map_contents(m: FecMetaMap) -> Map<u32, FecMeta>;

pub open spec fn no_shreds() -> Map<u32, ShredInfo> {
    Map::empty()
}

pub open spec fn no_indices() -> Map<u32, Seq<u32>> {
    Map::empty()
}

pub open spec fn no_fec_meta() -> Map<u32, FecMeta> {
    Map::empty()
}

/// `keys` lists each key of `m` exactly once, in some order.
pub open spec fn lists_keys_once<V>(m: Map<u32, V>, keys: Seq<u32>) -> bool {
    keys.no_duplicates() && keys.to_set() == m.dom()
}

/// `AHashMap::new`: an empty map. (It panics if the system's random source,
/// which seeds the hasher, fails; nothing here can rule that out.)
#[verifier::external_body]
pub(crate) fn shred_map_new() -> (result: ShredMap)
    ensures
        shred_map_contents(result) == no_shreds(),
{
    ahash::AHashMap::new()
}

/// `HashMap::clear` (reached through `AHashMap`'s `DerefMut`): the map becomes empty.
#[verifier::external_body]
pub(crate) fn shred_map_clear(m: &mut ShredMap)
    ensures
        shred_map_contents(*final(m)) == no_shreds(),
{
    m.clear()
}

/// `AHashMap::insert`: the key now maps to the value, other keys unchanged.
#[verifier::external_body]
pub(crate) fn shred_map_insert(m: &mut ShredMap, k: u32, v: ShredInfo)
    ensures
        shred_map_contents(*final(m)) == shred_map_contents(*old(m)).insert(k, v),
{
    m.insert(k, v);
}

/// `AHashMap::get`, copied out: the value stored under the key, if any.
#[verifier::external_body]
pub(crate) fn shred_map_get(m: &ShredMap, k: u32) -> (result: Option<ShredInfo>)
    ensures
        result == (if shred_map_contents(*m).contains_key(k) {
            Some(shred_map_contents(*m)[k])
        } else {
            None
        }),
{
    m.get(&k).copied()
}

/// `HashMap::keys` (through `Deref`), collected: every key once, in the map's own order.
#[verifier::external_body]
pub(crate) fn shred_map_keys(m: &ShredMap) -> (result: Vec<u32>)
    ensures
        lists_keys_once(shred_map_contents(*m), result@),
{
    m.keys().copied().collect()
}

/// `AHashMap::new`: an empty map. (It panics if the system's random source,
/// which seeds the hasher, fails; nothing here can rule that out.)
#[verifier::external_body]
pub(crate) fn index_map_new() -> (result: IndexMap)
    ensures
        index_map_contents(result) == no_indices(),
{
    ahash::AHashMap::new()
}

/// `HashMap::clear` (through `DerefMut`): the map becomes empty.
#[verifier::external_body]
pub(crate) fn index_map_clear(m: &mut IndexMap)
    ensures
        index_map_contents(*final(m)) == no_indices(),
{
    m.clear()
}

/// `HashMap::entry(k).or_default()` (through `DerefMut`): the list
/// stored under `k`, an empty one inserted first if there was none; the map
/// afterwards holds under `k` whatever the list became.
#[verifier::external_body]
pub(crate) fn index_map_entry(m: &mut IndexMap, k: u32) -> (result: &mut Vec<u32>)
    ensures
        result@ == (if index_map_contents(*old(m)).contains_key(k) {
            index_map_contents(*old(m))[k]
        } else {
            Seq::empty()
        }),
        index_map_contents(*final(m)) == index_map_contents(*old(m)).insert(k, final(result)@),
{
    m.entry(k).or_default()
}

/// `AHashMap::get`, cloned: the list stored under the key, if any.
#[verifier::external_body]
pub(crate) fn index_map_get(m: &IndexMap, k: u32) -> (result: Option<Vec<u32>>)
    ensures
        match result {
            Some(v) => index_map_contents(*m).contains_key(k) && v@ == index_map_contents(*m)[k],
            None => !index_map_contents(*m).contains_key(k),
        },
{
    m.get(&k).cloned()
}

/// `AHashMap::new`: an empty map. (It panics if the system's random source,
/// which seeds the hasher, fails; nothing here can rule that out.)
#[verifier::external_body]
pub(crate) fn fec_meta_map_new() -> (result: FecMetaMap)
    ensures
        fec_meta_map_contents(result) == no_fec_meta(),
{
    ahash::AHashMap::new()
}

/// `HashMap::contains_key` (through `Deref`).
#[verifier::external_body]
pub(crate) fn fec_meta_map_contains_key(m: &FecMetaMap, k: u32) -> (result: bool)
    ensures
        result == fec_meta_map_contents(*m).contains_key(k),
{
    m.contains_key(&k)
}

/// `AHashMap::insert`: the key now maps to the value, other keys unchanged.
#[verifier::external_body]
pub(crate) fn fec_meta_map_insert(m: &mut FecMetaMap, k: u32, v: FecMeta)
    ensures
        fec_meta_map_contents(*final(m)) == fec_meta_map_contents(*old(m)).insert(k, v),
{
    m.insert(k, v);
}

/// `AHashMap::get`, copied out: the value stored under the key, if any.
#[verifier::external_body]
pub(crate) fn fec_meta_map_get(m: &FecMetaMap, k: u32) -> (result: Option<FecMeta>)
    ensures
        result == (if fec_meta_map_contents(*m).contains_key(k) {
            Some(fec_meta_map_contents(*m)[k])
        } else {
            None
        }),
{
    m.get(&k).copied()
}

/// `HashMap::keys` (through `Deref`), collected: every key once, in the map's own order.
#[verifier::external_body]
pub(crate) fn fec_meta_map_keys(m: &FecMetaMap) -> (result: Vec<u32>)
    ensures
        lists_keys_once(fec_meta_map_contents(*m), result@),
{
    m.keys().copied().collect()
}

} // verus!
