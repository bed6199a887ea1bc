use vstd::prelude::*;

use crate::boardhash::BoardHash;

verus! {

/// dashmap's concurrent hash map, the store under the transposition cache.
#[verifier::external_type_specification]
#[verifier::external_body]
#[verifier::reject_recursive_types(K)]
#[verifier::reject_recursive_types(V)]
#[verifier::reject_recursive_types(S)]
pub struct ExDashMap<K, V, S>(dashmap::DashMap<K, V, S>);

/// The concrete map under the cache: packed board fingerprint to a pair of
/// score and the search depth it was recorded at.
pub type CacheMap = dashmap::DashMap<u64, (i64, u8), std::collections::hash_map::RandomState>;

/// What the cache's map holds.
pub uninterp spec fn dm_contents(m: CacheMap) -> Map<u64, (i64, u8)>;

/// The contents of a cache holding nothing.
pub open spec fn empty_cache_map() -> Map<u64, (i64, u8)> {
    Map::empty()
}

/// Relies on dashmap's `DashMap::default`: a fresh map holding nothing.
#[verifier::external_body]
fn dm_new() -> (m: CacheMap)
    ensures
        dm_contents(m) == empty_cache_map(),
{
    dashmap::DashMap::default()
}

/// Relies on dashmap's `DashMap::get`: the value stored under the key, if
/// any; the map itself is left as it is.
#[verifier::external_body]
fn dm_get(m: &mut CacheMap, key: u64) -> (r: Option<(i64, u8)>)
    ensures
        dm_contents(*final(m)) == dm_contents(*old(m)),
        match r {
            Some(v) => dm_contents(*old(m)).contains_key(key) && dm_contents(*old(m))[key] == v,
            None => !dm_contents(*old(m)).contains_key(key),
        },
{
    m.get(&key).map(|entry| *entry)
}

/// Relies on dashmap's `DashMap::insert`: the value is stored under the key,
/// replacing whatever was there.
#[verifier::external_body]
fn dm_insert(m: &mut CacheMap, key: u64, value: (i64, u8))
    ensures
        dm_contents(*final(m)) == dm_contents(*old(m)).insert(key, value),
{
    m.insert(key, value);
}

/// Depth-aware memo of search values, keyed by the packed board fingerprint.
/// Entries only ever deepen: a value recorded with more search is never
/// overwritten by one with less.
pub struct TranspositionTable {
    table: CacheMap,
}

impl TranspositionTable {
    /// What the cache holds: fingerprint to (value, recorded depth).
    pub closed spec fn entries(self) -> Map<u64, (i64, u8)> {
        dm_contents(self.table)
    }

    /// A fresh, empty cache.
    pub fn new() -> (r: Self)
        ensures
            r.entries() == empty_cache_map(),
    {
        TranspositionTable { table: dm_new() }
    }

    /// The cached value for `board_hash`, accepted only when it was recorded
    /// at a depth of at least `depth`: a value computed with less search is
    /// never returned for a deeper query.
    pub fn get(&mut self, board_hash: BoardHash, depth: u8) -> (r: Option<i64>)
        ensures
            final(self).entries() == old(self).entries(),
            match r {
                Some(v) => old(self).entries().contains_key(board_hash.0) && old(
                    self,
                ).entries()[board_hash.0].0 == v && old(self).entries()[board_hash.0].1 >= depth,
                None => !old(self).entries().contains_key(board_hash.0) || old(
                    self,
                ).entries()[board_hash.0].1 < depth,
            },
    {
        match dm_get(&mut self.table, board_hash.0) {
            Some(entry) => {
                if entry.1 >= depth {
                    Some(entry.0)
                } else {
                    None
                }
            },
            None => None,
        }
    }

    /// Record `value` for `board_hash` at `depth`, unless an entry recorded
    /// at the same or a greater depth already exists: a store attempt at a
    /// lesser depth changes neither the stored value nor its depth.
    pub fn insert_if_better(&mut self, board_hash: BoardHash, value: i64, depth: u8)
        ensures
            final(self).entries() == (if old(self).entries().contains_key(board_hash.0) && old(
                self,
            ).entries()[board_hash.0].1 >= depth {
                old(self).entries()
            } else {
                old(self).entries().insert(board_hash.0, (value, depth))
            }),
    {
        match dm_get(&mut self.table, board_hash.0) {
            Some(entry) => {
                if depth > entry.1 {
                    dm_insert(&mut self.table, board_hash.0, (value, depth));
                }
            },
            None => {
                dm_insert(&mut self.table, board_hash.0, (value, depth));
            },
        }
    }

}

} // verus!
