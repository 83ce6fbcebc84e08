//! Bevy's deterministic hash map, keyed and valued by entity bits, as used for the rollback
//! ordering index and for entity remapping. Only the calls below are made on it.

use bevy::platform::collections::HashMap;
use bevy::platform::hash::FixedHasher;
use vstd::prelude::*;

verus! {

#[verifier::external_type_specification]
#[verifier::external_body]
#[verifier::reject_recursive_types(K)]
#[verifier::reject_recursive_types(V)]
#[verifier::reject_recursive_types(S)]
pub struct ExBevyHashMap<K, V, S>(HashMap<K, V, S>);

#[verifier::external_type_specification]
#[verifier::external_body]
pub struct ExFixedHasher(FixedHasher);

/// The entries of a Bevy hash map from `u64` keys to `u64` values.
pub uninterp spec fn id_map_entries(m: HashMap<u64, u64>) -> Map<u64, u64>;

/// `HashMap::new`: an empty map with Bevy's fixed hasher.
#[verifier::external_body]
pub(crate) fn id_map_new() -> (r: HashMap<u64, u64>)
    ensures
        id_map_entries(r).dom() == Set::<u64>::empty(),
{
    HashMap::new()
}

/// `HashMap::insert`: maps `k` to `v`, returning the value `k` was mapped to before, if any.
#[verifier::external_body]
pub(crate) fn id_map_insert(m: &mut HashMap<u64, u64>, k: u64, v: u64) -> (r: Option<u64>)
    ensures
        id_map_entries(*final(m)) == id_map_entries(*old(m)).insert(k, v),
        r == (if id_map_entries(*old(m)).contains_key(k) {
            Some(id_map_entries(*old(m))[k])
        } else {
            None
        }),
{
    m.insert(k, v)
}

/// `HashMap::get`, with the found value copied out.
#[verifier::external_body]
pub(crate) fn id_map_get(m: &HashMap<u64, u64>, k: u64) -> (r: Option<u64>)
    ensures
        r == (if id_map_entries(*m).contains_key(k) {
            Some(id_map_entries(*m)[k])
        } else {
            None
        }),
{
    m.get(&k).copied()
}

/// `HashMap::len`: the number of entries.
#[verifier::external_body]
pub(crate) fn id_map_len(m: &HashMap<u64, u64>) -> (r: usize)
    ensures
        r == id_map_entries(*m).len(),
{
    m.len()
}

/// `HashMap::is_empty`: whether the map has no entries.
#[verifier::external_body]
pub(crate) fn id_map_is_empty(m: &HashMap<u64, u64>) -> (r: bool)
    ensures
        r == (id_map_entries(*m).len() == 0),
{
    m.is_empty()
}

/// `HashMap::clone`: a map with the same entries.
#[verifier::external_body]
pub(crate) fn id_map_clone(m: &HashMap<u64, u64>) -> (r: HashMap<u64, u64>)
    ensures
        id_map_entries(r) == id_map_entries(*m),
{
    m.clone()
}

/// `HashMap::iter`, with each entry copied out as a pair, in the map's own (unspecified) order:
/// every entry appears exactly once.
#[verifier::external_body]
pub(crate) fn id_map_pairs(m: &HashMap<u64, u64>) -> (r: Vec<(u64, u64)>)
    ensures
        r@.len() == id_map_entries(*m).len(),
        forall|i: int|
            0 <= i < r@.len() ==> id_map_entries(*m).contains_key(#[trigger] r@[i].0)
                && id_map_entries(*m)[r@[i].0] == r@[i].1,
        forall|i: int, j: int|
            0 <= i < r@.len() && 0 <= j < r@.len() && i != j ==> #[trigger] r@[i].0
                != #[trigger] r@[j].0,
        forall|k: u64|
            #[trigger] id_map_entries(*m).contains_key(k) ==> exists|i: int|
                0 <= i < r@.len() && r@[i].0 == k,
{
    m.iter().map(|(&k, &v)| (k, v)).collect()
}

} // verus!
