//! Entity identity mapping produced during rollback: entities that had to be respawned receive
//! new ids, and this map records how ids changed so that stale references can be fixed up.
//! Entities are represented by their `u64` bits.

use crate::snapshot::id_map::{
    id_map_entries, id_map_get, id_map_insert, id_map_is_empty, id_map_len, id_map_new,
    id_map_pairs,
};
use bevy::platform::collections::HashMap;
use vstd::prelude::*;

verus! {

/// The map obtained by inserting `pairs` in order: a later pair for the same key wins.
pub open spec fn pairs_to_map(pairs: Seq<(u64, u64)>) -> Map<u64, u64>
    decreases pairs.len(),
{
    if pairs.len() == 0 {
        Map::empty()
    } else {
        pairs_to_map(pairs.drop_last()).insert(pairs.last().0, pairs.last().1)
    }
}

/// A mapping describing how entity ids changed during a rollback.
pub struct RollbackEntityMap(HashMap<u64, u64>);

impl RollbackEntityMap {
    /// The mappings held, from the old entity to the new one.
    pub closed spec fn view(&self) -> Map<u64, u64> {
        id_map_entries(self.0)
    }

    /// An empty mapping.
    pub fn new() -> (r: Self)
        ensures
            r.view().dom() == Set::<u64>::empty(),
    {
        RollbackEntityMap(id_map_new())
    }

    /// Takes over a map of entity ids as the mapping.
    pub fn from_map(map: HashMap<u64, u64>) -> (r: Self)
        ensures
            r.view() == id_map_entries(map),
    {
        RollbackEntityMap(map)
    }

    /// A mapping from `(old, new)` pairs, inserted in order.
    pub fn from_pairs(pairs: &Vec<(u64, u64)>) -> (r: Self)
        ensures
            r.view() == pairs_to_map(pairs@),
    {
        let mut map = id_map_new();
        let n = pairs.len();
        let mut i: usize = 0;
        while i < n
            invariant
                n == pairs@.len(),
                i <= n,
                id_map_entries(map) == pairs_to_map(pairs@.take(i as int)),
            decreases n - i,
        {
            let (old_entity, new_entity) = pairs[i];
            id_map_insert(&mut map, old_entity, new_entity);
            assert(pairs@.take(i + 1).drop_last() =~= pairs@.take(i as int));
            i = i + 1;
        }
        assert(pairs@.take(n as int) =~= pairs@);
        assert(id_map_entries(map).dom() =~= pairs_to_map(pairs@).dom());
        RollbackEntityMap(map)
    }

    /// Every mapping as `(old, new)`, each exactly once, in the map's own order.
    pub fn iter(&self) -> (r: Vec<(u64, u64)>)
        ensures
            r@.len() == self.view().len(),
            forall|i: int|
                0 <= i < r@.len() ==> self.view().contains_key(#[trigger] r@[i].0)
                    && self.view()[r@[i].0] == r@[i].1,
            forall|i: int, j: int|
                0 <= i < r@.len() && 0 <= j < r@.len() && i != j ==> #[trigger] r@[i].0
                    != #[trigger] r@[j].0,
            forall|k: u64| #[trigger]
                self.view().contains_key(k) ==> exists|i: int| 0 <= i < r@.len() && r@[i].0 == k,
    {
        id_map_pairs(&self.0)
    }

    /// Get the mapping for a particular entity, if it exists.
    pub fn get(&self, entity: u64) -> (r: Option<u64>)
        ensures
            r == (if self.view().contains_key(entity) {
                Some(self.view()[entity])
            } else {
                None
            }),
    {
        id_map_get(&self.0, entity)
    }

    /// The quantity of mappings contained.
    pub fn len(&self) -> (r: usize)
        ensures
            r == self.view().len(),
    {
        id_map_len(&self.0)
    }

    /// Returns `true` if there are no mappings contained, `false` otherwise.
    pub fn is_empty(&self) -> (r: bool)
        ensures
            r == (self.view().len() == 0),
    {
        id_map_is_empty(&self.0)
    }

    /// The entity that `source` maps to, or `source` itself when it is not mapped: entity
    /// references to unmapped entities are left as they are.
    pub fn get_mapped(&self, source: u64) -> (r: u64)
        ensures
            r == (if self.view().contains_key(source) {
                self.view()[source]
            } else {
                source
            }),
    {
        match self.get(source) {
            Some(target) => target,
            None => source,
        }
    }
}

impl Default for RollbackEntityMap {
    /// An empty mapping.
    fn default() -> (r: Self)
        ensures
            r.view().dom() == Set::<u64>::empty(),
    {
        Self::new()
    }
}

} // verus!
