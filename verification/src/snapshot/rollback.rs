//! Stable rollback identity and a deterministic ordering of every rollback entity ever
//! registered.

use crate::snapshot::id_map::{
    id_map_clone, id_map_entries, id_map_get, id_map_insert, id_map_is_empty, id_map_len,
    id_map_new,
};
use bevy::platform::collections::HashMap;
use vstd::prelude::*;

verus! {

/// A stable identifier for rollback entities, used as a key in snapshot storage. It holds the
/// bits of the entity it was first created for.
#[derive(Hash, PartialEq, Eq, Clone, Copy, Debug, Structural)]
pub struct RollbackId(pub u64);

impl RollbackId {
    /// Creates a new [`RollbackId`] from the bits of an entity.
    pub fn new(entity: u64) -> (r: Self)
        ensures
            r.0 == entity,
    {
        RollbackId(entity)
    }

    /// The entity bits this identifier was created from.
    pub fn entity(&self) -> (r: u64)
        ensures
            r == self.0,
    {
        self.0
    }
}

/// The keys of a sequence of rollback identifiers.
pub open spec fn id_keys(ids: Seq<RollbackId>) -> Seq<u64> {
    ids.map_values(|id: RollbackId| id.0)
}

/// The set of identifiers registered in `ids`, by key.
pub open spec fn registered(ids: Seq<RollbackId>) -> Set<u64> {
    id_keys(ids).to_set()
}

/// The position of the last registration of `key` in `ids`, or `-1` if it was never registered.
pub open spec fn last_position(ids: Seq<RollbackId>, key: u64) -> int
    decreases ids.len(),
{
    if ids.len() == 0 {
        -1
    } else if ids.last().0 == key {
        ids.len() - 1
    } else {
        last_position(ids.drop_last(), key)
    }
}

pub proof fn lemma_last_position(ids: Seq<RollbackId>, key: u64)
    ensures
        -1 <= last_position(ids, key) < ids.len(),
        last_position(ids, key) >= 0 ==> ids[last_position(ids, key)].0 == key,
        forall|j: int| last_position(ids, key) < j < ids.len() ==> #[trigger] ids[j].0 != key,
        last_position(ids, key) >= 0 <==> registered(ids).contains(key),
    decreases ids.len(),
{
    if ids.len() > 0 && ids.last().0 != key {
        lemma_last_position(ids.drop_last(), key);
        assert forall|j: int| last_position(ids, key) < j < ids.len() implies #[trigger] ids[j].0
            != key by {
            if j < ids.len() - 1 {
                assert(ids[j] == ids.drop_last()[j]);
            }
        }
        if registered(ids).contains(key) {
            let k = choose|k: int| 0 <= k < id_keys(ids).len() && id_keys(ids)[k] == key;
            assert(k < ids.len() - 1);
            assert(id_keys(ids.drop_last())[k] == key);
        }
        if registered(ids.drop_last()).contains(key) {
            let k = choose|k: int|
                0 <= k < id_keys(ids.drop_last()).len() && id_keys(ids.drop_last())[k] == key;
            assert(id_keys(ids)[k] == key);
        }
    }
    if ids.len() > 0 && ids.last().0 == key {
        assert(id_keys(ids)[ids.len() - 1] == key);
    }
}

/// Registering one more identifier adds its key to the registered set.
pub proof fn lemma_registered_push(ids: Seq<RollbackId>, id: RollbackId)
    ensures
        registered(ids.push(id)) == registered(ids).insert(id.0),
{
    assert(id_keys(ids.push(id)) =~= id_keys(ids).push(id.0));
    assert(registered(ids.push(id)) =~= registered(ids).insert(id.0)) by {
        assert forall|k: u64| registered(ids.push(id)).contains(k) implies registered(ids).insert(
            id.0,
        ).contains(k) by {
            let i = choose|i: int|
                0 <= i < id_keys(ids.push(id)).len() && id_keys(ids.push(id))[i] == k;
            if i < ids.len() {
                assert(id_keys(ids)[i] == k);
            }
        }
        assert forall|k: u64| registered(ids).insert(id.0).contains(k) implies registered(
            ids.push(id),
        ).contains(k) by {
            if k == id.0 {
                assert(id_keys(ids.push(id))[ids.len() as int] == k);
            } else {
                let i = choose|i: int| 0 <= i < id_keys(ids).len() && id_keys(ids)[i] == k;
                assert(id_keys(ids.push(id))[i] == k);
            }
        }
    }
}

/// A [`Resource`]-like registry which provides stable ordering of [`RollbackId`]s: every
/// identifier is numbered by its position of registration.
pub struct RollbackOrdered {
    order: HashMap<u64, u64>,
    sorted: Vec<RollbackId>,
}

impl RollbackOrdered {
    /// Every identifier registered, in registration order, including ones whose entity has
    /// since been deleted.
    pub closed spec fn sorted(&self) -> Seq<RollbackId> {
        self.sorted@
    }

    /// The index held for each registered key.
    pub closed spec fn order_map(&self) -> Map<u64, u64> {
        id_map_entries(self.order)
    }

    /// The index maps each registered key to the position of its last registration.
    pub open spec fn well_formed(&self) -> bool {
        &&& self.order_map().dom() == registered(self.sorted())
        &&& forall|k: u64| #[trigger]
            self.order_map().contains_key(k) ==> self.order_map()[k] == last_position(
                self.sorted(),
                k,
            )
    }

    /// An empty registry.
    pub fn new() -> (r: Self)
        ensures
            r.well_formed(),
            r.sorted() == Seq::<RollbackId>::empty(),
    {
        let r = RollbackOrdered { order: id_map_new(), sorted: Vec::new() };
        assert(registered(r.sorted@) =~= Set::<u64>::empty());
        assert(r.order_map().dom() =~= Set::<u64>::empty());
        r
    }

    /// Register a new [`RollbackId`] for explicit ordering: it receives the next index.
    pub fn push(&mut self, rollback: RollbackId) -> (r: &mut Self)
        requires
            old(self).well_formed(),
        ensures
            r.well_formed(),
            r.sorted() == old(self).sorted().push(rollback),
            *final(self) == *final(r),
    {
        let ghost old_sorted = self.sorted@;
        self.sorted.push(rollback);
        let index = self.sorted.len() as u64 - 1;
        id_map_insert(&mut self.order, rollback.0, index);
        proof {
            lemma_registered_push(old_sorted, rollback);
            assert(self.order_map().dom() =~= registered(self.sorted@));
            assert forall|k: u64| #[trigger] self.order_map().contains_key(k) implies self.order_map()[k]
                == last_position(self.sorted@, k) by {
                assert(self.sorted@.drop_last() =~= old_sorted);
            }
        }
        self
    }

    /// Every registered [`RollbackId`], in registration order, even if its entity has since
    /// been deleted.
    pub fn iter_sorted(&self) -> (r: Vec<RollbackId>)
        ensures
            r@ == self.sorted(),
    {
        self.sorted.clone()
    }

    /// Returns the unique and order stable index of the provided [`RollbackId`]: the position
    /// at which it was registered.
    pub fn order(&self, rollback: RollbackId) -> (r: u64)
        requires
            self.well_formed(),
            registered(self.sorted()).contains(rollback.0),
        ensures
            r == last_position(self.sorted(), rollback.0),
            self.sorted()[r as int] == rollback,
    {
        proof {
            lemma_last_position(self.sorted@, rollback.0);
        }
        match id_map_get(&self.order, rollback.0) {
            Some(index) => index,
            None => {
                proof {
                    assert(false);
                }
                0
            },
        }
    }

    /// The index of the provided [`RollbackId`] if it was registered.
    pub fn try_order(&self, rollback: RollbackId) -> (r: Option<u64>)
        requires
            self.well_formed(),
        ensures
            r == (if registered(self.sorted()).contains(rollback.0) {
                Some(last_position(self.sorted(), rollback.0) as u64)
            } else {
                None
            }),
    {
        id_map_get(&self.order, rollback.0)
    }

    /// The number of distinct registered rollback entities.
    pub fn len(&self) -> (r: usize)
        requires
            self.well_formed(),
        ensures
            r == registered(self.sorted()).len(),
    {
        id_map_len(&self.order)
    }

    /// Returns `true` if there are no registered rollback entities, `false` otherwise.
    pub fn is_empty(&self) -> (r: bool)
        requires
            self.well_formed(),
        ensures
            r == (self.sorted().len() == 0),
    {
        let r = id_map_is_empty(&self.order);
        proof {
            id_keys(self.sorted@).lemma_cardinality_of_empty_set_is_0();
        }
        r
    }
}

impl Clone for RollbackOrdered {
    /// A registry with the same registrations, which can then change on its own.
    fn clone(&self) -> (r: Self)
        ensures
            r.sorted() == self.sorted(),
            r.order_map() == self.order_map(),
    {
        RollbackOrdered { order: id_map_clone(&self.order), sorted: self.sorted.clone() }
    }
}

impl Default for RollbackOrdered {
    /// An empty registry.
    fn default() -> (r: Self)
        ensures
            r.well_formed(),
            r.sorted() == Seq::<RollbackId>::empty(),
    {
        Self::new()
    }
}

/// What happens when the rollback marker is added to `entity`: an entity that already carries
/// a [`RollbackId`] (it is being restored by a rollback, and the registry is restored on its
/// own) is left as it is; otherwise a new identifier is created from the entity, registered,
/// and returned for insertion on the entity.
pub fn on_rollback_added(
    existing: Option<RollbackId>,
    entity: u64,
    ordered: &mut RollbackOrdered,
) -> (r: Option<RollbackId>)
    requires
        old(ordered).well_formed(),
    ensures
        final(ordered).well_formed(),
        existing is Some ==> r is None && final(ordered).sorted() == old(ordered).sorted(),
        existing is None ==> r == Some(RollbackId(entity)) && final(ordered).sorted() == old(
            ordered,
        ).sorted().push(RollbackId(entity)),
{
    match existing {
        Some(_) => None,
        None => {
            let rollback_id = RollbackId::new(entity);
            ordered.push(rollback_id);
            Some(rollback_id)
        },
    }
}

/// When no identifier is registered twice, the index of each registered identifier is the
/// position at which it was registered.
pub proof fn law_order_is_registration_index(ids: Seq<RollbackId>, i: int)
    requires
        0 <= i < ids.len(),
        forall|a: int, b: int| 0 <= a < b < ids.len() ==> ids[a] != ids[b],
    ensures
        last_position(ids, ids[i].0) == i,
{
    lemma_last_position(ids, ids[i].0);
    let p = last_position(ids, ids[i].0);
    if p != i {
        assert(ids[p].0 == ids[i].0);
        assert(ids[p] == ids[i]);
    }
}

/// Registering another identifier leaves the index of every other registered identifier
/// unchanged, and gives the new one the next index.
pub proof fn law_order_stable_after_push(ids: Seq<RollbackId>, id: RollbackId, key: u64)
    ensures
        key != id.0 ==> last_position(ids.push(id), key) == last_position(ids, key),
        last_position(ids.push(id), id.0) == ids.len(),
{
    assert(ids.push(id).drop_last() =~= ids);
}

/// Registering an identifier not registered before adds one to the number of registered
/// identifiers.
pub proof fn law_len_counts_registrations(ids: Seq<RollbackId>, id: RollbackId)
    requires
        !registered(ids).contains(id.0),
    ensures
        registered(ids.push(id)).len() == registered(ids).len() + 1,
{
    lemma_registered_push(ids, id);
    vstd::seq_lib::seq_to_set_is_finite(id_keys(ids));
}

} // verus!
