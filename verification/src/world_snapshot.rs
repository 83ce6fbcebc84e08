//! Whole-world snapshots: the checksum of a snapshot, and the plan for writing a snapshot's
//! rollback entities back into the world.

use crate::snapshot::id_map::{id_map_entries, id_map_get, id_map_insert, id_map_new};
use crate::snapshot::rollback::RollbackId;
use bevy::platform::collections::HashMap;
use vstd::prelude::*;

verus! {

broadcast use {vstd::seq_lib::group_to_multiset_ensures, vstd::multiset::group_multiset_axioms};

/// The modulus of `u64` arithmetic.
pub open spec fn u64_modulus() -> int {
    0x1_0000_0000_0000_0000
}

/// The sum of all values, as an integer.
pub open spec fn int_sum(s: Seq<u64>) -> int
    decreases s.len(),
{
    if s.len() == 0 {
        0
    } else {
        int_sum(s.drop_last()) + s.last()
    }
}

/// The checksum of a snapshot: the sum of the hashes of every hashable component and resource
/// in it, with wrapping `u64` addition, so that the order in which they are visited does not
/// matter.
pub open spec fn snapshot_checksum_spec(hashes: Seq<u64>) -> int {
    int_sum(hashes) % u64_modulus()
}

/// Sums the hashes of everything hashable in a snapshot with wrapping addition.
pub fn snapshot_checksum(hashes: &Vec<u64>) -> (r: u64)
    ensures
        r == snapshot_checksum_spec(hashes@),
{
    let n = hashes.len();
    let mut checksum: u64 = 0;
    let mut i: usize = 0;
    while i < n
        invariant
            n == hashes@.len(),
            i <= n,
            checksum == int_sum(hashes@.take(i as int)) % u64_modulus(),
        decreases n - i,
    {
        let h = hashes[i];
        let ghost before = int_sum(hashes@.take(i as int));
        assert(hashes@.take(i + 1).drop_last() =~= hashes@.take(i as int));
        assert(int_sum(hashes@.take(i + 1)) == before + h);
        proof {
            vstd::arithmetic::div_mod::lemma_add_mod_noop(before, h as int, u64_modulus());
            vstd::arithmetic::div_mod::lemma_small_mod(h as nat, u64_modulus() as nat);
            vstd::arithmetic::div_mod::lemma_mod_bound(before + h, u64_modulus());
            if checksum + h >= u64_modulus() {
                vstd::arithmetic::div_mod::lemma_mod_add_multiples_vanish(
                    checksum + h - u64_modulus(),
                    u64_modulus(),
                );
                vstd::arithmetic::div_mod::lemma_small_mod(
                    (checksum + h - u64_modulus()) as nat,
                    u64_modulus() as nat,
                );
            } else {
                vstd::arithmetic::div_mod::lemma_small_mod((checksum + h) as nat, u64_modulus() as nat);
            }
        }
        checksum = checksum.wrapping_add(h);
        i = i + 1;
    }
    assert(hashes@.take(n as int) =~= hashes@);
    checksum
}

proof fn lemma_int_sum_remove(s: Seq<u64>, i: int)
    requires
        0 <= i < s.len(),
    ensures
        int_sum(s) == int_sum(s.remove(i)) + s[i],
    decreases s.len(),
{
    if i == s.len() - 1 {
        assert(s.remove(i) =~= s.drop_last());
    } else {
        lemma_int_sum_remove(s.drop_last(), i);
        assert(s.remove(i).drop_last() =~= s.drop_last().remove(i));
    }
}

/// The snapshot checksum does not depend on the order in which components and resources are
/// visited: any two arrangements of the same hashes give the same checksum.
pub proof fn law_snapshot_checksum_order_insensitive(s: Seq<u64>, t: Seq<u64>)
    requires
        s.to_multiset() == t.to_multiset(),
    ensures
        snapshot_checksum_spec(s) == snapshot_checksum_spec(t),
{
    lemma_int_sum_order_insensitive(s, t);
}

proof fn lemma_int_sum_order_insensitive(s: Seq<u64>, t: Seq<u64>)
    requires
        s.to_multiset() == t.to_multiset(),
    ensures
        int_sum(s) == int_sum(t),
    decreases t.len(),
{
    if t.len() == 0 {
        s.to_multiset_ensures();
        t.to_multiset_ensures();
        assert(s.len() == 0);
    } else {
        let a = t.last();
        assert(t.drop_last().push(a) =~= t);
        assert(t.to_multiset().count(a) > 0);
        assert(s.contains(a));
        let i = choose|i: int| 0 <= i < s.len() && s[i] == a;
        assert(s.remove(i).to_multiset() =~= t.drop_last().to_multiset());
        lemma_int_sum_order_insensitive(s.remove(i), t.drop_last());
        lemma_int_sum_remove(s, i);
    }
}

/// No rollback identifier is carried by two of the listed entities.
pub open spec fn distinct_rollbacks(entities: Seq<(u64, RollbackId)>) -> bool {
    forall|i: int, j: int|
        0 <= i < entities.len() && 0 <= j < entities.len() && i != j ==> #[trigger] entities[i].1
            != #[trigger] entities[j].1
}

/// The entity carrying each rollback identifier, keyed by the identifier.
pub open spec fn entity_by_rollback(entities: Seq<(u64, RollbackId)>) -> Map<u64, u64>
    decreases entities.len(),
{
    if entities.len() == 0 {
        Map::empty()
    } else {
        entity_by_rollback(entities.drop_last()).insert(entities.last().1.0, entities.last().0)
    }
}

proof fn lemma_entity_by_rollback(entities: Seq<(u64, RollbackId)>)
    requires
        distinct_rollbacks(entities),
    ensures
        forall|k: u64|
            entity_by_rollback(entities).contains_key(k) <==> exists|i: int|
                0 <= i < entities.len() && entities[i].1.0 == k,
        forall|i: int|
            0 <= i < entities.len() ==> #[trigger] entity_by_rollback(entities)[entities[i].1.0]
                == entities[i].0 && entity_by_rollback(entities).contains_key(entities[i].1.0),
    decreases entities.len(),
{
    if entities.len() > 0 {
        let prefix = entities.drop_last();
        assert(distinct_rollbacks(prefix)) by {
            assert forall|i: int, j: int|
                0 <= i < prefix.len() && 0 <= j < prefix.len() && i != j implies #[trigger] prefix[i].1
                != #[trigger] prefix[j].1 by {
                assert(prefix[i] == entities[i]);
                assert(prefix[j] == entities[j]);
            }
        }
        lemma_entity_by_rollback(prefix);
        assert forall|k: u64|
            entity_by_rollback(entities).contains_key(k) implies exists|i: int|
            0 <= i < entities.len() && entities[i].1.0 == k by {
            if k != entities.last().1.0 {
                assert(entity_by_rollback(prefix).contains_key(k));
                let i = choose|i: int| 0 <= i < prefix.len() && prefix[i].1.0 == k;
                assert(entities[i] == prefix[i]);
            } else {
                assert(entities[entities.len() - 1].1.0 == k);
            }
        }
        assert forall|k: u64|
            (exists|i: int| 0 <= i < entities.len() && entities[i].1.0 == k) implies entity_by_rollback(
            entities,
        ).contains_key(k) by {
            let i = choose|i: int| 0 <= i < entities.len() && entities[i].1.0 == k;
            if i < entities.len() - 1 {
                assert(prefix[i] == entities[i]);
                assert(entity_by_rollback(prefix)[prefix[i].1.0] == prefix[i].0);
            }
        }
        assert forall|i: int| 0 <= i < entities.len() implies #[trigger] entity_by_rollback(
            entities,
        )[entities[i].1.0] == entities[i].0 && entity_by_rollback(entities).contains_key(
            entities[i].1.0,
        ) by {
            if i < entities.len() - 1 {
                assert(prefix[i] == entities[i]);
                assert(entity_by_rollback(prefix)[prefix[i].1.0] == prefix[i].0);
                assert(entities[i].1 != entities[entities.len() - 1].1);
            }
        }
    }
}

/// Maps each rollback identifier of the world to the entity carrying it; `None` when some
/// identifier is carried by two entities, which the rollback model does not allow.
pub fn rollback_id_map(entities: &Vec<(u64, RollbackId)>) -> (r: Option<HashMap<u64, u64>>)
    ensures
        r is Some <==> distinct_rollbacks(entities@),
        r matches Some(m) ==> id_map_entries(m) == entity_by_rollback(entities@),
{
    let mut map = id_map_new();
    let n = entities.len();
    let mut i: usize = 0;
    while i < n
        invariant
            n == entities@.len(),
            i <= n,
            distinct_rollbacks(entities@.take(i as int)),
            id_map_entries(map) == entity_by_rollback(entities@.take(i as int)),
        decreases n - i,
    {
        let (entity, rollback) = entities[i];
        proof {
            lemma_entity_by_rollback(entities@.take(i as int));
        }
        let previous = id_map_insert(&mut map, rollback.0, entity);
        if previous.is_some() {
            proof {
                let j = choose|j: int| 0 <= j < i && entities@.take(i as int)[j].1.0 == rollback.0;
                assert(entities@[j].1 == entities@[i as int].1);
            }
            return None;
        }
        proof {
            assert(entities@.take(i + 1).drop_last() =~= entities@.take(i as int));
            assert forall|a: int, b: int|
                0 <= a < i + 1 && 0 <= b < i + 1 && a != b implies #[trigger] entities@.take(
                i + 1,
            )[a].1 != #[trigger] entities@.take(i + 1)[b].1 by {
                if a < i && b < i {
                    assert(entities@.take(i as int)[a] == entities@[a]);
                    assert(entities@.take(i as int)[b] == entities@[b]);
                } else if a == i {
                    assert(entities@.take(i as int)[b].1.0 != rollback.0);
                } else {
                    assert(entities@.take(i as int)[a].1.0 != rollback.0);
                }
            }
        }
        i = i + 1;
    }
    assert(entities@.take(n as int) =~= entities@);
    Some(map)
}

/// How writing a snapshot into the world treats its rollback entities: `targets[i]` is the
/// live entity that snapshot entity `i` is written to, or `None` when one is spawned for it;
/// `despawn` lists the live rollback entities absent from the snapshot, in world order.
pub struct EntityWritePlan {
    /// The live entity for each snapshot entity, if there is one.
    pub targets: Vec<Option<u64>>,
    /// The live rollback entities to despawn.
    pub despawn: Vec<u64>,
}

/// The live rollback entities whose identifier is not in `recorded`, in order.
pub open spec fn absent_entities(world: Seq<(u64, RollbackId)>, recorded: Map<u64, u64>) -> Seq<u64>
    decreases world.len(),
{
    if world.len() == 0 {
        Seq::empty()
    } else {
        let rest = absent_entities(world.drop_last(), recorded);
        if recorded.contains_key(world.last().1.0) {
            rest
        } else {
            rest.push(world.last().0)
        }
    }
}

/// Plans the entity part of writing a snapshot into the world: each recorded entity is written
/// to the live entity with the same rollback identifier or to a newly spawned one, and live
/// rollback entities the snapshot does not hold are despawned. Identifiers are unique among
/// the recorded entities and among the live ones.
pub fn plan_entity_write(
    recorded: &Vec<(u64, RollbackId)>,
    world: &Vec<(u64, RollbackId)>,
) -> (r: EntityWritePlan)
    requires
        distinct_rollbacks(recorded@),
        distinct_rollbacks(world@),
    ensures
        r.targets@.len() == recorded@.len(),
        forall|i: int|
            0 <= i < recorded@.len() ==> #[trigger] r.targets@[i] == (if entity_by_rollback(
                world@,
            ).contains_key(recorded@[i].1.0) {
                Some(entity_by_rollback(world@)[recorded@[i].1.0])
            } else {
                None
            }),
        r.despawn@ == absent_entities(world@, entity_by_rollback(recorded@)),
{
    let live = match rollback_id_map(world) {
        Some(m) => m,
        None => {
            proof {
                assert(false);
            }
            id_map_new()
        },
    };
    let in_snapshot = match rollback_id_map(recorded) {
        Some(m) => m,
        None => {
            proof {
                assert(false);
            }
            id_map_new()
        },
    };
    let mut targets: Vec<Option<u64>> = Vec::new();
    let n = recorded.len();
    let mut i: usize = 0;
    while i < n
        invariant
            n == recorded@.len(),
            i <= n,
            id_map_entries(live) == entity_by_rollback(world@),
            targets@.len() == i,
            forall|j: int|
                0 <= j < i ==> #[trigger] targets@[j] == (if entity_by_rollback(
                    world@,
                ).contains_key(recorded@[j].1.0) {
                    Some(entity_by_rollback(world@)[recorded@[j].1.0])
                } else {
                    None
                }),
        decreases n - i,
    {
        let (_, rollback) = recorded[i];
        targets.push(id_map_get(&live, rollback.0));
        i = i + 1;
    }
    let mut despawn: Vec<u64> = Vec::new();
    let m = world.len();
    let mut k: usize = 0;
    while k < m
        invariant
            m == world@.len(),
            k <= m,
            id_map_entries(in_snapshot) == entity_by_rollback(recorded@),
            despawn@ == absent_entities(world@.take(k as int), entity_by_rollback(recorded@)),
        decreases m - k,
    {
        let (entity, rollback) = world[k];
        if id_map_get(&in_snapshot, rollback.0).is_none() {
            despawn.push(entity);
        }
        assert(world@.take(k + 1).drop_last() =~= world@.take(k as int));
        k = k + 1;
    }
    assert(world@.take(m as int) =~= world@);
    EntityWritePlan { targets, despawn }
}

/// The slot of a fixed ring of `slots` snapshots that holds the snapshot of `frame`.
pub fn snapshot_slot(frame: i32, slots: usize) -> (r: usize)
    requires
        slots > 0,
    ensures
        r == (frame as usize) % slots,
        r < slots,
{
    frame as usize % slots
}

/// In a ring of snapshots, frames that are a whole number of laps apart share a slot, and
/// consecutive frames use consecutive slots (wrapping to the first).
pub proof fn law_snapshot_slot_ring(frame: int, laps: int, slots: int)
    requires
        frame >= 0,
        laps >= 0,
        slots > 0,
    ensures
        (frame + laps * slots) % slots == frame % slots,
        (frame + 1) % slots == if frame % slots + 1 == slots {
            0
        } else {
            frame % slots + 1
        },
{
    vstd::arithmetic::div_mod::lemma_mod_multiples_vanish(laps, frame, slots);
    assert(laps * slots == slots * laps) by (nonlinear_arith);
    vstd::arithmetic::div_mod::lemma_add_mod_noop(frame, 1, slots);
    vstd::arithmetic::div_mod::lemma_mod_bound(frame, slots);
    if slots == 1 {
        vstd::arithmetic::div_mod::lemma_mod_self_0(1);
    } else {
        vstd::arithmetic::div_mod::lemma_small_mod(1, slots as nat);
    }
    let m = frame % slots;
    if m + 1 == slots {
        vstd::arithmetic::div_mod::lemma_mod_self_0(slots);
    } else {
        vstd::arithmetic::div_mod::lemma_small_mod((m + 1) as nat, slots as nat);
    }
}

} // verus!
