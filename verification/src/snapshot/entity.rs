//! Snapshot and restore of the rollback entity set: each frame records which entity carries
//! each [`RollbackId`]; a rollback reconciles the live entities against that record.

use crate::snapshot::component_snapshot::{component_pairs_to_map, GgrsComponentSnapshot};
use crate::snapshot::id_map::{id_map_entries, id_map_get, id_map_insert, id_map_new, id_map_pairs};
use crate::snapshot::rollback::RollbackId;
use crate::snapshot::rollback_entity_map::pairs_to_map;
use crate::snapshot::{first_position, GgrsSnapshots, RollbackFrameCount};
use vstd::prelude::*;

verus! {

/// What a rollback does with the entity of one [`RollbackId`]; entities are given by their
/// bits.
#[derive(Debug, Clone, Copy, PartialEq, Eq, Structural)]
pub enum EntityAction {
    /// The identifier has a live entity and one in the snapshot: the live one is kept, and the
    /// recorded one is mapped to it.
    Keep { rollback: RollbackId, current: u64, old: u64 },
    /// The identifier has a live entity but none in the snapshot: the live one is despawned.
    Despawn { rollback: RollbackId, current: u64 },
    /// The identifier has no live entity but one in the snapshot: a new entity is spawned with
    /// the identifier, and the recorded one is mapped to it.
    Respawn { rollback: RollbackId, old: u64 },
}

/// The identifier an action is about.
pub open spec fn action_key(a: EntityAction) -> u64 {
    match a {
        EntityAction::Keep { rollback, .. } => rollback.0,
        EntityAction::Despawn { rollback, .. } => rollback.0,
        EntityAction::Respawn { rollback, .. } => rollback.0,
    }
}

/// The action for identifier `k`, given the live entities and the snapshot (both by
/// identifier key); `k` has an entry in at least one of them.
pub open spec fn expected_action(k: u64, live: Map<u64, u64>, snapshot: Map<u64, u64>) -> EntityAction {
    if live.contains_key(k) && snapshot.contains_key(k) {
        EntityAction::Keep { rollback: RollbackId(k), current: live[k], old: snapshot[k] }
    } else if live.contains_key(k) {
        EntityAction::Despawn { rollback: RollbackId(k), current: live[k] }
    } else {
        EntityAction::Respawn { rollback: RollbackId(k), old: snapshot[k] }
    }
}

/// `actions` holds exactly one action per identifier that is live or in the snapshot, and it is
/// the expected one.
pub open spec fn reconciles(
    actions: Seq<EntityAction>,
    live: Map<u64, u64>,
    snapshot: Map<u64, u64>,
) -> bool {
    &&& forall|i: int|
        0 <= i < actions.len() ==> (live.contains_key(action_key(#[trigger] actions[i]))
            || snapshot.contains_key(action_key(actions[i]))) && actions[i] == expected_action(
            action_key(actions[i]),
            live,
            snapshot,
        )
    &&& forall|i: int, j: int|
        0 <= i < actions.len() && 0 <= j < actions.len() && i != j ==> action_key(
            #[trigger] actions[i],
        ) != action_key(#[trigger] actions[j])
    &&& forall|k: u64|
        live.contains_key(k) || snapshot.contains_key(k) ==> exists|i: int|
            0 <= i < actions.len() && #[trigger] action_key(actions[i]) == k
}

/// The entity snapshots, by frame.
pub type EntitySnapshots = GgrsSnapshots<u64, GgrsComponentSnapshot<u64, u64>>;

/// Manages the rollback of entities: it records, each frame, which entity carries each
/// [`RollbackId`], and on rollback works out which entities to keep, despawn or respawn.
pub struct EntitySnapshotPlugin;

impl EntitySnapshotPlugin {
    /// Records the current [`RollbackId`] to entity mapping for this frame.
    pub fn save(
        snapshots: &mut EntitySnapshots,
        frame: &RollbackFrameCount,
        entities: Vec<(RollbackId, u64)>,
    )
        requires
            old(snapshots).well_formed(),
        ensures
            final(snapshots).well_formed(),
            final(snapshots).spec_depth() == old(snapshots).spec_depth(),
            final(snapshots).frames() == crate::snapshot::pushed(
                old(snapshots).frames(),
                crate::snapshot::newer_prefix_len(old(snapshots).frames(), frame.0),
                frame.0,
                old(snapshots).spec_depth(),
            ),
            final(snapshots).snapshots() == crate::snapshot::pushed(
                old(snapshots).snapshots(),
                crate::snapshot::newer_prefix_len(old(snapshots).frames(), frame.0),
                final(snapshots).snapshots()[0],
                old(snapshots).spec_depth(),
            ),
            final(snapshots).snapshots().len() > 0 ==> final(snapshots).snapshots()[0].view()
                == component_pairs_to_map(entities@),
            final(snapshots).snapshots().len() == 0 ==> old(snapshots).spec_depth() == 0,
    {
        let ghost pairs = entities@;
        let snapshot = GgrsComponentSnapshot::new(entities);
        let ghost item = snapshot;
        snapshots.push(frame.0, snapshot);
        proof {
            crate::snapshot::lemma_newer_prefix_len(old(snapshots).frames(), frame.0);
            crate::snapshot::lemma_pushed_head(
                old(snapshots).snapshots(),
                crate::snapshot::newer_prefix_len(old(snapshots).frames(), frame.0),
                item,
                old(snapshots).spec_depth(),
            );
        }
    }

    /// Rolls the entity snapshots back to the current frame and works out, for every
    /// identifier that is live or recorded in that snapshot, whether its entity is kept,
    /// despawned or respawned. `live` lists the live entities with their identifiers; where an
    /// identifier is listed twice, the later entity counts.
    pub fn load(
        snapshots: &mut EntitySnapshots,
        frame: &RollbackFrameCount,
        live: &Vec<(RollbackId, u64)>,
    ) -> (r: Vec<EntityAction>)
        requires
            old(snapshots).well_formed(),
            old(snapshots).frames().contains(frame.0),
        ensures
            final(snapshots).well_formed(),
            final(snapshots).frames() == old(snapshots).frames().skip(
                first_position(old(snapshots).frames(), frame.0) as int,
            ),
            final(snapshots).snapshots() == old(snapshots).snapshots().skip(
                first_position(old(snapshots).frames(), frame.0) as int,
            ),
            reconciles(
                r@,
                component_pairs_to_map(live@),
                final(snapshots).snapshots()[0].view(),
            ),
    {
        snapshots.rollback(frame.0);
        let snapshot = snapshots.get();
        Self::reconcile(snapshot, live)
    }

    /// Works out, for every identifier that is live or recorded in `snapshot`, whether its
    /// entity is kept, despawned or respawned.
    pub fn reconcile(
        snapshot: &GgrsComponentSnapshot<u64, u64>,
        live: &Vec<(RollbackId, u64)>,
    ) -> (r: Vec<EntityAction>)
        ensures
            reconciles(r@, component_pairs_to_map(live@), snapshot.view()),
    {
        let ghost live_map = component_pairs_to_map(live@);
        let ghost snap = snapshot.view();
        // Live entity by identifier key; a later entry for the same identifier wins.
        let mut current = id_map_new();
        let n = live.len();
        let mut i: usize = 0;
        while i < n
            invariant
                n == live@.len(),
                i <= n,
                id_map_entries(current) == component_pairs_to_map(live@.take(i as int)),
            decreases n - i,
        {
            let (rollback, entity) = live[i];
            id_map_insert(&mut current, rollback.0, entity);
            assert(live@.take(i + 1).drop_last() =~= live@.take(i as int));
            i = i + 1;
        }
        assert(live@.take(n as int) =~= live@);
        assert(id_map_entries(current) == live_map);
        let mut actions: Vec<EntityAction> = Vec::new();
        // Identifiers in the snapshot: kept or respawned.
        let recorded = snapshot.iter();
        let m = recorded.len();
        let mut j: usize = 0;
        while j < m
            invariant
                m == recorded@.len(),
                j <= m,
                id_map_entries(current) == live_map,
                snap == snapshot.view(),
                forall|a: int|
                    0 <= a < m ==> snap.contains_key(#[trigger] recorded@[a].0.0) && snap[recorded@[a].0.0]
                        == *recorded@[a].1,
                forall|a: int, b: int|
                    0 <= a < m && 0 <= b < m && a != b ==> #[trigger] recorded@[a].0
                        != #[trigger] recorded@[b].0,
                actions@.len() == j,
                forall|a: int|
                    0 <= a < j ==> #[trigger] actions@[a] == expected_action(
                        recorded@[a].0.0,
                        live_map,
                        snap,
                    ),
            decreases m - j,
        {
            let (rollback, old) = recorded[j];
            let action = match id_map_get(&current, rollback.0) {
                Some(entity) => EntityAction::Keep { rollback, current: entity, old: *old },
                None => EntityAction::Respawn { rollback, old: *old },
            };
            actions.push(action);
            j = j + 1;
        }
        let ghost kept_or_respawned = actions@;
        // Identifiers only live: despawned.
        let live_pairs = id_map_pairs(&current);
        let p = live_pairs.len();
        let mut k: usize = 0;
        while k < p
            invariant
                p == live_pairs@.len(),
                k <= p,
                id_map_entries(current) == live_map,
                snap == snapshot.view(),
                forall|a: int|
                    0 <= a < p ==> live_map.contains_key(#[trigger] live_pairs@[a].0)
                        && live_map[live_pairs@[a].0] == live_pairs@[a].1,
                forall|a: int, b: int|
                    0 <= a < p && 0 <= b < p && a != b ==> #[trigger] live_pairs@[a].0
                        != #[trigger] live_pairs@[b].0,
                actions@.len() >= m,
                actions@.subrange(0, m as int) == kept_or_respawned,
                forall|a: int|
                    m <= a < actions@.len() ==> #[trigger] actions@[a] == expected_action(
                        action_key(actions@[a]),
                        live_map,
                        snap,
                    ) && live_map.contains_key(action_key(actions@[a])) && !snap.contains_key(
                        action_key(actions@[a]),
                    ),
                forall|a: int|
                    m <= a < actions@.len() ==> exists|c: int|
                        0 <= c < k && live_pairs@[c].0 == action_key(#[trigger] actions@[a]),
                forall|c: int|
                    0 <= c < k && !snap.contains_key(#[trigger] live_pairs@[c].0) ==> exists|a: int|
                        m <= a < actions@.len() && action_key(actions@[a]) == live_pairs@[c].0,
                forall|a: int, b: int|
                    m <= a < actions@.len() && m <= b < actions@.len() && a != b ==> action_key(
                        #[trigger] actions@[a],
                    ) != action_key(#[trigger] actions@[b]),
            decreases p - k,
        {
            let (key, entity) = live_pairs[k];
            let ghost before = actions@;
            match snapshot.get(&RollbackId(key)) {
                Some(_) => {},
                None => {
                    actions.push(EntityAction::Despawn { rollback: RollbackId(key), current: entity });
                    assert(actions@.subrange(0, m as int) =~= before.subrange(0, m as int));
                    assert(action_key(actions@[actions@.len() - 1]) == key);
                },
            }
            proof {
                assert forall|c: int|
                    0 <= c < k + 1 && !snap.contains_key(#[trigger] live_pairs@[c].0) implies exists|a: int|
                    m <= a < actions@.len() && action_key(actions@[a]) == live_pairs@[c].0 by {
                    if c < k {
                        let a = choose|a: int|
                            m <= a < before.len() && action_key(before[a]) == live_pairs@[c].0;
                        assert(actions@[a] == before[a]);
                    } else {
                        assert(action_key(actions@[actions@.len() - 1]) == key);
                    }
                }
                assert forall|a: int| m <= a < actions@.len() implies exists|c: int|
                    0 <= c < k + 1 && live_pairs@[c].0 == action_key(#[trigger] actions@[a]) by {
                    if a < before.len() {
                        assert(actions@[a] == before[a]);
                        let c = choose|c: int| 0 <= c < k && live_pairs@[c].0 == action_key(before[a]);
                        assert(live_pairs@[c].0 == action_key(actions@[a]));
                    } else {
                        assert(live_pairs@[k as int].0 == action_key(actions@[a]));
                    }
                }
            }
            k = k + 1;
        }
        proof {
            let acts = actions@;
            assert forall|a: int| 0 <= a < acts.len() implies (live_map.contains_key(
                action_key(#[trigger] acts[a]),
            ) || snap.contains_key(action_key(acts[a]))) && acts[a] == expected_action(
                action_key(acts[a]),
                live_map,
                snap,
            ) by {
                if a < m {
                    assert(acts[a] == kept_or_respawned[a]);
                    assert(snap.contains_key(recorded@[a].0.0));
                }
            }
            assert forall|a: int, b: int|
                0 <= a < acts.len() && 0 <= b < acts.len() && a != b implies action_key(
                #[trigger] acts[a],
            ) != action_key(#[trigger] acts[b]) by {
                if a < m && b < m {
                    assert(acts[a] == kept_or_respawned[a]);
                    assert(acts[b] == kept_or_respawned[b]);
                    assert(recorded@[a].0 != recorded@[b].0);
                } else if a < m {
                    assert(acts[a] == kept_or_respawned[a]);
                    assert(snap.contains_key(recorded@[a].0.0));
                } else if b < m {
                    assert(acts[b] == kept_or_respawned[b]);
                    assert(snap.contains_key(recorded@[b].0.0));
                }
            }
            assert forall|key: u64|
                live_map.contains_key(key) || snap.contains_key(key) implies exists|a: int|
                0 <= a < acts.len() && #[trigger] action_key(acts[a]) == key by {
                if snap.contains_key(key) {
                    let a = choose|a: int| 0 <= a < m && recorded@[a].0.0 == key;
                    assert(acts[a] == kept_or_respawned[a]);
                    assert(action_key(acts[a]) == key);
                } else {
                    let c = choose|c: int| 0 <= c < p && live_pairs@[c].0 == key;
                    let a = choose|a: int|
                        m <= a < acts.len() && action_key(acts[a]) == live_pairs@[c].0;
                    assert(action_key(acts[a]) == key);
                }
            }
        }
        actions
    }

    /// The `(old, new)` entity pairs of the [`RollbackEntityMap`](crate::snapshot::rollback_entity_map::RollbackEntityMap)
    /// after the actions were carried out: a recorded entity maps to the live entity that is
    /// kept for its identifier, or to the entity spawned for it. `spawned[i]` is the entity
    /// spawned for `actions[i]`, which is given exactly for the respawns.
    pub fn entity_map_pairs(
        actions: &Vec<EntityAction>,
        spawned: &Vec<Option<u64>>,
    ) -> (r: Vec<(u64, u64)>)
        requires
            actions@.len() == spawned@.len(),
            forall|i: int|
                0 <= i < actions@.len() ==> ((#[trigger] actions@[i] is Respawn) <==> spawned@[i] is Some),
        ensures
            r@ == map_pairs_spec(actions@, spawned@),
    {
        let mut pairs: Vec<(u64, u64)> = Vec::new();
        let n = actions.len();
        let mut i: usize = 0;
        while i < n
            invariant
                n == actions@.len(),
                n == spawned@.len(),
                i <= n,
                forall|a: int|
                    0 <= a < actions@.len() ==> ((#[trigger] actions@[a] is Respawn)
                        <==> spawned@[a] is Some),
                pairs@ == map_pairs_spec(actions@.take(i as int), spawned@.take(i as int)),
            decreases n - i,
        {
            match actions[i] {
                EntityAction::Keep { current, old, .. } => {
                    pairs.push((old, current));
                },
                EntityAction::Respawn { old, .. } => {
                    match spawned[i] {
                        Some(new_entity) => {
                            pairs.push((old, new_entity));
                        },
                        None => {},
                    }
                },
                EntityAction::Despawn { .. } => {},
            }
            assert(actions@.take(i + 1).drop_last() =~= actions@.take(i as int));
            assert(spawned@.take(i + 1).drop_last() =~= spawned@.take(i as int));
            i = i + 1;
        }
        assert(actions@.take(n as int) =~= actions@);
        assert(spawned@.take(n as int) =~= spawned@);
        pairs
    }
}

/// The entity map pairs contributed by the actions, in order.
pub open spec fn map_pairs_spec(actions: Seq<EntityAction>, spawned: Seq<Option<u64>>) -> Seq<
    (u64, u64),
>
    decreases actions.len(),
{
    if actions.len() == 0 || spawned.len() != actions.len() {
        Seq::empty()
    } else {
        let rest = map_pairs_spec(actions.drop_last(), spawned.drop_last());
        match actions.last() {
            EntityAction::Keep { current, old, .. } => rest.push((old, current)),
            EntityAction::Respawn { old, .. } => match spawned.last() {
                Some(new_entity) => rest.push((old, new_entity)),
                None => rest,
            },
            EntityAction::Despawn { .. } => rest,
        }
    }
}

/// The recorded entity an action maps from, for the actions that add a mapping.
pub open spec fn action_old(a: EntityAction) -> Option<u64> {
    match a {
        EntityAction::Keep { old, .. } => Some(old),
        EntityAction::Respawn { old, .. } => Some(old),
        EntityAction::Despawn { .. } => None,
    }
}

/// The entity an action maps its recorded entity to: the live one for a kept entity, the
/// spawned one for a respawn.
pub open spec fn action_target(a: EntityAction, spawned: Option<u64>) -> u64 {
    match a {
        EntityAction::Keep { current, .. } => current,
        _ => spawned->Some_0,
    }
}

proof fn lemma_map_pairs_prefix(actions: Seq<EntityAction>, spawned: Seq<Option<u64>>, n: int)
    requires
        actions.len() == spawned.len(),
        0 <= n <= actions.len(),
        forall|i: int| 0 <= i < actions.len() ==> ((#[trigger] actions[i] is Respawn) <==> spawned[i] is Some),
        forall|i: int, j: int|
            0 <= i < j < actions.len() && action_old(#[trigger] actions[i]) is Some && action_old(
                #[trigger] actions[j],
            ) is Some ==> action_old(actions[i]) != action_old(actions[j]),
    ensures
        ({
            let m = pairs_to_map(map_pairs_spec(actions.take(n), spawned.take(n)));
            &&& forall|i: int|
                0 <= i < n && action_old(#[trigger] actions[i]) is Some ==> m.contains_key(
                    action_old(actions[i])->Some_0,
                ) && m[action_old(actions[i])->Some_0] == action_target(actions[i], spawned[i])
            &&& forall|e: u64| #[trigger]
                m.contains_key(e) ==> exists|i: int| 0 <= i < n && action_old(actions[i]) == Some(e)
        }),
    decreases n,
{
    if n > 0 {
        lemma_map_pairs_prefix(actions, spawned, n - 1);
        let a = actions.take(n);
        let sp = spawned.take(n);
        assert(a.drop_last() =~= actions.take(n - 1));
        assert(sp.drop_last() =~= spawned.take(n - 1));
        let rest = map_pairs_spec(actions.take(n - 1), spawned.take(n - 1));
        let prev = pairs_to_map(rest);
        let m = pairs_to_map(map_pairs_spec(a, sp));
        assert(a.last() == actions[n - 1]);
        assert(sp.last() == spawned[n - 1]);
        match actions[n - 1] {
            EntityAction::Despawn { .. } => {
                assert(m == prev);
            },
            EntityAction::Keep { current, old, .. } => {
                assert(rest.push((old, current)).drop_last() =~= rest);
                assert(m == prev.insert(old, current));
            },
            EntityAction::Respawn { old, .. } => {
                let t = spawned[n - 1]->Some_0;
                assert(rest.push((old, t)).drop_last() =~= rest);
                assert(m == prev.insert(old, t));
            },
        }
        assert forall|i: int|
            0 <= i < n && action_old(#[trigger] actions[i]) is Some implies m.contains_key(
            action_old(actions[i])->Some_0,
        ) && m[action_old(actions[i])->Some_0] == action_target(actions[i], spawned[i]) by {
            if i < n - 1 && action_old(actions[n - 1]) is Some {
                assert(action_old(actions[i]) != action_old(actions[n - 1]));
            }
        }
        assert forall|e: u64| #[trigger] m.contains_key(e) implies exists|i: int|
            0 <= i < n && action_old(actions[i]) == Some(e) by {
            if prev.contains_key(e) {
                let i = choose|i: int| 0 <= i < n - 1 && action_old(actions[i]) == Some(e);
                assert(0 <= i < n && action_old(actions[i]) == Some(e));
            } else {
                assert(action_old(actions[n - 1]) == Some(e));
            }
        }
    }
}

/// The entity map built after a rollback maps old to new: a recorded entity whose identifier
/// is still live maps to the live entity, a recorded entity that was respawned maps to the
/// entity spawned for it, and nothing but recorded entities is mapped. Recorded entities are
/// distinct for distinct identifiers, as each entity carries one identifier.
pub proof fn law_entity_map_old_to_new(
    actions: Seq<EntityAction>,
    spawned: Seq<Option<u64>>,
    live: Map<u64, u64>,
    snapshot: Map<u64, u64>,
)
    requires
        reconciles(actions, live, snapshot),
        actions.len() == spawned.len(),
        forall|i: int| 0 <= i < actions.len() ==> ((#[trigger] actions[i] is Respawn) <==> spawned[i] is Some),
        forall|a: u64, b: u64|
            #[trigger] snapshot.contains_key(a) && #[trigger] snapshot.contains_key(b) && a != b
                ==> snapshot[a] != snapshot[b],
    ensures
        ({
            let m = pairs_to_map(map_pairs_spec(actions, spawned));
            &&& forall|k: u64|
                live.contains_key(k) && #[trigger] snapshot.contains_key(k) ==> m.contains_key(
                    snapshot[k],
                ) && m[snapshot[k]] == live[k]
            &&& forall|i: int|
                0 <= i < actions.len() && #[trigger] actions[i] is Respawn ==> m.contains_key(
                    snapshot[action_key(actions[i])],
                ) && m[snapshot[action_key(actions[i])]] == spawned[i]->Some_0
            &&& forall|e: u64| #[trigger]
                m.contains_key(e) ==> exists|k: u64| snapshot.contains_key(k) && snapshot[k] == e
        }),
{
    assert forall|i: int| 0 <= i < actions.len() && action_old(#[trigger] actions[i]) is Some implies
        snapshot.contains_key(action_key(actions[i])) && action_old(actions[i]) == Some(
        snapshot[action_key(actions[i])],
    ) by {
        assert(actions[i] == expected_action(action_key(actions[i]), live, snapshot));
    }
    assert forall|i: int, j: int|
        0 <= i < j < actions.len() && action_old(#[trigger] actions[i]) is Some && action_old(
            #[trigger] actions[j],
        ) is Some implies action_old(actions[i]) != action_old(actions[j]) by {
        assert(action_key(actions[i]) != action_key(actions[j]));
        assert(snapshot.contains_key(action_key(actions[i])));
        assert(snapshot.contains_key(action_key(actions[j])));
    }
    lemma_map_pairs_prefix(actions, spawned, actions.len() as int);
    assert(actions.take(actions.len() as int) =~= actions);
    assert(spawned.take(spawned.len() as int) =~= spawned);
    let m = pairs_to_map(map_pairs_spec(actions, spawned));
    assert forall|k: u64|
        live.contains_key(k) && #[trigger] snapshot.contains_key(k) implies m.contains_key(
        snapshot[k],
    ) && m[snapshot[k]] == live[k] by {
        let i = choose|i: int| 0 <= i < actions.len() && #[trigger] action_key(actions[i]) == k;
        assert(actions[i] == expected_action(k, live, snapshot));
        assert(action_old(actions[i]) is Some);
    }
    assert forall|i: int|
        0 <= i < actions.len() && #[trigger] actions[i] is Respawn implies m.contains_key(
        snapshot[action_key(actions[i])],
    ) && m[snapshot[action_key(actions[i])]] == spawned[i]->Some_0 by {
        assert(action_old(actions[i]) is Some);
    }
    assert forall|e: u64| #[trigger] m.contains_key(e) implies exists|k: u64|
        snapshot.contains_key(k) && snapshot[k] == e by {
        let i = choose|i: int| 0 <= i < actions.len() && action_old(actions[i]) == Some(e);
        assert(action_old(actions[i]) is Some);
        assert(snapshot.contains_key(action_key(actions[i])));
    }
}

} // verus!
