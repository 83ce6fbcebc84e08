//! Snapshots of the parent relation. The recorded parent is an entity id of the snapshot's
//! frame, so it is mapped through the [`RollbackEntityMap`] before it is restored.

use crate::snapshot::component_snapshot::GgrsComponentSnapshots;
use crate::snapshot::rollback::RollbackId;
use crate::snapshot::rollback_entity_map::RollbackEntityMap;
use crate::snapshot::{first_position, RollbackFrameCount};
use vstd::prelude::*;

verus! {

/// What restoring the parent relation does to one entity.
#[derive(Debug, Clone, Copy, PartialEq, Eq, Structural)]
pub enum ChildOfAction {
    /// The entity had no parent on the frame: its parent relation is removed.
    Remove,
    /// The entity had a parent on the frame: it is made a child of this (mapped) parent.
    Insert(u64),
    /// The recorded parent has no mapping: nothing is restored and a warning is due.
    MissingParent(u64),
    /// Neither now nor on the frame does the entity have a parent.
    Keep,
}

/// The restore of the parent relation of an entity, from whether it has a parent now, the
/// recorded parent, and the entity map.
pub open spec fn childof_action_spec(
    present: bool,
    recorded: Option<u64>,
    map: Map<u64, u64>,
) -> ChildOfAction {
    match recorded {
        Some(parent) => if map.contains_key(parent) {
            ChildOfAction::Insert(map[parent])
        } else {
            ChildOfAction::MissingParent(parent)
        },
        None => if present {
            ChildOfAction::Remove
        } else {
            ChildOfAction::Keep
        },
    }
}

/// The recorded parent of identifier `k` in a snapshot.
pub open spec fn recorded_parent(snapshot: Map<u64, u64>, k: u64) -> Option<u64> {
    if snapshot.contains_key(k) {
        Some(snapshot[k])
    } else {
        None
    }
}

/// The parent of an entity once `action` is carried out, given its parent `current` before.
/// A missing parent changes nothing.
pub open spec fn parent_after(action: ChildOfAction, current: Option<u64>) -> Option<u64> {
    match action {
        ChildOfAction::Insert(parent) => Some(parent),
        ChildOfAction::Remove => None,
        ChildOfAction::MissingParent(_) => current,
        ChildOfAction::Keep => current,
    }
}

/// The parent an entity should have after a rollback, given its parent `current` now, the
/// parent `recorded` in the snapshot, and the entity map: the recorded parent as mapped when
/// it is mapped; when it is not, the hierarchy cannot be restored and stays as it is; and no
/// parent when none was recorded.
pub open spec fn restored_parent(
    current: Option<u64>,
    recorded: Option<u64>,
    map: Map<u64, u64>,
) -> Option<u64> {
    match recorded {
        Some(parent) => if map.contains_key(parent) {
            Some(map[parent])
        } else {
            current
        },
        None => None,
    }
}

/// Restoring the parent relation gives every entity the parent it had on the frame, mapped
/// through the entity map, whatever its parent now; an entity with no recorded parent ends up
/// with none; a recorded parent that is not mapped is reported, and nothing else changes.
pub proof fn law_childof_restores_parent(current: Option<u64>, recorded: Option<u64>, map: Map<u64, u64>)
    ensures
        parent_after(childof_action_spec(current is Some, recorded, map), current)
            == restored_parent(current, recorded, map),
        (recorded matches Some(p) && !map.contains_key(p)) ==> childof_action_spec(
            current is Some,
            recorded,
            map,
        ) == ChildOfAction::MissingParent(recorded->Some_0),
{
}

/// Specialised snapshotting for the parent relation, which is immutable and needs entity
/// mapping before it is restored.
pub struct ChildOfSnapshotPlugin;

impl ChildOfSnapshotPlugin {
    /// Rolls the parent snapshots back to `frame` and decides, for each listed `(entity,
    /// identifier, has a parent now)`, how its parent relation is restored.
    pub fn load(
        snapshots: &mut GgrsComponentSnapshots<u64, u64>,
        frame: &RollbackFrameCount,
        entities: &Vec<(u64, RollbackId, bool)>,
        map: &RollbackEntityMap,
    ) -> (r: Vec<(u64, ChildOfAction)>)
        requires
            old(snapshots).well_formed(),
            old(snapshots).frames().contains(frame.0),
        ensures
            final(snapshots).well_formed(),
            final(snapshots).frames() == old(snapshots).frames().skip(
                first_position(old(snapshots).frames(), frame.0) as int,
            ),
            final(snapshots).snapshots() == old(snapshots).snapshots().skip(
                first_position(old(snapshots).frames(), frame.0) as int,
            ),
            r@.len() == entities@.len(),
            forall|i: int|
                0 <= i < r@.len() ==> #[trigger] r@[i] == (
                    entities@[i].0,
                    childof_action_spec(
                        entities@[i].2,
                        recorded_parent(final(snapshots).snapshots()[0].view(), entities@[i].1.0),
                        map.view(),
                    ),
                ),
            forall|i: int, current: Option<u64>|
                0 <= i < r@.len() && (current is Some) == entities@[i].2 ==> #[trigger] parent_after(
                    r@[i].1,
                    current,
                ) == restored_parent(
                    current,
                    recorded_parent(final(snapshots).snapshots()[0].view(), entities@[i].1.0),
                    map.view(),
                ),
    {
        snapshots.rollback(frame.0);
        let snapshot = snapshots.get();
        let mut actions: Vec<(u64, ChildOfAction)> = Vec::new();
        let n = entities.len();
        let mut i: usize = 0;
        while i < n
            invariant
                n == entities@.len(),
                i <= n,
                actions@.len() == i,
                forall|j: int|
                    0 <= j < i ==> #[trigger] actions@[j] == (
                        entities@[j].0,
                        childof_action_spec(
                            entities@[j].2,
                            recorded_parent(snapshot.view(), entities@[j].1.0),
                            map.view(),
                        ),
                    ),
            decreases n - i,
        {
            let (entity, rollback, present) = entities[i];
            let action = match snapshot.get(&rollback) {
                Some(parent) => match map.get(*parent) {
                    Some(mapped) => ChildOfAction::Insert(mapped),
                    None => ChildOfAction::MissingParent(*parent),
                },
                None => if present {
                    ChildOfAction::Remove
                } else {
                    ChildOfAction::Keep
                },
            };
            actions.push((entity, action));
            i = i + 1;
        }
        assert forall|i: int, current: Option<u64>|
            0 <= i < actions@.len() && (current is Some) == entities@[i].2 implies #[trigger] parent_after(
            actions@[i].1,
            current,
        ) == restored_parent(
            current,
            recorded_parent(snapshot.view(), entities@[i].1.0),
            map.view(),
        ) by {
            law_childof_restores_parent(
                current,
                recorded_parent(snapshot.view(), entities@[i].1.0),
                map.view(),
            );
        }
        actions
    }
}

} // verus!
