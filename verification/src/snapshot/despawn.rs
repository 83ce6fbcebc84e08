//! Deferred despawning of rollback entities: a despawned entity is only marked with the frame
//! it was despawned on, so that a rollback can bring it back; it is despawned for good once
//! that frame is confirmed.

use crate::snapshot::{ConfirmedFrameCount, RollbackFrameCount};
use vstd::prelude::*;

verus! {

/// Marks an entity as despawned, holding the frame on which it was despawned.
#[derive(Debug, Clone, Copy, PartialEq, Eq, Structural)]
pub struct RollbackDespawned(pub i32);

/// What a rollback despawn request does to the entity.
#[derive(Debug, Clone, Copy, PartialEq, Eq, Structural)]
pub enum DespawnAction {
    /// The frame is not confirmed yet: the entity and its descendants are marked as despawned
    /// on this frame.
    MarkDespawned(RollbackDespawned),
    /// The frame is confirmed, or there is no rollback simulation: the entity is despawned.
    Despawn,
}

/// The entities, among `despawned`, that satisfy `keep` for their despawn frame, in order.
pub open spec fn select_entities(
    despawned: Seq<(u64, RollbackDespawned)>,
    keep: spec_fn(i32) -> bool,
) -> Seq<u64>
    decreases despawned.len(),
{
    if despawned.len() == 0 {
        Seq::empty()
    } else {
        let rest = select_entities(despawned.drop_last(), keep);
        if keep(despawned.last().1.0) {
            rest.push(despawned.last().0)
        } else {
            rest
        }
    }
}

/// Despawned after `frame`: such an entity was alive on `frame` and comes back on a rollback
/// to it.
pub open spec fn despawned_after(frame: i32) -> spec_fn(i32) -> bool {
    |despawned_frame: i32| despawned_frame > frame
}

/// Despawned on or before `frame`: once `frame` is confirmed, such an entity is gone for good.
pub open spec fn despawned_by(frame: i32) -> spec_fn(i32) -> bool {
    |despawned_frame: i32| despawned_frame <= frame
}

/// Collects, in order, the entities whose despawn frame is after `frame` (when `after`) or on
/// or before it (otherwise).
fn select(despawned: &Vec<(u64, RollbackDespawned)>, frame: i32, after: bool) -> (r: Vec<u64>)
    ensures
        r@ == select_entities(
            despawned@,
            if after {
                despawned_after(frame)
            } else {
                despawned_by(frame)
            },
        ),
{
    let ghost keep = if after {
        despawned_after(frame)
    } else {
        despawned_by(frame)
    };
    let mut out: Vec<u64> = Vec::new();
    let n = despawned.len();
    let mut i: usize = 0;
    while i < n
        invariant
            n == despawned@.len(),
            i <= n,
            keep == (if after {
                despawned_after(frame)
            } else {
                despawned_by(frame)
            }),
            out@ == select_entities(despawned@.take(i as int), keep),
        decreases n - i,
    {
        let (entity, marker) = despawned[i];
        let selected = if after {
            marker.0 > frame
        } else {
            marker.0 <= frame
        };
        if selected {
            out.push(entity);
        }
        assert(despawned@.take(i + 1).drop_last() =~= despawned@.take(i as int));
        i = i + 1;
    }
    assert(despawned@.take(n as int) =~= despawned@);
    out
}

/// Deferred despawning for rollback entities.
pub struct RollbackDespawnPlugin;

impl RollbackDespawnPlugin {
    /// Decides what despawning a rollback entity does, given the current and confirmed frames
    /// when a rollback simulation is running.
    pub fn despawn_rollback(frames: Option<(RollbackFrameCount, ConfirmedFrameCount)>) -> (r:
        DespawnAction)
        ensures
            r == (match frames {
                Some((frame, confirmed)) => if confirmed.0 < frame.0 {
                    DespawnAction::MarkDespawned(RollbackDespawned(frame.0))
                } else {
                    DespawnAction::Despawn
                },
                None => DespawnAction::Despawn,
            }),
    {
        match frames {
            Some((RollbackFrameCount(frame), ConfirmedFrameCount(confirmed))) => {
                if confirmed < frame {
                    DespawnAction::MarkDespawned(RollbackDespawned(frame))
                } else {
                    DespawnAction::Despawn
                }
            },
            None => DespawnAction::Despawn,
        }
    }

    /// The entities to bring back when the world is loaded at `rollback_frame`: those marked
    /// as despawned after it. Entities marked on the frame itself were despawned during that
    /// frame and stay despawned.
    pub fn resurrect_entities(
        despawned: &Vec<(u64, RollbackDespawned)>,
        rollback_frame: &RollbackFrameCount,
    ) -> (r: Vec<u64>)
        ensures
            r@ == select_entities(despawned@, despawned_after(rollback_frame.0)),
    {
        select(despawned, rollback_frame.0, true)
    }

    /// The entities to despawn for good once `confirmed_frame` is confirmed: those marked as
    /// despawned on or before it. `last_confirmed` remembers the confirmed frame last acted on;
    /// when the confirmed frame has not changed since, nothing is despawned.
    pub fn despawn_confirmed_entities(
        despawned: &Vec<(u64, RollbackDespawned)>,
        confirmed_frame: &ConfirmedFrameCount,
        last_confirmed: &mut ConfirmedFrameCount,
    ) -> (r: Vec<u64>)
        ensures
            final(last_confirmed).0 == confirmed_frame.0,
            old(last_confirmed).0 == confirmed_frame.0 ==> r@ == Seq::<u64>::empty(),
            old(last_confirmed).0 != confirmed_frame.0 ==> r@ == select_entities(
                despawned@,
                despawned_by(confirmed_frame.0),
            ),
    {
        if confirmed_frame.0 == last_confirmed.0 {
            return Vec::new();
        }
        last_confirmed.0 = confirmed_frame.0;
        select(despawned, confirmed_frame.0, false)
    }
}

/// An entity marked as despawned on a frame that is not confirmed yet is resurrected by a
/// rollback to any earlier frame, and is never despawned for good by confirming any earlier
/// frame: a deferred despawn can always be undone until its frame is confirmed.
pub proof fn law_despawn_undoable(marked: i32, rollback_frame: i32, confirmed: i32)
    requires
        rollback_frame < marked,
        confirmed < marked,
    ensures
        (despawned_after(rollback_frame))(marked),
        !(despawned_by(confirmed))(marked),
{
}

/// Every marked entity is selected by exactly one of the two rules for a frame: resurrected by
/// a rollback to it, or despawned for good once it is confirmed.
pub proof fn law_resurrect_or_despawn_partition(despawned: Seq<(u64, RollbackDespawned)>, frame: i32)
    ensures
        select_entities(despawned, despawned_after(frame)).len() + select_entities(
            despawned,
            despawned_by(frame),
        ).len() == despawned.len(),
    decreases despawned.len(),
{
    if despawned.len() > 0 {
        law_resurrect_or_despawn_partition(despawned.drop_last(), frame);
    }
}

} // verus!
