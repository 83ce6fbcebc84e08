//! Snapshots of resources: at most one stored value per frame.

use crate::snapshot::component_snapshot::{
    law_restore_matches_snapshot, plan_restore, present_after, restore_action_spec, writes_stored,
    RestoreAction,
};
use crate::snapshot::strategy::Strategy;
use crate::snapshot::{first_position, GgrsSnapshots, RollbackFrameCount};
use std::marker::PhantomData;
use vstd::prelude::*;

verus! {

/// Snapshots of a resource by frame: each holds the stored version, or `None` when the resource
/// did not exist on that frame.
pub type GgrsResourceSnapshots<For, As> = GgrsSnapshots<For, Option<As>>;

/// Manages snapshots for a resource using a provided [`Strategy`].
pub struct ResourceSnapshotPlugin<S: Strategy> {
    _phantom: PhantomData<S>,
}

impl<S: Strategy> ResourceSnapshotPlugin<S> {
    /// Records the resource for `frame`, stored with the strategy, or its absence.
    pub fn save(
        snapshots: &mut GgrsResourceSnapshots<S::Target, S::Stored>,
        frame: &RollbackFrameCount,
        resource: Option<&S::Target>,
    )
        requires
            old(snapshots).well_formed(),
        ensures
            final(snapshots).well_formed(),
            final(snapshots).frames() == crate::snapshot::pushed(
                old(snapshots).frames(),
                crate::snapshot::newer_prefix_len(old(snapshots).frames(), frame.0),
                frame.0,
                old(snapshots).spec_depth(),
            ),
            final(snapshots).spec_depth() == old(snapshots).spec_depth(),
            final(snapshots).snapshots() == crate::snapshot::pushed(
                old(snapshots).snapshots(),
                crate::snapshot::newer_prefix_len(old(snapshots).frames(), frame.0),
                final(snapshots).snapshots()[0],
                old(snapshots).spec_depth(),
            ),
            old(snapshots).spec_depth() > 0 ==> match resource {
                Some(target) => final(snapshots).snapshots()[0] is Some && call_ensures(
                    S::store,
                    (target,),
                    final(snapshots).snapshots()[0]->Some_0,
                ),
                None => final(snapshots).snapshots()[0] is None,
            },
    {
        let stored = match resource {
            Some(target) => Some(S::store(target)),
            None => None,
        };
        let ghost item = stored;
        snapshots.push(frame.0, stored);
        proof {
            crate::snapshot::lemma_newer_prefix_len(old(snapshots).frames(), frame.0);
            crate::snapshot::lemma_pushed_head(
                old(snapshots).snapshots(),
                crate::snapshot::newer_prefix_len(old(snapshots).frames(), frame.0),
                item,
                old(snapshots).spec_depth(),
            );
        }
    }

    /// Rolls the snapshots back to `frame` and decides how the resource is restored, from
    /// whether it is present now and whether the snapshot holds it.
    pub fn load(
        snapshots: &mut GgrsResourceSnapshots<S::Target, S::Stored>,
        frame: &RollbackFrameCount,
        present: bool,
    ) -> (r: RestoreAction)
        requires
            old(snapshots).well_formed(),
            old(snapshots).frames().contains(frame.0),
        ensures
            final(snapshots).well_formed(),
            final(snapshots).frames() == old(snapshots).frames().skip(
                first_position(old(snapshots).frames(), frame.0) as int,
            ),
            final(snapshots).snapshots() == old(snapshots).snapshots().skip(
                first_position(old(snapshots).frames(), frame.0) as int,
            ),
            r == restore_action_spec(present, final(snapshots).snapshots()[0] is Some),
            present_after(r, present) == final(snapshots).snapshots()[0] is Some,
            writes_stored(r) == final(snapshots).snapshots()[0] is Some,
            r is Insert ==> !present,
    {
        snapshots.rollback(frame.0);
        let stored = match snapshots.get() {
            Some(_) => true,
            None => false,
        };
        proof {
            law_restore_matches_snapshot(present, stored);
        }
        plan_restore(present, stored)
    }
}

} // verus!
