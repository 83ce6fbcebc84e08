//! Per-entity snapshot storage, and the decisions that restore a stored snapshot into the
//! world.

use crate::snapshot::rollback::RollbackId;
use crate::snapshot::strategy::Strategy;
use crate::snapshot::{first_position, lemma_newer_prefix_len, lemma_pushed_head, newer_prefix_len, pushed, GgrsSnapshots, RollbackFrameCount};
use std::collections::HashMap;
use std::marker::PhantomData;
use vstd::prelude::*;
use vstd::std_specs::hash::spec_hash_map_iter;
use vstd::std_specs::iter::IteratorSpec;

verus! {

broadcast use vstd::std_specs::hash::group_hash_axioms;

/// The map obtained by inserting `pairs` in order: a later pair for the same identifier wins.
pub open spec fn component_pairs_to_map<T>(pairs: Seq<(RollbackId, T)>) -> Map<u64, T>
    decreases pairs.len(),
{
    if pairs.len() == 0 {
        Map::empty()
    } else {
        component_pairs_to_map(pairs.drop_last()).insert(pairs.last().0.0, pairs.last().1)
    }
}

/// A storage type suitable for per-entity snapshots, such as component types: one stored value
/// per [`RollbackId`].
pub struct GgrsComponentSnapshot<For, As> {
    snapshot: HashMap<u64, As>,
    _phantom: PhantomData<For>,
}

impl<For, As> GgrsComponentSnapshot<For, As> {
    /// The stored values, by the key of their [`RollbackId`].
    pub closed spec fn view(&self) -> Map<u64, As> {
        self.snapshot@
    }

    /// An empty snapshot.
    pub fn empty() -> (r: Self)
        ensures
            r.view() == Map::<u64, As>::empty(),
    {
        GgrsComponentSnapshot { snapshot: HashMap::new(), _phantom: PhantomData }
    }

    /// Create a new snapshot from a list of [`RollbackId`]s and stored values; a later value
    /// for the same identifier replaces an earlier one.
    pub fn new(components: Vec<(RollbackId, As)>) -> (r: Self)
        ensures
            r.view() == component_pairs_to_map(components@),
    {
        let mut snapshot: HashMap<u64, As> = HashMap::new();
        let ghost all = components@;
        for entry in it: components.into_iter()
            invariant
                it.seq() == all,
                snapshot@ == component_pairs_to_map(all.take(it.index() as int)),
        {
            let (rollback, value) = entry;
            let ghost i = it.index();
            snapshot.insert(rollback.0, value);
            assert(all.take(i + 1).drop_last() =~= all.take(i as int));
        }
        assert(all.take(all.len() as int) =~= all);
        GgrsComponentSnapshot { snapshot, _phantom: PhantomData }
    }

    /// Insert a single snapshot for the provided [`RollbackId`], replacing any stored one.
    pub fn insert(&mut self, entity: RollbackId, snapshot: As) -> (r: &mut Self)
        ensures
            r.view() == old(self).view().insert(entity.0, snapshot),
            *final(self) == *final(r),
    {
        self.snapshot.insert(entity.0, snapshot);
        self
    }

    /// Get the snapshot stored for the provided [`RollbackId`].
    pub fn get(&self, entity: &RollbackId) -> (r: Option<&As>)
        ensures
            match r {
                Some(v) => self.view().contains_key(entity.0) && self.view()[entity.0] == *v,
                None => !self.view().contains_key(entity.0),
            },
    {
        self.snapshot.get(&entity.0)
    }

    /// Every stored snapshot with its [`RollbackId`], each exactly once, in the map's own order.
    pub fn iter(&self) -> (r: Vec<(RollbackId, &As)>)
        ensures
            r@.len() == self.view().len(),
            forall|i: int|
                0 <= i < r@.len() ==> self.view().contains_key(#[trigger] r@[i].0.0)
                    && self.view()[r@[i].0.0] == *r@[i].1,
            forall|i: int, j: int|
                0 <= i < r@.len() && 0 <= j < r@.len() && i != j ==> #[trigger] r@[i].0
                    != #[trigger] r@[j].0,
            forall|k: u64| #[trigger]
                self.view().contains_key(k) ==> exists|i: int| 0 <= i < r@.len() && r@[i].0.0 == k,
    {
        let mut out: Vec<(RollbackId, &As)> = Vec::new();
        let entries = self.snapshot.iter();
        let ghost pairs = entries.remaining();
        assert(pairs == spec_hash_map_iter(&self.snapshot).remaining());
        assert(pairs.no_duplicates());
        for entry in it: entries
            invariant
                it.seq() == pairs,
                pairs == spec_hash_map_iter(&self.snapshot).remaining(),
                pairs.no_duplicates(),
                out@.len() == it.index(),
                forall|i: int|
                    0 <= i < out@.len() ==> out@[i].0.0 == *pairs[i].0 && out@[i].1 == pairs[i].1,
                forall|i: int, j: int|
                    0 <= i < out@.len() && 0 <= j < out@.len() && i != j ==> #[trigger] out@[i].0
                        != #[trigger] out@[j].0,
        {
            let (key, value) = entry;
            proof {
                assert forall|i: int| 0 <= i < out@.len() implies out@[i].0 != RollbackId(*key) by {
                    if out@[i].0 == RollbackId(*key) {
                        assert(self.snapshot@.contains_key(*pairs[i].0));
                        assert(self.snapshot@.contains_key(*pairs[it.index()].0));
                        assert(pairs[i] == pairs[it.index()]);
                    }
                }
            }
            out.push((RollbackId(*key), value));
        }
        assert forall|i: int| 0 <= i < out@.len() implies self.view().contains_key(
            #[trigger] out@[i].0.0,
        ) && self.view()[out@[i].0.0] == *out@[i].1 by {
            assert(self.snapshot@.contains_key(*pairs[i].0));
        }
        out
    }
}

impl<For, As> Default for GgrsComponentSnapshot<For, As> {
    /// An empty snapshot.
    fn default() -> (r: Self)
        ensures
            r.view() == Map::<u64, As>::empty(),
    {
        Self::empty()
    }
}

/// Snapshots of a component, by frame.
pub type GgrsComponentSnapshots<For, As> = GgrsSnapshots<For, GgrsComponentSnapshot<For, As>>;

/// Records the stored values of a component for `frame`: one per [`RollbackId`] of an entity
/// that has the component.
pub fn push_component_snapshot<For, As>(
    snapshots: &mut GgrsComponentSnapshots<For, As>,
    frame: &RollbackFrameCount,
    components: Vec<(RollbackId, As)>,
)
    requires
        old(snapshots).well_formed(),
    ensures
        final(snapshots).well_formed(),
        final(snapshots).spec_depth() == old(snapshots).spec_depth(),
        final(snapshots).frames() == pushed(
            old(snapshots).frames(),
            newer_prefix_len(old(snapshots).frames(), frame.0),
            frame.0,
            old(snapshots).spec_depth(),
        ),
        final(snapshots).snapshots() == pushed(
            old(snapshots).snapshots(),
            newer_prefix_len(old(snapshots).frames(), frame.0),
            final(snapshots).snapshots()[0],
            old(snapshots).spec_depth(),
        ),
        old(snapshots).spec_depth() > 0 ==> final(snapshots).snapshots()[0].view()
            == component_pairs_to_map(components@),
        old(snapshots).spec_depth() == 0 ==> final(snapshots).snapshots().len() == 0,
{
    let snapshot = GgrsComponentSnapshot::new(components);
    let ghost item = snapshot;
    snapshots.push(frame.0, snapshot);
    proof {
        lemma_newer_prefix_len(old(snapshots).frames(), frame.0);
        lemma_pushed_head(
            old(snapshots).snapshots(),
            newer_prefix_len(old(snapshots).frames(), frame.0),
            item,
            old(snapshots).spec_depth(),
        );
    }
}

/// What restoring a snapshot does to one entity's component, or to a resource.
#[derive(Debug, Clone, Copy, PartialEq, Eq, Structural)]
pub enum RestoreAction {
    /// Present and stored: the present value is updated from the stored one.
    Update,
    /// Present but not stored: the value is removed.
    Remove,
    /// Stored but not present: the value is inserted, loaded from the stored one.
    Insert,
    /// Neither present nor stored: nothing is done.
    Keep,
}

/// The restore action for a mutable value.
pub open spec fn restore_action_spec(present: bool, stored: bool) -> RestoreAction {
    if present && stored {
        RestoreAction::Update
    } else if present {
        RestoreAction::Remove
    } else if stored {
        RestoreAction::Insert
    } else {
        RestoreAction::Keep
    }
}

/// The restore action for an immutable component, which can only be replaced: a stored value
/// is always inserted anew.
pub open spec fn immutable_restore_action_spec(present: bool, stored: bool) -> RestoreAction {
    if stored {
        RestoreAction::Insert
    } else if present {
        RestoreAction::Remove
    } else {
        RestoreAction::Keep
    }
}

/// Whether the value is there once `action` is carried out on a value whose presence was
/// `present`.
pub open spec fn present_after(action: RestoreAction, present: bool) -> bool {
    match action {
        RestoreAction::Update => true,
        RestoreAction::Insert => true,
        RestoreAction::Remove => false,
        RestoreAction::Keep => present,
    }
}

/// Whether `action` writes the stored value into the world.
pub open spec fn writes_stored(action: RestoreAction) -> bool {
    action is Update || action is Insert
}

/// Restoring makes the world match the snapshot: after the action the value is there exactly
/// when the snapshot stores one, the stored value is written exactly when there is one, and an
/// immutable value is never updated in place, while a present mutable one is updated rather than
/// replaced. This holds of both restore rules, whatever the
/// value's presence now.
pub proof fn law_restore_matches_snapshot(present: bool, stored: bool)
    ensures
        present_after(restore_action_spec(present, stored), present) == stored,
        writes_stored(restore_action_spec(present, stored)) == stored,
        present_after(immutable_restore_action_spec(present, stored), present) == stored,
        writes_stored(immutable_restore_action_spec(present, stored)) == stored,
        !(immutable_restore_action_spec(present, stored) is Update),
        restore_action_spec(present, stored) is Insert ==> !present,
{
}

/// Decides how a mutable value is restored, from whether it is present and whether it is
/// stored in the snapshot.
pub fn plan_restore(present: bool, stored: bool) -> (r: RestoreAction)
    ensures
        r == restore_action_spec(present, stored),
{
    match (present, stored) {
        (true, true) => RestoreAction::Update,
        (true, false) => RestoreAction::Remove,
        (false, true) => RestoreAction::Insert,
        (false, false) => RestoreAction::Keep,
    }
}

/// Decides how an immutable component is restored.
pub fn plan_immutable_restore(present: bool, stored: bool) -> (r: RestoreAction)
    ensures
        r == immutable_restore_action_spec(present, stored),
{
    match (present, stored) {
        (true, false) => RestoreAction::Remove,
        (_, true) => RestoreAction::Insert,
        (false, false) => RestoreAction::Keep,
    }
}

/// The restore actions for the listed `(entity, identifier, component present)` triples
/// against `snapshot`, under the given rule.
pub open spec fn planned_actions<As>(
    entities: Seq<(u64, RollbackId, bool)>,
    snapshot: Map<u64, As>,
    immutable: bool,
) -> Seq<(u64, RestoreAction)> {
    entities.map_values(
        |e: (u64, RollbackId, bool)|
            (
                e.0,
                if immutable {
                    immutable_restore_action_spec(e.2, snapshot.contains_key(e.1.0))
                } else {
                    restore_action_spec(e.2, snapshot.contains_key(e.1.0))
                },
            ),
    )
}

/// The restore actions `actions` for the listed `(entity, identifier, component present)`
/// triples make the world match `snapshot`: one action per entity, in order; after it the
/// component is there exactly when the snapshot stores it, the stored value is written exactly
/// when there is one; under the immutable rule nothing is updated in place, and under the
/// mutable rule a present component is never replaced by an insert.
pub open spec fn restores_snapshot<As>(
    actions: Seq<(u64, RestoreAction)>,
    entities: Seq<(u64, RollbackId, bool)>,
    snapshot: Map<u64, As>,
    immutable: bool,
) -> bool {
    &&& actions.len() == entities.len()
    &&& forall|i: int| 0 <= i < actions.len() ==> {
        let stored = snapshot.contains_key(entities[i].1.0);
        &&& #[trigger] actions[i].0 == entities[i].0
        &&& present_after(actions[i].1, entities[i].2) == stored
        &&& writes_stored(actions[i].1) == stored
        &&& immutable ==> !(actions[i].1 is Update)
        &&& !immutable && actions[i].1 is Insert ==> !entities[i].2
    }
}

/// Rolls the component snapshots back to `frame` and plans the restore of each listed
/// `(entity, identifier, component present)`.
fn plan_component_load<S: Strategy>(
    snapshots: &mut GgrsComponentSnapshots<S::Target, S::Stored>,
    frame: &RollbackFrameCount,
    entities: &Vec<(u64, RollbackId, bool)>,
    immutable: bool,
) -> (r: Vec<(u64, RestoreAction)>)
    requires
        old(snapshots).well_formed(),
        old(snapshots).frames().contains(frame.0),
    ensures
        final(snapshots).well_formed(),
        final(snapshots).frames() == old(snapshots).frames().skip(
            first_position(old(snapshots).frames(), frame.0) as int,
        ),
        final(snapshots).snapshots() == old(snapshots).snapshots().skip(
            first_position(old(snapshots).frames(), frame.0) as int,
        ),
        r@ == planned_actions(entities@, final(snapshots).snapshots()[0].view(), immutable),
        restores_snapshot(r@, entities@, final(snapshots).snapshots()[0].view(), immutable),
{
    snapshots.rollback(frame.0);
    let snapshot = snapshots.get();
    let mut actions: Vec<(u64, RestoreAction)> = Vec::new();
    let n = entities.len();
    let mut i: usize = 0;
    while i < n
        invariant
            n == entities@.len(),
            i <= n,
            actions@ == planned_actions(entities@, snapshot.view(), immutable).take(i as int),
        decreases n - i,
    {
        let (entity, rollback, present) = entities[i];
        let stored = match snapshot.get(&rollback) {
            Some(_) => true,
            None => false,
        };
        let action = if immutable {
            plan_immutable_restore(present, stored)
        } else {
            plan_restore(present, stored)
        };
        actions.push((entity, action));
        assert(actions@ =~= planned_actions(entities@, snapshot.view(), immutable).take(i + 1));
        i = i + 1;
    }
    assert(actions@ =~= planned_actions(entities@, snapshot.view(), immutable));
    assert forall|i: int| 0 <= i < actions@.len() implies {
        let stored = snapshot.view().contains_key(entities@[i].1.0);
        &&& #[trigger] actions@[i].0 == entities@[i].0
        &&& present_after(actions@[i].1, entities@[i].2) == stored
        &&& writes_stored(actions@[i].1) == stored
        &&& immutable ==> !(actions@[i].1 is Update)
        &&& !immutable && actions@[i].1 is Insert ==> !entities@[i].2
    } by {
        law_restore_matches_snapshot(entities@[i].2, snapshot.view().contains_key(entities@[i].1.0));
    }
    actions
}

/// Manages snapshots for a mutable component using a provided [`Strategy`].
pub struct ComponentSnapshotPlugin<S: Strategy> {
    _phantom: PhantomData<S>,
}

impl<S: Strategy> ComponentSnapshotPlugin<S> {
    /// Records the stored version of the component for every entity that has it.
    pub fn save(
        snapshots: &mut GgrsComponentSnapshots<S::Target, S::Stored>,
        frame: &RollbackFrameCount,
        components: Vec<(RollbackId, S::Stored)>,
    )
        requires
            old(snapshots).well_formed(),
        ensures
            final(snapshots).well_formed(),
            final(snapshots).spec_depth() == old(snapshots).spec_depth(),
            final(snapshots).frames() == pushed(
                old(snapshots).frames(),
                newer_prefix_len(old(snapshots).frames(), frame.0),
                frame.0,
                old(snapshots).spec_depth(),
            ),
            final(snapshots).snapshots() == pushed(
                old(snapshots).snapshots(),
                newer_prefix_len(old(snapshots).frames(), frame.0),
                final(snapshots).snapshots()[0],
                old(snapshots).spec_depth(),
            ),
            old(snapshots).spec_depth() > 0 ==> final(snapshots).snapshots()[0].view()
                == component_pairs_to_map(components@),
    {
        push_component_snapshot(snapshots, frame, components);
    }

    /// Rolls the snapshots back to `frame` and plans how each listed `(entity, identifier,
    /// component present)` is restored: updated, removed, inserted or left alone.
    pub fn load(
        snapshots: &mut GgrsComponentSnapshots<S::Target, S::Stored>,
        frame: &RollbackFrameCount,
        entities: &Vec<(u64, RollbackId, bool)>,
    ) -> (r: Vec<(u64, RestoreAction)>)
        requires
            old(snapshots).well_formed(),
            old(snapshots).frames().contains(frame.0),
        ensures
            final(snapshots).well_formed(),
            final(snapshots).frames() == old(snapshots).frames().skip(
                first_position(old(snapshots).frames(), frame.0) as int,
            ),
            final(snapshots).snapshots() == old(snapshots).snapshots().skip(
                first_position(old(snapshots).frames(), frame.0) as int,
            ),
            r@ == planned_actions(entities@, final(snapshots).snapshots()[0].view(), false),
            restores_snapshot(r@, entities@, final(snapshots).snapshots()[0].view(), false),
    {
        plan_component_load::<S>(snapshots, frame, entities, false)
    }
}

/// Manages snapshots for an immutable component using a provided [`Strategy`]; such a
/// component is restored by inserting it anew.
pub struct ImmutableComponentSnapshotPlugin<S: Strategy> {
    _phantom: PhantomData<S>,
}

impl<S: Strategy> ImmutableComponentSnapshotPlugin<S> {
    /// Rolls the snapshots back to `frame` and plans how each listed `(entity, identifier,
    /// component present)` is restored: a stored value is inserted, a value with nothing
    /// stored is removed.
    pub fn load(
        snapshots: &mut GgrsComponentSnapshots<S::Target, S::Stored>,
        frame: &RollbackFrameCount,
        entities: &Vec<(u64, RollbackId, bool)>,
    ) -> (r: Vec<(u64, RestoreAction)>)
        requires
            old(snapshots).well_formed(),
            old(snapshots).frames().contains(frame.0),
        ensures
            final(snapshots).well_formed(),
            final(snapshots).frames() == old(snapshots).frames().skip(
                first_position(old(snapshots).frames(), frame.0) as int,
            ),
            final(snapshots).snapshots() == old(snapshots).snapshots().skip(
                first_position(old(snapshots).frames(), frame.0) as int,
            ),
            r@ == planned_actions(entities@, final(snapshots).snapshots()[0].view(), true),
            restores_snapshot(r@, entities@, final(snapshots).snapshots()[0].view(), true),
    {
        plan_component_load::<S>(snapshots, frame, entities, true)
    }
}

} // verus!
