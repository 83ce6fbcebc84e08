use bevy_ggrs::snapshot::childof_snapshot::{ChildOfAction, ChildOfSnapshotPlugin};
use bevy_ggrs::snapshot::component_snapshot::{
    plan_immutable_restore, plan_restore, push_component_snapshot, ComponentSnapshotPlugin,
    GgrsComponentSnapshot, GgrsComponentSnapshots, ImmutableComponentSnapshotPlugin,
    RestoreAction,
};
use bevy_ggrs::snapshot::despawn::{DespawnAction, RollbackDespawnPlugin, RollbackDespawned};
use bevy_ggrs::snapshot::entity::{EntityAction, EntitySnapshotPlugin, EntitySnapshots};
use bevy_ggrs::snapshot::resource_snapshot::{GgrsResourceSnapshots, ResourceSnapshotPlugin};
use bevy_ggrs::snapshot::rollback::RollbackId;
use bevy_ggrs::snapshot::rollback_entity_map::RollbackEntityMap;
use bevy_ggrs::snapshot::strategy::{CloneStrategy, CopyStrategy, Strategy};
use bevy_ggrs::{ConfirmedFrameCount, RollbackFrameCount};

#[test]
fn restore_plans_cover_all_cases() {
    assert_eq!(plan_restore(true, true), RestoreAction::Update);
    assert_eq!(plan_restore(true, false), RestoreAction::Remove);
    assert_eq!(plan_restore(false, true), RestoreAction::Insert);
    assert_eq!(plan_restore(false, false), RestoreAction::Keep);
    assert_eq!(plan_immutable_restore(true, true), RestoreAction::Insert);
    assert_eq!(plan_immutable_restore(true, false), RestoreAction::Remove);
    assert_eq!(plan_immutable_restore(false, true), RestoreAction::Insert);
    assert_eq!(plan_immutable_restore(false, false), RestoreAction::Keep);
}

#[test]
fn component_snapshot_later_value_wins() {
    let snap: GgrsComponentSnapshot<u32, u32> =
        GgrsComponentSnapshot::new(vec![(RollbackId(1), 10), (RollbackId(2), 20), (RollbackId(1), 11)]);
    assert_eq!(snap.get(&RollbackId(1)), Some(&11));
    assert_eq!(snap.get(&RollbackId(2)), Some(&20));
    assert_eq!(snap.get(&RollbackId(3)), None);
    let mut entries: Vec<(u64, u32)> = snap.iter().into_iter().map(|(r, v)| (r.0, *v)).collect();
    entries.sort();
    assert_eq!(entries, vec![(1, 11), (2, 20)]);
}

#[test]
fn component_snapshot_insert_replaces() {
    let mut snap: GgrsComponentSnapshot<u32, u32> = GgrsComponentSnapshot::empty();
    snap.insert(RollbackId(4), 1).insert(RollbackId(4), 2);
    assert_eq!(snap.get(&RollbackId(4)), Some(&2));
    assert_eq!(snap.iter().len(), 1);
}

fn component_snapshots() -> GgrsComponentSnapshots<u32, u32> {
    let mut snaps = GgrsComponentSnapshots::<u32, u32>::default();
    snaps.set_depth(8);
    snaps
}

#[test]
fn component_load_plans_each_entity() {
    let mut snaps = component_snapshots();
    ComponentSnapshotPlugin::<CopyStrategy<u32>>::save(
        &mut snaps,
        &RollbackFrameCount(0),
        vec![(RollbackId(1), 5), (RollbackId(2), 6)],
    );
    push_component_snapshot(&mut snaps, &RollbackFrameCount(1), vec![(RollbackId(3), 7)]);
    let entities = vec![(100u64, RollbackId(1), true), (101, RollbackId(3), true), (102, RollbackId(2), false), (103, RollbackId(9), false)];
    let plan = ComponentSnapshotPlugin::<CopyStrategy<u32>>::load(&mut snaps, &RollbackFrameCount(0), &entities);
    assert_eq!(
        plan,
        vec![
            (100, RestoreAction::Update),
            (101, RestoreAction::Remove),
            (102, RestoreAction::Insert),
            (103, RestoreAction::Keep),
        ]
    );
    // the rollback discarded frame 1
    assert!(snaps.peek(1).is_none());
    assert_eq!(snaps.get().get(&RollbackId(2)), Some(&6));
}

#[test]
fn immutable_component_load_reinserts() {
    let mut snaps = component_snapshots();
    push_component_snapshot(&mut snaps, &RollbackFrameCount(2), vec![(RollbackId(1), 5)]);
    let entities = vec![(7u64, RollbackId(1), true), (8, RollbackId(2), true)];
    let plan = ImmutableComponentSnapshotPlugin::<CloneStrategy<u32>>::load(
        &mut snaps,
        &RollbackFrameCount(2),
        &entities,
    );
    assert_eq!(plan, vec![(7, RestoreAction::Insert), (8, RestoreAction::Remove)]);
}

#[test]
fn resource_save_and_load() {
    let mut snaps = GgrsResourceSnapshots::<u32, u32>::default();
    snaps.set_depth(4);
    ResourceSnapshotPlugin::<CopyStrategy<u32>>::save(&mut snaps, &RollbackFrameCount(0), Some(&9));
    ResourceSnapshotPlugin::<CopyStrategy<u32>>::save(&mut snaps, &RollbackFrameCount(1), None);
    assert_eq!(snaps.peek(0), Some(&Some(9)));
    assert_eq!(snaps.peek(1), Some(&None));
    assert_eq!(
        ResourceSnapshotPlugin::<CopyStrategy<u32>>::load(&mut snaps, &RollbackFrameCount(1), true),
        RestoreAction::Remove
    );
    assert_eq!(
        ResourceSnapshotPlugin::<CopyStrategy<u32>>::load(&mut snaps, &RollbackFrameCount(0), false),
        RestoreAction::Insert
    );
}

#[test]
fn strategies_round_trip() {
    assert_eq!(CopyStrategy::<u8>::store(&3), 3);
    assert_eq!(CopyStrategy::<u8>::load(&4), 4);
    let s = CloneStrategy::<String>::store(&"abc".to_string());
    assert_eq!(CloneStrategy::<String>::load(&s), "abc");
    let mut target = String::from("old");
    CloneStrategy::<String>::update(&mut target, &"new".to_string());
    assert_eq!(target, "new");
    let mut copy_target = 1u8;
    CopyStrategy::<u8>::update(&mut copy_target, &2);
    assert_eq!(copy_target, 2);
}

#[test]
fn entity_reconcile_keeps_despawns_and_respawns() {
    let mut snaps = EntitySnapshots::default();
    snaps.set_depth(4);
    EntitySnapshotPlugin::save(&mut snaps, &RollbackFrameCount(0), vec![(RollbackId(1), 10), (RollbackId(2), 20)]);
    let live = vec![(RollbackId(1), 11), (RollbackId(3), 30)];
    let mut actions = EntitySnapshotPlugin::load(&mut snaps, &RollbackFrameCount(0), &live);
    actions.sort_by_key(|a| match a {
        EntityAction::Keep { rollback, .. } => rollback.0,
        EntityAction::Despawn { rollback, .. } => rollback.0,
        EntityAction::Respawn { rollback, .. } => rollback.0,
    });
    assert_eq!(
        actions,
        vec![
            EntityAction::Keep { rollback: RollbackId(1), current: 11, old: 10 },
            EntityAction::Respawn { rollback: RollbackId(2), old: 20 },
            EntityAction::Despawn { rollback: RollbackId(3), current: 30 },
        ]
    );
    let spawned = vec![None, Some(21), None];
    let pairs = EntitySnapshotPlugin::entity_map_pairs(&actions, &spawned);
    assert_eq!(pairs, vec![(10, 11), (20, 21)]);
    let map = RollbackEntityMap::from_pairs(&pairs);
    assert_eq!(map.get_mapped(10), 11);
    assert_eq!(map.get_mapped(20), 21);
    // the live entity is not a recorded one, so it maps to itself
    assert_eq!(map.get_mapped(11), 11);
}

#[test]
fn childof_load_maps_recorded_parents() {
    let mut snaps = component_snapshots_u64();
    push_component_snapshot(&mut snaps, &RollbackFrameCount(3), vec![(RollbackId(1), 50), (RollbackId(2), 60)]);
    let map = RollbackEntityMap::from_pairs(&vec![(50, 55)]);
    let entities = vec![(1u64, RollbackId(1), false), (2, RollbackId(2), true), (3, RollbackId(3), true), (4, RollbackId(4), false)];
    let actions = ChildOfSnapshotPlugin::load(&mut snaps, &RollbackFrameCount(3), &entities, &map);
    assert_eq!(
        actions,
        vec![
            (1, ChildOfAction::Insert(55)),
            (2, ChildOfAction::MissingParent(60)),
            (3, ChildOfAction::Remove),
            (4, ChildOfAction::Keep),
        ]
    );
}

fn component_snapshots_u64() -> GgrsComponentSnapshots<u64, u64> {
    let mut snaps = GgrsComponentSnapshots::<u64, u64>::default();
    snaps.set_depth(4);
    snaps
}

#[test]
fn despawn_is_deferred_until_confirmed() {
    assert_eq!(
        RollbackDespawnPlugin::despawn_rollback(Some((RollbackFrameCount(5), ConfirmedFrameCount(3)))),
        DespawnAction::MarkDespawned(RollbackDespawned(5))
    );
    assert_eq!(
        RollbackDespawnPlugin::despawn_rollback(Some((RollbackFrameCount(5), ConfirmedFrameCount(5)))),
        DespawnAction::Despawn
    );
    assert_eq!(RollbackDespawnPlugin::despawn_rollback(None), DespawnAction::Despawn);
}

#[test]
fn resurrect_and_confirm_partition_marked_entities() {
    let despawned = vec![(1u64, RollbackDespawned(3)), (2, RollbackDespawned(5)), (3, RollbackDespawned(4))];
    let back = RollbackDespawnPlugin::resurrect_entities(&despawned, &RollbackFrameCount(4));
    assert_eq!(back, vec![2]);
    let mut last = ConfirmedFrameCount(-1);
    let gone = RollbackDespawnPlugin::despawn_confirmed_entities(&despawned, &ConfirmedFrameCount(4), &mut last);
    assert_eq!(gone, vec![1, 3]);
    assert_eq!(last.0, 4);
    // the same confirmed frame again despawns nothing
    let again = RollbackDespawnPlugin::despawn_confirmed_entities(&despawned, &ConfirmedFrameCount(4), &mut last);
    assert!(again.is_empty());
    assert_eq!(back.len() + gone.len(), despawned.len());
}
