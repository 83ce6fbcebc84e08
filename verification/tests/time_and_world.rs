use bevy_ggrs::snapshot::rollback::RollbackId;
use bevy_ggrs::time::{frame_runtime_nanos, RollbackFrameRate};
use bevy_ggrs::world_snapshot::{plan_entity_write, rollback_id_map, snapshot_checksum, snapshot_slot};

#[test]
fn default_frame_rate_is_sixty() {
    assert_eq!(RollbackFrameRate::default().frames_per_second(), 60);
    assert_eq!(RollbackFrameRate(30).frames_per_second(), 30);
}

#[test]
fn frame_runtime_in_nanoseconds() {
    assert_eq!(frame_runtime_nanos(0, 60), 0);
    assert_eq!(frame_runtime_nanos(60, 60), 1_000_000_000);
    assert_eq!(frame_runtime_nanos(1, 60), 16_666_666);
    assert_eq!(frame_runtime_nanos(3, 60), 50_000_000);
    assert_eq!(frame_runtime_nanos(i32::MAX, 1), i32::MAX as u64 * 1_000_000_000);
}

#[test]
fn frame_runtime_is_monotonic() {
    let mut last = 0;
    for f in 0..200 {
        let t = frame_runtime_nanos(f, 7);
        assert!(t >= last);
        last = t;
    }
}

#[test]
fn snapshot_checksum_wraps_and_ignores_order() {
    assert_eq!(snapshot_checksum(&vec![1, 2, 3]), 6);
    assert_eq!(snapshot_checksum(&vec![u64::MAX, 2]), 1);
    assert_eq!(snapshot_checksum(&vec![]), 0);
    assert_eq!(
        snapshot_checksum(&vec![u64::MAX, 5, 9]),
        snapshot_checksum(&vec![9, u64::MAX, 5])
    );
}

#[test]
fn rollback_id_map_rejects_duplicates() {
    let ok = rollback_id_map(&vec![(10, RollbackId(1)), (11, RollbackId(2))]).unwrap();
    assert_eq!(ok.get(&1), Some(&10));
    assert_eq!(ok.get(&2), Some(&11));
    assert_eq!(ok.len(), 2);
    assert!(rollback_id_map(&vec![(10, RollbackId(1)), (11, RollbackId(1))]).is_none());
}

#[test]
fn entity_write_plan_matches_and_despawns() {
    let recorded = vec![(100u64, RollbackId(1)), (101, RollbackId(2))];
    let world = vec![(7u64, RollbackId(3)), (8, RollbackId(1)), (9, RollbackId(4))];
    let plan = plan_entity_write(&recorded, &world);
    assert_eq!(plan.targets, vec![Some(8), None]);
    assert_eq!(plan.despawn, vec![7, 9]);
}

#[test]
fn snapshot_slots_form_a_ring() {
    assert_eq!(snapshot_slot(0, 8), 0);
    assert_eq!(snapshot_slot(7, 8), 7);
    assert_eq!(snapshot_slot(8, 8), 0);
    assert_eq!(snapshot_slot(21, 8), snapshot_slot(5, 8));
}
