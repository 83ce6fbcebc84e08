use bevy::prelude::Entity;
use bevy_ggrs::snapshot::rollback::{on_rollback_added, RollbackId, RollbackOrdered};

fn id(n: u32) -> RollbackId {
    RollbackId::new(
        Entity::from_raw_u32(n)
            .expect("valid test entity index")
            .to_bits(),
    )
}

fn ordered_with(ids: &[u32]) -> RollbackOrdered {
    let mut ro = RollbackOrdered::default();
    for &n in ids {
        ro.push(id(n));
    }
    ro
}

#[test]
fn default_is_empty() {
    let ro = RollbackOrdered::default();
    assert!(ro.is_empty());
    assert_eq!(ro.len(), 0);
}

#[test]
fn push_increases_len() {
    let ro = ordered_with(&[0, 1, 2]);
    assert!(!ro.is_empty());
    assert_eq!(ro.len(), 3);
}

#[test]
fn order_returns_insertion_index() {
    let ro = ordered_with(&[10, 20, 30]);
    assert_eq!(ro.order(id(10)), 0);
    assert_eq!(ro.order(id(20)), 1);
    assert_eq!(ro.order(id(30)), 2);
}

#[test]
fn iter_sorted_yields_insertion_order() {
    let ro = ordered_with(&[5, 3, 7, 1]);
    let got: Vec<RollbackId> = ro.iter_sorted();
    assert_eq!(got, vec![id(5), id(3), id(7), id(1)]);
}

#[test]
fn order_is_stable_after_more_pushes() {
    let mut ro = ordered_with(&[0, 1]);
    let order_0_before = ro.order(id(0));
    let order_1_before = ro.order(id(1));
    ro.push(id(2));
    ro.push(id(3));
    assert_eq!(ro.order(id(0)), order_0_before);
    assert_eq!(ro.order(id(1)), order_1_before);
}

#[test]
#[should_panic(expected = "RollbackId was not registered in RollbackOrdered!")]
fn order_unregistered_panics() {
    let ro = ordered_with(&[0]);
    ro.try_order(id(99))
        .expect("RollbackId was not registered in RollbackOrdered!");
}

#[test]
fn clone_is_independent() {
    let ro = ordered_with(&[1, 2, 3]);
    let mut clone = ro.clone();
    clone.push(id(4));
    assert_eq!(ro.len(), 3);
    assert_eq!(clone.len(), 4);
    assert_eq!(ro.order(id(1)), clone.order(id(1)));
}

#[test]
fn try_order_of_registered_and_unregistered() {
    let ro = ordered_with(&[4, 8]);
    assert_eq!(ro.try_order(id(8)), Some(1));
    assert_eq!(ro.try_order(id(9)), None);
}

#[test]
fn rollback_id_keeps_entity_bits() {
    let bits = Entity::from_raw_u32(42).unwrap().to_bits();
    assert_eq!(RollbackId::new(bits).entity(), bits);
}

#[test]
fn on_rollback_added_registers_new_entities_only() {
    let mut ro = RollbackOrdered::new();
    let bits = id(3).entity();
    let created = on_rollback_added(None, bits, &mut ro);
    assert_eq!(created, Some(RollbackId(bits)));
    assert_eq!(ro.len(), 1);
    assert_eq!(ro.order(RollbackId(bits)), 0);

    let again = on_rollback_added(Some(RollbackId(bits)), bits, &mut ro);
    assert_eq!(again, None);
    assert_eq!(ro.len(), 1);
    assert_eq!(ro.iter_sorted(), vec![RollbackId(bits)]);
}
