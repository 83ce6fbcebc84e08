use bevy::prelude::Entity;
use bevy_ggrs::snapshot::rollback_entity_map::RollbackEntityMap;

fn entity(index: u32) -> u64 {
    Entity::from_raw_u32(index)
        .expect("valid test entity index")
        .to_bits()
}

fn map_from(pairs: &[(u32, u32)]) -> RollbackEntityMap {
    let inner: Vec<(u64, u64)> = pairs
        .iter()
        .map(|&(old, new)| (entity(old), entity(new)))
        .collect();
    RollbackEntityMap::from_pairs(&inner)
}

#[test]
fn get_absent_key_returns_none() {
    let m = map_from(&[(1, 2)]);
    assert_eq!(m.get(entity(99)), None);
}

#[test]
fn entity_mapper_falls_back_to_source() {
    let m = map_from(&[(5, 6)]);
    assert_eq!(m.get_mapped(entity(99)), entity(99));
}

#[test]
fn get_present_key_returns_target() {
    let m = map_from(&[(1, 2), (3, 4)]);
    assert_eq!(m.get(entity(3)), Some(entity(4)));
    assert_eq!(m.get_mapped(entity(1)), entity(2));
    assert_eq!(m.len(), 2);
    assert!(!m.is_empty());
}

#[test]
fn later_pair_for_same_key_wins() {
    let m = map_from(&[(1, 2), (1, 7)]);
    assert_eq!(m.len(), 1);
    assert_eq!(m.get(entity(1)), Some(entity(7)));
}

#[test]
fn iter_lists_each_mapping_once() {
    let m = map_from(&[(1, 2), (3, 4), (5, 6)]);
    let mut pairs = m.iter();
    pairs.sort();
    let mut expected = vec![(entity(1), entity(2)), (entity(3), entity(4)), (entity(5), entity(6))];
    expected.sort();
    assert_eq!(pairs, expected);
}

#[test]
fn empty_map_is_empty() {
    let m = RollbackEntityMap::default();
    assert!(m.is_empty());
    assert_eq!(m.len(), 0);
    assert!(m.iter().is_empty());
    assert!(RollbackEntityMap::new().is_empty());
}
