use bevy::prelude::Entity;
use bevy_ggrs::snapshot::checksum::{
    combine_checksum_parts, component_checksum, component_checksum_ordered, entity_checksum,
    hash_one_word, hash_two_words, resource_checksum, ChecksumPart,
};
use bevy_ggrs::snapshot::rollback::{RollbackId, RollbackOrdered};
use seahash::SeaHasher;
use std::hash::{Hash, Hasher};

fn sea(words: &[u64]) -> u64 {
    let mut hasher = SeaHasher::new();
    for w in words {
        w.hash(&mut hasher);
    }
    hasher.finish()
}

fn id(n: u32) -> RollbackId {
    RollbackId::new(Entity::from_raw_u32(n).unwrap().to_bits())
}

#[test]
fn hashing_words_matches_a_streaming_seahasher() {
    assert_eq!(hash_one_word(0), sea(&[0]));
    assert_eq!(hash_one_word(0xdead_beef), sea(&[0xdead_beef]));
    assert_eq!(hash_two_words(3, 7), sea(&[3, 7]));
    assert_eq!(hash_two_words(u64::MAX, 1), sea(&[u64::MAX, 1]));
}

#[test]
fn hashing_is_not_the_identity() {
    assert_ne!(hash_one_word(5), 5);
    assert_ne!(hash_two_words(3, 7), hash_two_words(7, 3));
}

#[test]
fn combine_parts_is_xor_of_parts() {
    let parts = vec![ChecksumPart(0b1100), ChecksumPart(0b1010), ChecksumPart(1 << 100)];
    assert_eq!(combine_checksum_parts(&parts).0, 0b0110 | (1 << 100));
    assert_eq!(combine_checksum_parts(&Vec::new()).0, 0);
}

#[test]
fn combine_parts_ignores_order() {
    let a = vec![ChecksumPart(11), ChecksumPart(22), ChecksumPart(33)];
    let b = vec![ChecksumPart(33), ChecksumPart(11), ChecksumPart(22)];
    assert_eq!(combine_checksum_parts(&a).0, combine_checksum_parts(&b).0);
}

#[test]
fn component_checksum_matches_definition() {
    let entries = vec![(0u64, 100u64), (1, 200)];
    let combined = sea(&[0, 100]) ^ sea(&[1, 200]);
    assert_eq!(component_checksum(&entries).0, sea(&[combined]) as u128);
    // no entity has the component: the digest of zero
    assert_eq!(component_checksum(&Vec::new()).0, sea(&[0]) as u128);
}

#[test]
fn component_checksum_ignores_visit_order() {
    let a = vec![(0u64, 5u64), (1, 6), (2, 7)];
    let b = vec![(2u64, 7u64), (0, 5), (1, 6)];
    assert_eq!(component_checksum(&a).0, component_checksum(&b).0);
}

#[test]
fn component_checksum_uses_registration_order() {
    let mut ro = RollbackOrdered::new();
    ro.push(id(40));
    ro.push(id(10));
    let components = vec![(id(10), 9u64), (id(40), 8u64)];
    let expected = component_checksum(&vec![(1, 9), (0, 8)]);
    assert_eq!(component_checksum_ordered(&ro, &components).0, expected.0);
}

#[test]
fn entity_checksum_hashes_active_then_total() {
    let mut ro = RollbackOrdered::new();
    ro.push(id(1));
    ro.push(id(2));
    ro.push(id(3));
    assert_eq!(entity_checksum(2, &ro).0, sea(&[2, 3]) as u128);
    assert_ne!(entity_checksum(2, &ro).0, entity_checksum(3, &ro).0);
}

#[test]
fn resource_checksum_is_the_hash() {
    assert_eq!(resource_checksum(12345).0, 12345);
}
