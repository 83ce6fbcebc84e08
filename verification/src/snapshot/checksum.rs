//! Frame checksums: the parts contributed by entities, components and resources, and their
//! combination into the checksum of a frame. Hashes are SeaHash digests, which are portable
//! across machines.

use crate::snapshot::rollback::{registered, last_position, RollbackId, RollbackOrdered};
use vstd::bytes::{spec_u64_to_le_bytes, u64_to_le_bytes};
use vstd::prelude::*;

verus! {

broadcast use {vstd::seq_lib::group_to_multiset_ensures, vstd::multiset::group_multiset_axioms};

/// The SeaHash digest (default seeds) of a byte sequence.
pub uninterp spec fn seahash_digest(bytes: Seq<u8>) -> u64;

/// `seahash::hash`: the SeaHash digest of `bytes` with the default seeds. A `SeaHasher::new()`
/// fed the same bytes, in any chunking, finishes with this same value, so hashing values with
/// the `Hash` trait into a fresh `SeaHasher` is the digest of their concatenated bytes.
#[verifier::external_body]
fn seahash_hash(bytes: &[u8]) -> (r: u64)
    ensures
        r == seahash_digest(bytes@),
{
    seahash::hash(bytes)
}

/// The bytes that hashing `a` and then `b` (as `u64`s) feeds to a hasher.
pub open spec fn two_words(a: u64, b: u64) -> Seq<u8> {
    spec_u64_to_le_bytes(a) + spec_u64_to_le_bytes(b)
}

/// The digest of one `u64`, hashed into a fresh checksum hasher.
pub fn hash_one_word(a: u64) -> (r: u64)
    ensures
        r == seahash_digest(spec_u64_to_le_bytes(a)),
{
    let bytes = u64_to_le_bytes(a);
    seahash_hash(bytes.as_slice())
}

/// The digest of two `u64`s, hashed in order into a fresh checksum hasher.
pub fn hash_two_words(a: u64, b: u64) -> (r: u64)
    ensures
        r == seahash_digest(two_words(a, b)),
{
    let mut bytes = u64_to_le_bytes(a);
    let mut rest = u64_to_le_bytes(b);
    bytes.append(&mut rest);
    assert(bytes@ =~= two_words(a, b));
    seahash_hash(bytes.as_slice())
}

/// Represents a checksum value contributed by one tracked type.
pub struct ChecksumPart(pub u128);

/// Represents the total checksum for a given frame.
pub struct Checksum(pub u128);

/// XOR of all values, folded from the left starting at zero.
pub open spec fn xor_fold_u128(s: Seq<u128>) -> u128
    decreases s.len(),
{
    if s.len() == 0 {
        0
    } else {
        xor_fold_u128(s.drop_last()) ^ s.last()
    }
}

/// XOR of all values, folded from the left starting at zero.
pub open spec fn xor_fold_u64(s: Seq<u64>) -> u64
    decreases s.len(),
{
    if s.len() == 0 {
        0
    } else {
        xor_fold_u64(s.drop_last()) ^ s.last()
    }
}

proof fn lemma_xor_u128_swap(a: u128, b: u128, c: u128)
    ensures
        (a ^ b) ^ c == (a ^ c) ^ b,
{
    assert((a ^ b) ^ c == (a ^ c) ^ b) by (bit_vector);
}

proof fn lemma_xor_u64_swap(a: u64, b: u64, c: u64)
    ensures
        (a ^ b) ^ c == (a ^ c) ^ b,
{
    assert((a ^ b) ^ c == (a ^ c) ^ b) by (bit_vector);
}

proof fn lemma_xor_fold_u128_remove(s: Seq<u128>, i: int)
    requires
        0 <= i < s.len(),
    ensures
        xor_fold_u128(s) == xor_fold_u128(s.remove(i)) ^ s[i],
    decreases s.len(),
{
    if i == s.len() - 1 {
        assert(s.remove(i) =~= s.drop_last());
    } else {
        lemma_xor_fold_u128_remove(s.drop_last(), i);
        assert(s.remove(i).drop_last() =~= s.drop_last().remove(i));
        assert(s.remove(i).last() == s.last());
        lemma_xor_u128_swap(xor_fold_u128(s.drop_last().remove(i)), s[i], s.last());
    }
}

proof fn lemma_xor_fold_u64_remove(s: Seq<u64>, i: int)
    requires
        0 <= i < s.len(),
    ensures
        xor_fold_u64(s) == xor_fold_u64(s.remove(i)) ^ s[i],
    decreases s.len(),
{
    if i == s.len() - 1 {
        assert(s.remove(i) =~= s.drop_last());
    } else {
        lemma_xor_fold_u64_remove(s.drop_last(), i);
        assert(s.remove(i).drop_last() =~= s.drop_last().remove(i));
        assert(s.remove(i).last() == s.last());
        lemma_xor_u64_swap(xor_fold_u64(s.drop_last().remove(i)), s[i], s.last());
    }
}

/// The combined checksum does not depend on the order of the parts: any two arrangements of
/// the same parts combine to the same value.
pub proof fn law_xor_fold_u128_order_independent(s: Seq<u128>, t: Seq<u128>)
    requires
        s.to_multiset() == t.to_multiset(),
    ensures
        xor_fold_u128(s) == xor_fold_u128(t),
    decreases t.len(),
{
    if t.len() == 0 {
        s.to_multiset_ensures();
        t.to_multiset_ensures();
        assert(s.len() == 0);
    } else {
        let a = t.last();
        assert(t.drop_last().push(a) =~= t);
        assert(t.to_multiset().count(a) > 0);
        assert(s.contains(a));
        let i = choose|i: int| 0 <= i < s.len() && s[i] == a;
        assert(s.remove(i).to_multiset() =~= t.drop_last().to_multiset());
        law_xor_fold_u128_order_independent(s.remove(i), t.drop_last());
        lemma_xor_fold_u128_remove(s, i);
    }
}

/// The per-entity contributions to a component checksum combine to the same value in any
/// order.
pub proof fn law_xor_fold_u64_order_independent(s: Seq<u64>, t: Seq<u64>)
    requires
        s.to_multiset() == t.to_multiset(),
    ensures
        xor_fold_u64(s) == xor_fold_u64(t),
    decreases t.len(),
{
    if t.len() == 0 {
        s.to_multiset_ensures();
        t.to_multiset_ensures();
        assert(s.len() == 0);
    } else {
        let a = t.last();
        assert(t.drop_last().push(a) =~= t);
        assert(t.to_multiset().count(a) > 0);
        assert(s.contains(a));
        let i = choose|i: int| 0 <= i < s.len() && s[i] == a;
        assert(s.remove(i).to_multiset() =~= t.drop_last().to_multiset());
        law_xor_fold_u64_order_independent(s.remove(i), t.drop_last());
        lemma_xor_fold_u64_remove(s, i);
    }
}

/// The values of a sequence of checksum parts.
pub open spec fn part_values(parts: Seq<ChecksumPart>) -> Seq<u128> {
    parts.map_values(|p: ChecksumPart| p.0)
}

/// Combines every [`ChecksumPart`] of a frame into its [`Checksum`] by XOR, which is closed on
/// `u128` and makes the result independent of the order of the parts.
pub fn combine_checksum_parts(parts: &Vec<ChecksumPart>) -> (r: Checksum)
    ensures
        r.0 == xor_fold_u128(part_values(parts@)),
{
    let n = parts.len();
    let mut acc: u128 = 0;
    let mut i: usize = 0;
    while i < n
        invariant
            n == parts@.len(),
            i <= n,
            acc == xor_fold_u128(part_values(parts@).take(i as int)),
        decreases n - i,
    {
        acc = acc ^ parts[i].0;
        assert(part_values(parts@).take(i + 1).drop_last() =~= part_values(parts@).take(i as int));
        i = i + 1;
    }
    assert(part_values(parts@).take(n as int) =~= part_values(parts@));
    Checksum(acc)
}

/// The contribution of one entity's component to a component checksum: the digest of the
/// entity's stable order index followed by the component's own hash.
pub open spec fn entity_component_hash(order: u64, component_hash: u64) -> u64 {
    seahash_digest(two_words(order, component_hash))
}

/// The per-entity contributions of `entries`.
pub open spec fn entry_hashes(entries: Seq<(u64, u64)>) -> Seq<u64> {
    entries.map_values(|e: (u64, u64)| entity_component_hash(e.0, e.1))
}

/// The checksum part of a component type, from each entity's `(order index, component hash)`:
/// the per-entity digests are combined by XOR, and the result is hashed once more so that equal
/// combinations of different types do not cancel out.
pub open spec fn component_checksum_spec(entries: Seq<(u64, u64)>) -> u128 {
    let combined = xor_fold_u64(entry_hashes(entries));
    seahash_digest(spec_u64_to_le_bytes(combined)) as u128
}

/// Computes the [`ChecksumPart`] of a component type from the `(order index, component hash)`
/// of every entity that has the component.
pub fn component_checksum(entries: &Vec<(u64, u64)>) -> (r: ChecksumPart)
    ensures
        r.0 == component_checksum_spec(entries@),
{
    let ghost hashes = entry_hashes(entries@);
    let n = entries.len();
    let mut result: u64 = 0;
    let mut i: usize = 0;
    while i < n
        invariant
            n == entries@.len(),
            i <= n,
            hashes == entry_hashes(entries@),
            result == xor_fold_u64(hashes.take(i as int)),
        decreases n - i,
    {
        let (order, component_hash) = entries[i];
        let h = hash_two_words(order, component_hash);
        result = result ^ h;
        assert(hashes.take(i + 1).drop_last() =~= hashes.take(i as int));
        i = i + 1;
    }
    assert(hashes.take(n as int) =~= hashes);
    ChecksumPart(hash_one_word(result) as u128)
}

/// The `(order index, component hash)` of each entity, with the order index taken from the
/// registry.
pub open spec fn ordered_entries(ids: Seq<RollbackId>, components: Seq<(RollbackId, u64)>) -> Seq<
    (u64, u64),
> {
    components.map_values(|c: (RollbackId, u64)| (last_position(ids, c.0.0) as u64, c.1))
}

/// Computes the [`ChecksumPart`] of a component type from the rollback identity and component
/// hash of every entity that has the component; each entity is keyed by its stable order in
/// `rollback_ordered`, which makes the checksum the same on every peer.
pub fn component_checksum_ordered(
    rollback_ordered: &RollbackOrdered,
    components: &Vec<(RollbackId, u64)>,
) -> (r: ChecksumPart)
    requires
        rollback_ordered.well_formed(),
        forall|i: int|
            0 <= i < components@.len() ==> registered(rollback_ordered.sorted()).contains(
                #[trigger] components@[i].0.0,
            ),
    ensures
        r.0 == component_checksum_spec(ordered_entries(rollback_ordered.sorted(), components@)),
{
    let mut entries: Vec<(u64, u64)> = Vec::new();
    let n = components.len();
    let mut i: usize = 0;
    while i < n
        invariant
            n == components@.len(),
            i <= n,
            rollback_ordered.well_formed(),
            forall|j: int|
                0 <= j < components@.len() ==> registered(rollback_ordered.sorted()).contains(
                    #[trigger] components@[j].0.0,
                ),
            entries@ == ordered_entries(rollback_ordered.sorted(), components@).take(i as int),
        decreases n - i,
    {
        let (rollback, component_hash) = components[i];
        let order = rollback_ordered.order(rollback);
        entries.push((order, component_hash));
        assert(entries@ =~= ordered_entries(rollback_ordered.sorted(), components@).take(
            i + 1,
        ));
        i = i + 1;
    }
    assert(entries@ =~= ordered_entries(rollback_ordered.sorted(), components@));
    component_checksum(&entries)
}

/// The checksum part of the rollback entity population: the digest of the number of active
/// rollback entities followed by the number ever registered.
pub open spec fn entity_checksum_spec(active: usize, total: usize) -> u128 {
    seahash_digest(two_words(active as u64, total as u64)) as u128
}

/// Computes the [`ChecksumPart`] that catches desyncs in how many rollback entities exist:
/// `active` is the number currently alive, and the registry gives the number ever spawned.
pub fn entity_checksum(active: usize, rollback_ordered: &RollbackOrdered) -> (r: ChecksumPart)
    requires
        rollback_ordered.well_formed(),
    ensures
        r.0 == entity_checksum_spec(active, registered(rollback_ordered.sorted()).len() as usize),
{
    let total = rollback_ordered.len();
    ChecksumPart(hash_two_words(active as u64, total as u64) as u128)
}

/// The [`ChecksumPart`] of a resource, from the resource's hash.
pub fn resource_checksum(resource_hash: u64) -> (r: ChecksumPart)
    ensures
        r.0 == resource_hash as u128,
{
    ChecksumPart(resource_hash as u128)
}

/// A component checksum does not depend on the order in which entities are visited: any two
/// arrangements of the same `(order index, component hash)` entries give the same part.
pub proof fn law_component_checksum_order_independent(s: Seq<(u64, u64)>, t: Seq<(u64, u64)>)
    requires
        s.to_multiset() == t.to_multiset(),
    ensures
        component_checksum_spec(s) == component_checksum_spec(t),
{
    lemma_entry_hashes_order_independent(s, t);
}

proof fn lemma_entry_hashes_order_independent(s: Seq<(u64, u64)>, t: Seq<(u64, u64)>)
    requires
        s.to_multiset() == t.to_multiset(),
    ensures
        xor_fold_u64(entry_hashes(s)) == xor_fold_u64(entry_hashes(t)),
    decreases t.len(),
{
    if t.len() == 0 {
        s.to_multiset_ensures();
        t.to_multiset_ensures();
        assert(entry_hashes(s) =~= entry_hashes(t));
    } else {
        let a = t.last();
        assert(t.drop_last().push(a) =~= t);
        assert(t.to_multiset().count(a) > 0);
        assert(s.contains(a));
        let i = choose|i: int| 0 <= i < s.len() && s[i] == a;
        assert(s.remove(i).to_multiset() =~= t.drop_last().to_multiset());
        lemma_entry_hashes_order_independent(s.remove(i), t.drop_last());
        lemma_xor_fold_u64_remove(entry_hashes(s), i);
        assert(entry_hashes(s).remove(i) =~= entry_hashes(s.remove(i)));
        assert(entry_hashes(t).drop_last() =~= entry_hashes(t.drop_last()));
    }
}

} // verus!
