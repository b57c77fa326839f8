//! Trusted wrappers around the hierarchical bit set that backs the entity
//! liveness tracking.  The set's contents are modeled as a `Set<u32>`.

use vstd::prelude::*;

verus! {

#[verifier::external_type_specification]
#[verifier::external_body]
pub struct ExBitSet(hibitset::BitSet);

/// The indices a bit set currently holds.
pub uninterp spec fn bits_of(b: hibitset::BitSet) -> Set<u32>;

/// Relies on hibitset::BitSet::with_capacity: returns an empty set,
/// preallocated for up to `max` indices.  Panics above the set's fixed
/// index limit, so that range is excluded.
#[verifier::external_body]
pub(crate) fn bitset_with_capacity(max: u32) -> (r: hibitset::BitSet)
    requires
        max <= 0x10_0000,
    ensures
        bits_of(r) == Set::<u32>::empty(),
{
    hibitset::BitSet::with_capacity(max)
}

/// Relies on hibitset::BitSet::add: inserts `id` and returns whether it was
/// already present.  Panics above the set's fixed index limit, so that
/// range is excluded.
#[verifier::external_body]
pub(crate) fn bitset_add(b: &mut hibitset::BitSet, id: u32) -> (r: bool)
    requires
        id < 0x10_0000,
    ensures
        bits_of(*final(b)) == bits_of(*old(b)).insert(id),
        r == bits_of(*old(b)).contains(id),
{
    b.add(id)
}

/// Relies on hibitset::BitSet::remove: removes `id` and returns whether it
/// was present.
#[verifier::external_body]
pub(crate) fn bitset_remove(b: &mut hibitset::BitSet, id: u32) -> (r: bool)
    requires
        id < 0x10_0000,
    ensures
        bits_of(*final(b)) == bits_of(*old(b)).remove(id),
        r == bits_of(*old(b)).contains(id),
{
    b.remove(id)
}

/// Relies on hibitset::BitSet::contains: membership test.
#[verifier::external_body]
pub(crate) fn bitset_contains(b: &hibitset::BitSet, id: u32) -> (r: bool)
    ensures
        r == bits_of(*b).contains(id),
{
    b.contains(id)
}

} // verus!
