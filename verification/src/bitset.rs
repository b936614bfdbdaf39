use vstd::prelude::*;

verus! {

#[verifier::external_type_specification]
#[verifier::external_body]
pub struct ExFixedBitSet(fixedbitset::FixedBitSet);

/// The positions of the bits that are set.
pub uninterp spec fn bitset_ones(b: &fixedbitset::FixedBitSet) -> Set<int>;

/// The number of bits that the set was made with.
pub uninterp spec fn bitset_len(b: &fixedbitset::FixedBitSet) -> nat;

/// `fixedbitset::FixedBitSet::with_capacity`: `bits` bits, all clear.
#[verifier::external_body]
pub(crate) fn bitset_with_capacity(bits: usize) -> (b: fixedbitset::FixedBitSet)
    ensures
        bitset_ones(&b) == Set::<int>::empty(),
        bitset_len(&b) == bits,
{
    fixedbitset::FixedBitSet::with_capacity(bits)
}

/// `fixedbitset::FixedBitSet::insert`: sets one bit inside the set's length
/// and leaves the others as they are.
#[verifier::external_body]
pub(crate) fn bitset_insert(b: &mut fixedbitset::FixedBitSet, bit: usize)
    requires
        bit < bitset_len(old(b)),
    ensures
        bitset_ones(final(b)) == bitset_ones(old(b)).insert(bit as int),
        bitset_len(final(b)) == bitset_len(old(b)),
{
    b.insert(bit)
}

/// `fixedbitset::FixedBitSet::contains`: whether a bit is set.
#[verifier::external_body]
pub(crate) fn bitset_contains(b: &fixedbitset::FixedBitSet, bit: usize) -> (r: bool)
    ensures
        r == bitset_ones(b).contains(bit as int),
{
    b.contains(bit)
}

} // verus!
