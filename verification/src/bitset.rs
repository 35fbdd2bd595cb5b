//! What this crate assumes of `fixedbitset::FixedBitSet`.
//!
//! The bit set is the storage of a universe.  Nothing in this file is proved:
//! each item states, over [`bit_values`], what the bit set's source shows of
//! one of its methods.
use fixedbitset::FixedBitSet;
use vstd::prelude::*;

verus! {

/// `fixedbitset::FixedBitSet`, taken as an opaque value.
#[verifier::external_type_specification]
#[verifier::external_body]
pub struct ExFixedBitSet(FixedBitSet);

/// The bits that a bit set holds, from bit 0 upwards; its length is the
/// bit set's length in bits.
pub uninterp spec fn bit_values(s: FixedBitSet) -> Seq<bool>;

/// Whether bit `k` of `block` is one, bit 0 being the least significant.
pub open spec fn block_bit(block: u32, k: u32) -> bool {
    (block >> k) & 1u32 == 1u32
}

/// `blocks` is the packed form of `bits`: block `i / 32` holds bit `i` at
/// position `i % 32`, and there are just enough blocks to hold every bit.
pub open spec fn packs(blocks: Seq<u32>, bits: Seq<bool>) -> bool {
    &&& blocks.len() == (bits.len() + 31) / 32
    &&& forall|i: int|
        0 <= i < bits.len() ==> #[trigger] bits[i] == block_bit(blocks[i / 32], (i % 32) as u32)
}

/// `FixedBitSet::with_capacity`: a bit set of `bits` bits, every one of them
/// zero.
pub assume_specification[ FixedBitSet::with_capacity ](bits: usize) -> (result: FixedBitSet)
    ensures
        bit_values(result) == Seq::new(bits as nat, |i: int| false),
;

/// `FixedBitSet::contains`: the value of bit `bit`, for a position inside
/// the bit set.  Of a position outside it nothing is claimed here.
pub assume_specification[ FixedBitSet::contains ](s: &FixedBitSet, bit: usize) -> (result: bool)
    ensures
        bit < bit_values(*s).len() ==> result == bit_values(*s)[bit as int],
;

/// `FixedBitSet::set`: writes `enabled` at position `bit` and leaves every
/// other bit and the length as they were.  The method panics on a position
/// outside the bit set, which `requires` rules out.
pub assume_specification[ FixedBitSet::set ](s: &mut FixedBitSet, bit: usize, enabled: bool)
    requires
        bit < bit_values(*old(s)).len(),
    ensures
        bit_values(*final(s)) == bit_values(*old(s)).update(bit as int, enabled),
;

/// `FixedBitSet::clone`: a bit set with the same bits.
pub assume_specification[ <FixedBitSet as Clone>::clone ](s: &FixedBitSet) -> (result: FixedBitSet)
    ensures
        bit_values(result) == bit_values(*s),
;

/// `FixedBitSet::as_slice`: the blocks of 32 bits in which the bits are
/// stored, lowest positions first.
pub assume_specification<'a>[ FixedBitSet::as_slice ](s: &'a FixedBitSet) -> (result: &'a [u32])
    ensures
        packs(result@, bit_values(*s)),
;

} // verus!
