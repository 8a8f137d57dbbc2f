//! The 64-bit free-slot set of the registry, kept in `rust_dense_bitset`.
use vstd::prelude::*;

use rust_dense_bitset::BitSet;
use rust_dense_bitset::DenseBitSet;

verus! {

#[verifier::external_type_specification]
#[verifier::external_body]
pub struct ExDenseBitSet(DenseBitSet);

/// Number of bits that a `DenseBitSet` holds.
pub const WIDTH: usize = 64;

/// The positions whose bit is set.
pub uninterp spec fn set_bits(s: DenseBitSet) -> Set<nat>;

/// Every position below the width of the set.
pub open spec fn all_positions() -> Set<nat> {
    Set::new(|i: nat| i < WIDTH)
}

/// Relies on `DenseBitSet::new`: a set with no bit set.
#[verifier::external_body]
pub(crate) fn bitset_new() -> (r: DenseBitSet)
    ensures
        set_bits(r) == Set::<nat>::empty(),
{
    DenseBitSet::new()
}

/// Relies on `DenseBitSet`'s `!`: every one of the 64 bits flipped.
#[verifier::external_body]
pub(crate) fn bitset_not(s: DenseBitSet) -> (r: DenseBitSet)
    ensures
        set_bits(r) == all_positions().difference(set_bits(s)),
{
    !s
}

/// Relies on `DenseBitSet::first_set`: the trailing zeros of the word, so
/// the lowest set position, or 64 where no bit is set.
#[verifier::external_body]
pub(crate) fn bitset_first_set(s: DenseBitSet) -> (r: u32)
    ensures
        r <= WIDTH,
        r < WIDTH ==> set_bits(s).contains(r as nat),
        forall|i: nat| i < r ==> !set_bits(s).contains(i),
{
    s.first_set()
}

/// Relies on `BitSet::set_bit` of `DenseBitSet`, which panics at a position
/// of 64 or more.
#[verifier::external_body]
pub(crate) fn bitset_set_bit(s: &mut DenseBitSet, position: usize, value: bool)
    requires
        position < WIDTH,
    ensures
        set_bits(*final(s)) == (if value {
            set_bits(*old(s)).insert(position as nat)
        } else {
            set_bits(*old(s)).remove(position as nat)
        }),
{
    s.set_bit(position, value)
}

/// Relies on `BitSet::get_bit` of `DenseBitSet`, which panics at a position
/// of 64 or more.
#[verifier::external_body]
pub(crate) fn bitset_get_bit(s: &DenseBitSet, position: usize) -> (r: bool)
    requires
        position < WIDTH,
    ensures
        r == set_bits(*s).contains(position as nat),
{
    s.get_bit(position)
}

/// Relies on `DenseBitSet::all`: the word has every bit set.
#[verifier::external_body]
pub(crate) fn bitset_all(s: DenseBitSet) -> (r: bool)
    ensures
        r == (forall|i: nat| i < WIDTH ==> set_bits(s).contains(i)),
{
    s.all()
}

/// Relies on `DenseBitSet::none`: the word has no bit set.
#[verifier::external_body]
pub(crate) fn bitset_none(s: DenseBitSet) -> (r: bool)
    ensures
        r == (forall|i: nat| i < WIDTH ==> !set_bits(s).contains(i)),
{
    s.none()
}

} // verus!
