//! The packed bit storage that holds one generation of cells.
//!
//! `FixedBitSet` is an outside type; what it holds is modelled as a
//! sequence of booleans, one per bit, indexed from zero.

use fixedbitset::FixedBitSet;
use vstd::prelude::*;

verus! {

#[verifier::external_type_specification]
#[verifier::external_body]
pub struct ExFixedBitSet(FixedBitSet);

/// The bits that a `FixedBitSet` holds, in index order; its length is the
/// set's length in bits.
pub uninterp spec fn bits_of(s: FixedBitSet) -> Seq<bool>;

/// Relies on `FixedBitSet::with_capacity`: a set of exactly `len` bits,
/// all clear.
#[verifier::external_body]
pub(crate) fn cleared(len: usize) -> (r: FixedBitSet)
    ensures
        bits_of(r) == Seq::new(len as nat, |i: int| false),
{
    FixedBitSet::with_capacity(len)
}

/// Relies on `FixedBitSet::contains`: whether bit `i` is enabled.
#[verifier::external_body]
pub(crate) fn bit(s: &FixedBitSet, i: usize) -> (r: bool)
    requires
        i < bits_of(*s).len(),
    ensures
        r == bits_of(*s)[i as int],
{
    s.contains(i)
}

/// Relies on `FixedBitSet::set`: bit `i` becomes `v`, the others and the
/// length stay. It panics when `i` is out of bounds, which `requires` rules out.
#[verifier::external_body]
pub(crate) fn put_bit(s: &mut FixedBitSet, i: usize, v: bool)
    requires
        i < bits_of(*old(s)).len(),
    ensures
        bits_of(*final(s)) == bits_of(*old(s)).update(i as int, v),
{
    s.set(i, v)
}

/// Relies on `FixedBitSet::toggle`: bit `i` is inverted, the others and the
/// length stay. It panics when `i` is out of bounds, which `requires` rules out.
#[verifier::external_body]
pub(crate) fn flip_bit(s: &mut FixedBitSet, i: usize)
    requires
        i < bits_of(*old(s)).len(),
    ensures
        bits_of(*final(s)) == bits_of(*old(s)).update(i as int, !bits_of(*old(s))[i as int]),
{
    s.toggle(i)
}

/// Relies on `FixedBitSet::as_slice`: the set's storage, 32 bits to a
/// `u32` block, bit `i` held as bit `i % 32` of block `i / 32`, with as many
/// blocks as the length needs.
#[verifier::external_body]
pub(crate) fn blocks(s: &FixedBitSet) -> (r: &[u32])
    ensures
        r@.len() == (bits_of(*s).len() + 31) / 32,
        forall|i: int|
            0 <= i < bits_of(*s).len() ==> #[trigger] bits_of(*s)[i] == (((r@[i / 32] >> ((i % 32) as u32))
                & 1u32) == 1u32),
{
    s.as_slice()
}

} // verus!
