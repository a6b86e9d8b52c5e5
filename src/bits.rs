//! A set of byte values kept in a 256-bit `bitvec` array.

use bitvec::array::BitArray;
use bitvec::order::Lsb0;
use vstd::prelude::*;

verus! {

/// 256 bits, bit `n` set when the byte value `n` is in the set.
#[verifier::external_body]
pub struct ByteSet {
    bits: BitArray<[u8; 32], Lsb0>,
}

/// The indices of the bits that are set.
pub uninterp spec fn bits_of(s: ByteSet) -> Set<nat>;

/// Relies on `BitArray::ZERO`: an array with every bit cleared.
#[verifier::external_body]
pub(crate) fn empty_bits() -> (r: ByteSet)
    ensures
        bits_of(r) == Set::<nat>::empty(),
{
    ByteSet { bits: BitArray::ZERO }
}

/// Relies on `BitSlice::set`: sets bit `i`, leaving the others alone. It
/// panics when `i` is not below the length, 256 bits for `[u8; 32]`.
#[verifier::external_body]
pub(crate) fn set_bit(s: &mut ByteSet, i: usize)
    requires
        i < 256,
    ensures
        bits_of(*final(s)) == bits_of(*old(s)).insert(i as nat),
{
    s.bits.set(i, true)
}

/// Relies on `BitSlice::count_ones`: the number of bits that are set.
#[verifier::external_body]
pub(crate) fn count_ones(s: &ByteSet) -> (r: usize)
    ensures
        r as nat == bits_of(*s).len(),
{
    s.bits.count_ones()
}

/// Relies on `BitSlice::first_one`: the lowest index whose bit is set, or
/// `None` when no bit is set.
#[verifier::external_body]
pub(crate) fn first_one(s: &ByteSet) -> (r: Option<usize>)
    ensures
        r is None ==> bits_of(*s) == Set::<nat>::empty(),
        r matches Some(i) ==> bits_of(*s).contains(i as nat) && forall|j: nat|
            bits_of(*s).contains(j) ==> i <= j,
{
    s.bits.first_one()
}

} // verus!
