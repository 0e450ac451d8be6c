//! Trusted interface to `bitvec`'s packed bit vector.
//!
//! The store keeps its bits in a `bitvec::vec::BitVec`, which Verus cannot
//! look inside. `bits_of` names the sequence of live bits such a vector
//! holds, and each method the store needs is wrapped in a function whose
//! contract states, over `bits_of`, what the `bitvec` source shows.

use vstd::prelude::*;

verus! {

/// The packed bit vector that backs the store: `bitvec`'s `BitVec` with its
/// default word type and bit ordering, held opaquely because Verus cannot
/// read `bitvec`'s types.
#[verifier::external_body]
pub struct Bits {
    inner: bitvec::vec::BitVec<usize, bitvec::order::Lsb0>,
}

/// The live bits that a `Bits` value holds, in index order.
pub uninterp spec fn bits_of(bv: Bits) -> Seq<bool>;

/// Relies on `BitVec::repeat`: a vector of `len` copies of the given bit.
#[verifier::external_body]
pub(crate) fn bits_repeat_false(len: usize) -> (r: Bits)
    ensures
        bits_of(r) == Seq::new(len as nat, |i: int| false),
{
    Bits { inner: bitvec::vec::BitVec::repeat(false, len) }
}

/// Relies on `BitSlice::len`, reached through `Deref`: the number of live bits.
#[verifier::external_body]
pub(crate) fn bits_len(bv: &Bits) -> (r: usize)
    ensures
        r == bits_of(*bv).len(),
{
    bv.inner.len()
}

/// Relies on `BitSlice`'s `Index` impl: the bit at `index`. It panics only
/// on an out-of-range index, which the precondition rules out.
#[verifier::external_body]
pub(crate) fn bits_get(bv: &Bits, index: usize) -> (r: bool)
    requires
        index < bits_of(*bv).len(),
    ensures
        r == bits_of(*bv)[index as int],
{
    bv.inner[index]
}

/// Relies on `BitSlice::set`: writes `value` into the bit at `index`,
/// leaving every other bit alone. It panics only on an out-of-range index,
/// which the precondition rules out.
#[verifier::external_body]
pub(crate) fn bits_set(bv: &mut Bits, index: usize, value: bool)
    requires
        index < bits_of(*old(bv)).len(),
    ensures
        bits_of(*final(bv)) == bits_of(*old(bv)).update(index as int, value),
{
    bv.inner.set(index, value);
}

} // verus!
