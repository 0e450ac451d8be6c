//! The bit store itself: a fixed-length vector of bits with guarded
//! mutation. Its view is the mathematical sequence of its bits.

use vstd::prelude::*;
use crate::bits::{Bits, bits_of, bits_repeat_false, bits_len, bits_get, bits_set};

verus! {

/// `s` with the bit at `index` toggled when `index` is in range, and
/// unchanged otherwise.
pub open spec fn toggle_at(s: Seq<bool>, index: int) -> Seq<bool> {
    if 0 <= index < s.len() {
        s.update(index, !s[index])
    } else {
        s
    }
}

/// How many elements of `indices` equal `value`.
pub open spec fn occurrences(indices: Seq<usize>, value: int) -> nat
    decreases indices.len(),
{
    if indices.len() == 0 {
        0
    } else {
        occurrences(indices.drop_last(), value) + (if indices.last() == value {
            1nat
        } else {
            0nat
        })
    }
}

/// Every element of `indices` is a valid index for a store of `n` bits.
pub open spec fn all_within(indices: Seq<usize>, n: nat) -> bool {
    forall|j: int| 0 <= j < indices.len() ==> (indices[j] as nat) < n
}

/// The net effect of toggling, once for each of its occurrences in
/// `indices`, the bit at that index: bit `i` ends up toggled exactly when
/// `i` occurs an odd number of times.
pub open spec fn batch_toggled(s: Seq<bool>, indices: Seq<usize>) -> Seq<bool> {
    Seq::new(s.len(), |i: int| s[i] != (occurrences(indices, i) % 2 == 1))
}

/// Extending a batch by one in-range index toggles that one bit of the
/// batch's net effect.
proof fn lemma_batch_toggled_step(s: Seq<bool>, indices: Seq<usize>, k: int)
    requires
        0 <= k < indices.len(),
        (indices[k] as int) < s.len(),
    ensures
        batch_toggled(s, indices.take(k + 1)) == toggle_at(
            batch_toggled(s, indices.take(k)),
            indices[k] as int,
        ),
{
    let prefix = indices.take(k);
    let extended = indices.take(k + 1);
    assert(extended.drop_last() =~= prefix);
    assert(extended.last() == indices[k]);
    assert forall|v: int| #[trigger] occurrences(extended, v) == occurrences(prefix, v) + (
    if indices[k] == v {
        1nat
    } else {
        0nat
    }) by {
        assert(occurrences(extended, v) == occurrences(extended.drop_last(), v) + (
        if extended.last() == v {
            1nat
        } else {
            0nat
        }));
    }
    assert(batch_toggled(s, extended) =~= toggle_at(batch_toggled(s, prefix), indices[k] as int));
}

/// The toggles of `indices` applied one at a time, first element first.
pub open spec fn toggles_in_order(s: Seq<bool>, indices: Seq<usize>) -> Seq<bool>
    decreases indices.len(),
{
    if indices.len() == 0 {
        s
    } else {
        toggle_at(toggles_in_order(s, indices.drop_last()), indices.last() as int)
    }
}

/// Toggling the same in-range position twice restores the original
/// sequence: one flip is an involution.
pub proof fn lemma_toggle_twice_restores(s: Seq<bool>, index: int)
    requires
        0 <= index < s.len(),
    ensures
        toggle_at(toggle_at(s, index), index) == s,
{
    assert(toggle_at(toggle_at(s, index), index) =~= s);
}

/// A value that occurs nowhere in `indices` occurs zero times.
proof fn lemma_occurrences_absent(indices: Seq<usize>, value: int)
    requires
        forall|j: int| 0 <= j < indices.len() ==> indices[j] != value,
    ensures
        occurrences(indices, value) == 0,
    decreases indices.len(),
{
    if indices.len() > 0 {
        lemma_occurrences_absent(indices.drop_last(), value);
    }
}

/// In a sequence of pairwise-distinct elements, a value that occurs at all
/// occurs exactly once.
proof fn lemma_occurrences_distinct_present(indices: Seq<usize>, value: int)
    requires
        forall|j: int, l: int| 0 <= j < l < indices.len() ==> indices[j] != indices[l],
        exists|j: int| 0 <= j < indices.len() && indices[j] == value,
    ensures
        occurrences(indices, value) == 1,
    decreases indices.len(),
{
    let last = indices.len() - 1;
    if indices.last() == value {
        assert forall|j: int| 0 <= j < indices.drop_last().len() implies indices.drop_last()[j]
            != value by {
            assert(indices[j] != indices[last]);
        }
        lemma_occurrences_absent(indices.drop_last(), value);
    } else {
        let j = choose|j: int| 0 <= j < indices.len() && indices[j] == value;
        assert(indices.drop_last()[j] == value);
        lemma_occurrences_distinct_present(indices.drop_last(), value);
    }
}

/// A batch of distinct in-range indices toggles each listed bit exactly
/// once and leaves every other bit unchanged.
pub proof fn lemma_distinct_batch(s: Seq<bool>, indices: Seq<usize>)
    requires
        all_within(indices, s.len()),
        forall|j: int, l: int| 0 <= j < l < indices.len() ==> indices[j] != indices[l],
    ensures
        batch_toggled(s, indices).len() == s.len(),
        forall|i: int|
            0 <= i < s.len() ==> batch_toggled(s, indices)[i] == (if exists|j: int|
                0 <= j < indices.len() && indices[j] == i {
                !s[i]
            } else {
                s[i]
            }),
{
    assert forall|i: int| 0 <= i < s.len() implies batch_toggled(s, indices)[i] == (
    if exists|j: int| 0 <= j < indices.len() && indices[j] == i {
        !s[i]
    } else {
        s[i]
    }) by {
        if exists|j: int| 0 <= j < indices.len() && indices[j] == i {
            lemma_occurrences_distinct_present(indices, i);
        } else {
            lemma_occurrences_absent(indices, i);
        }
    }
}

/// Any serial order of a batch's toggles lands on the batch's net effect:
/// applying the flips of distinct in-range indices one call at a time, in
/// the order given, toggles each listed bit exactly once, so no toggle is
/// lost however concurrent calls are serialized.
pub proof fn lemma_serial_order_matches_batch(s: Seq<bool>, indices: Seq<usize>)
    requires
        all_within(indices, s.len()),
    ensures
        toggles_in_order(s, indices) == batch_toggled(s, indices),
    decreases indices.len(),
{
    if indices.len() == 0 {
        assert(batch_toggled(s, indices) =~= s);
    } else {
        let prefix = indices.drop_last();
        assert(all_within(prefix, s.len()));
        lemma_serial_order_matches_batch(s, prefix);
        assert(indices.take(indices.len() - 1) =~= prefix);
        assert(indices.take(indices.len() as int) =~= indices);
        lemma_batch_toggled_step(s, indices, indices.len() - 1);
    }
}

/// A fixed-length ordered sequence of bits, each addressable by a 0-based
/// index. The length is chosen at construction and never changes.
pub struct BitArray {
    data: Bits,
}

impl View for BitArray {
    type V = Seq<bool>;

    closed spec fn view(&self) -> Seq<bool> {
        bits_of(self.data)
    }
}

impl BitArray {
    /// A store of `size` bits, all initially false.
    pub fn new(size: usize) -> (r: BitArray)
        ensures
            r@.len() == size,
            forall|i: int| 0 <= i < size ==> !r@[i],
    {
        BitArray { data: bits_repeat_false(size) }
    }

    /// The number of bits in the store.
    pub fn len(&self) -> (r: usize)
        ensures
            r == self@.len(),
    {
        bits_len(&self.data)
    }

    /// Toggles the bit at `index` and leaves every other bit alone; an index
    /// at or past the length is rejected and the store is unchanged.
    pub fn flip(&mut self, index: usize) -> (r: Result<(), &'static str>)
        ensures
            r is Ok <==> index < old(self)@.len(),
            final(self)@ == toggle_at(old(self)@, index as int),
            r matches Err(msg) ==> msg@ == "Index out of bounds"@,
    {
        let n = bits_len(&self.data);
        if index >= n {
            return Err("Index out of bounds");
        }
        let current = bits_get(&self.data, index);
        bits_set(&mut self.data, index, !current);
        Ok(())
    }

    /// Toggles the bit at each listed index, once per occurrence, with
    /// all-or-nothing validation: one out-of-range index anywhere in the
    /// batch rejects the whole batch and leaves the store unchanged.
    pub fn flip_multiple(&mut self, indices: &[usize]) -> (r: Result<(), &'static str>)
        ensures
            r is Ok <==> all_within(indices@, old(self)@.len()),
            r is Ok ==> final(self)@ == batch_toggled(old(self)@, indices@),
            r is Err ==> final(self)@ == old(self)@,
            r matches Err(msg) ==> msg@ == "Index out of bounds"@,
    {
        let n = bits_len(&self.data);
        let mut k: usize = 0;
        while k < indices.len()
            invariant
                k <= indices@.len(),
                n == self@.len(),
                forall|j: int| 0 <= j < k ==> (indices@[j] as int) < n,
            decreases indices@.len() - k,
        {
            if indices[k] >= n {
                return Err("Index out of bounds");
            }
            k += 1;
        }
        let ghost initial = self@;
        let mut k: usize = 0;
        while k < indices.len()
            invariant
                k <= indices@.len(),
                all_within(indices@, initial.len()),
                self@ == batch_toggled(initial, indices@.take(k as int)),
            decreases indices@.len() - k,
        {
            proof {
                assert(self@.len() == initial.len());
            }
            let index = indices[k];
            let current = bits_get(&self.data, index);
            bits_set(&mut self.data, index, !current);
            proof {
                lemma_batch_toggled_step(initial, indices@, k as int);
            }
            k += 1;
        }
        proof {
            assert(indices@.take(indices@.len() as int) =~= indices@);
        }
        Ok(())
    }

    /// A complete point-in-time copy of the bits, one element per bit, with
    /// element `i` holding the bit at index `i`.
    pub fn get_snapshot(&self) -> (r: Vec<bool>)
        ensures
            r@ == self@,
    {
        let n = bits_len(&self.data);
        let mut out: Vec<bool> = Vec::new();
        let mut k: usize = 0;
        while k < n
            invariant
                k <= n,
                n == self@.len(),
                out@ == self@.take(k as int),
            decreases n - k,
        {
            out.push(bits_get(&self.data, k));
            proof {
                assert(out@ =~= self@.take(k + 1));
            }
            k += 1;
        }
        proof {
            assert(self@.take(n as int) =~= self@);
        }
        out
    }
}

} // verus!
