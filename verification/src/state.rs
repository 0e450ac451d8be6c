//! The process-wide shared state: one `BitArray` behind a verified
//! reader-writer lock. Readers take snapshots concurrently; writers are
//! mutually exclusive with each other and with readers, so every snapshot
//! reflects one consistent state and no batch is ever seen half-applied.
//! The lock's invariant fixes the vector's length for the life of the
//! process.

use vstd::prelude::*;
use vstd::rwlock::{RwLock, RwLockPredicate};
use crate::store::{BitArray, all_within};

verus! {

/// The invariant the lock enforces on the store it guards: the length
/// never changes after construction.
pub struct FixedLen {
    pub n: nat,
}

impl RwLockPredicate<BitArray> for FixedLen {
    open spec fn inv(self, v: BitArray) -> bool {
        v@.len() == self.n
    }
}

/// The shared state handed to every concurrent request handler.
pub struct AppState {
    pub bit_array: RwLock<BitArray, FixedLen>,
}

impl AppState {
    /// The configured number of bits.
    pub open spec fn size(&self) -> nat {
        self.bit_array.pred().n
    }

    /// Shared state over a store of `size` bits, all initially false.
    pub fn new(size: usize) -> (r: AppState)
        ensures
            r.size() == size,
    {
        let store = BitArray::new(size);
        AppState { bit_array: RwLock::new(store, Ghost(FixedLen { n: size as nat })) }
    }

    /// Toggles one bit under the writer lock. Succeeds exactly when
    /// `index` is within bounds; an out-of-range index leaves the store
    /// unmodified.
    pub fn flip(&self, index: usize) -> (r: Result<(), &'static str>)
        ensures
            r is Ok <==> (index as nat) < self.size(),
    {
        let (mut store, handle) = self.bit_array.acquire_write();
        let r = store.flip(index);
        handle.release_write(store);
        r
    }

    /// Toggles a batch of bits under the writer lock, all or nothing.
    /// Succeeds exactly when every listed index is within bounds; one
    /// out-of-range index rejects the batch and leaves the store unmodified.
    pub fn flip_multiple(&self, indices: &[usize]) -> (r: Result<(), &'static str>)
        ensures
            r is Ok <==> all_within(indices@, self.size()),
    {
        let (mut store, handle) = self.bit_array.acquire_write();
        let r = store.flip_multiple(indices);
        handle.release_write(store);
        r
    }

    /// A consistent point-in-time copy of all the bits, taken under the
    /// reader lock; its length always equals the configured size.
    pub fn snapshot(&self) -> (r: Vec<bool>)
        ensures
            r@.len() == self.size(),
    {
        let handle = self.bit_array.acquire_read();
        let snap = handle.borrow().get_snapshot();
        handle.release_read();
        snap
    }
}

} // verus!
