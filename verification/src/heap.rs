//! The growable heap-backed storage backend.

use crate::access::KvDataAccess;
use crate::datastore::{zero_vec, SliceDataStoreError};
use vstd::prelude::*;

verus! {

/// A heap-backed byte region that starts at a seed capacity and grows on
/// demand.
///
/// A write that does not fit the current length triggers exactly one growth
/// step — the region is extended with zero bytes to at least double its
/// length, and to at least the end of the failed write — and the same write
/// is then attempted exactly once more.  Growth never disturbs a byte the
/// region already held.  Reads never grow the region.
#[derive(Debug, Clone)]
pub struct HeapDataStore {
    store: Vec<u8>,
}

impl HeapDataStore {
    /// Create a region of the default seed capacity, 128 zero bytes.
    pub fn new() -> (s: Self)
        ensures
            s.contents().len() == 128,
            forall|j: int| 0 <= j < 128 ==> s.contents()[j] == 0,
    {
        Self::with_capacity(128)
    }

    /// Create a region of `capacity` zero bytes.
    pub fn with_capacity(capacity: usize) -> (s: Self)
        ensures
            s.contents().len() == capacity,
            forall|j: int| 0 <= j < capacity ==> s.contents()[j] == 0,
    {
        HeapDataStore { store: zero_vec(capacity) }
    }

    /// The current region length in bytes.
    pub fn len(&self) -> (n: usize)
        ensures
            n == self.contents().len(),
    {
        self.store.len()
    }

    /// Extend the region with zero bytes up to `new_len`.
    fn grow(&mut self, new_len: usize)
        requires
            old(self).store@.len() <= new_len,
        ensures
            final(self).store@.len() == new_len,
            forall|j: int|
                0 <= j < old(self).store@.len() ==> final(self).store@[j] == old(self).store@[j],
            forall|j: int|
                old(self).store@.len() <= j < new_len ==> final(self).store@[j] == 0,
    {
        while self.store.len() < new_len
            invariant
                old(self).store@.len() <= self.store@.len() <= new_len,
                forall|j: int|
                    0 <= j < old(self).store@.len() ==> self.store@[j] == old(self).store@[j],
                forall|j: int|
                    old(self).store@.len() <= j < self.store@.len() ==> self.store@[j] == 0,
            decreases new_len - self.store@.len(),
        {
            self.store.push(0u8);
        }
    }

    /// One bounded write attempt, within the current length only.
    fn write_within(&mut self, address: u32, data: &[u8]) -> (r: Result<
        usize,
        SliceDataStoreError,
    >)
        ensures
            r is Ok <==> address + data@.len() <= old(self).store@.len(),
            r is Ok ==> r->Ok_0 == data@.len(),
            r is Ok ==> final(self).store@.len() == old(self).store@.len(),
            r is Ok ==> final(self).store@.subrange(address as int, address + data@.len())
                == data@,
            r is Ok ==> forall|j: int|
                0 <= j < old(self).store@.len() && !(address <= j < address + data@.len())
                    ==> final(self).store@[j] == old(self).store@[j],
            r is Err ==> final(self).store@ == old(self).store@,
    {
        KvDataAccess::write(&mut self.store, address, data)
    }

    /// The length the region grows to when a write ending at `end` finds a
    /// region of `len` bytes too short: at least double the current length,
    /// and at least the end of the write.
    pub open spec fn spec_grown_len(len: int, end: int) -> int {
        let doubled = if len <= usize::MAX as int / 2 {
            2 * len
        } else {
            usize::MAX as int
        };
        if doubled > end {
            doubled
        } else {
            end
        }
    }

    /// Write `data` at `address`, growing the region first when the write
    /// does not fit the current length: one growth step with zero bytes to
    /// exactly `spec_grown_len`, then the same write attempted exactly once
    /// more.  The backend's `write` is this operation.
    pub fn write_with_growth(&mut self, address: u32, data: &[u8]) -> (r: Result<
        usize,
        SliceDataStoreError,
    >)
        ensures
            r is Ok <==> address + data@.len() <= usize::MAX,
            r is Ok ==> r->Ok_0 == data@.len(),
            r is Ok && address + data@.len() <= old(self).contents().len() ==> final(self).contents().len() == old(self).contents().len(),
            r is Ok && address + data@.len() > old(self).contents().len() ==> final(self).contents().len() == Self::spec_grown_len(
                old(self).contents().len() as int,
                address + data@.len(),
            ),
            r is Ok ==> final(self).contents().subrange(address as int, address + data@.len())
                == data@,
            forall|j: int|
                0 <= j < old(self).contents().len() && !(address <= j < address + data@.len())
                    ==> final(self).contents()[j] == old(self).contents()[j],
            forall|j: int|
                old(self).contents().len() <= j < final(self).contents().len() && !(address <= j
                    < address + data@.len()) ==> final(self).contents()[j] == 0,
            r is Err ==> final(self).contents() == old(self).contents(),
    {
        if data.len() > usize::MAX - (address as usize) {
            return Err(SliceDataStoreError::OutOfMemory);
        }
        let end: usize = (address as usize) + data.len();
        match self.write_within(address, data) {
            Ok(l) => Ok(l),
            Err(_) => {
                let len: usize = self.store.len();
                let doubled: usize = if len <= usize::MAX / 2 {
                    len * 2
                } else {
                    usize::MAX
                };
                let new_len: usize = if doubled > end {
                    doubled
                } else {
                    end
                };
                self.grow(new_len);
                self.write_within(address, data)
            },
        }
    }
}

impl Default for HeapDataStore {
    /// The default seed capacity region, as `new` makes it.
    fn default() -> (s: Self)
        ensures
            s.contents().len() == 128,
            forall|j: int| 0 <= j < 128 ==> s.contents()[j] == 0,
    {
        Self::new()
    }
}

impl KvDataAccess for HeapDataStore {
    type Error = SliceDataStoreError;

    closed spec fn contents(&self) -> Seq<u8> {
        self.store@
    }

    open spec fn fits_end(&self, end: int) -> bool {
        end <= usize::MAX as int
    }

    proof fn lemma_fits_end_within(&self, end: int) {
        broadcast use vstd::std_specs::vec::axiom_spec_len;

        assert(vstd::std_specs::vec::spec_vec_len(&self.store) == self.store@.len());
    }

    proof fn lemma_fits_end_mono(&self, e1: int, e2: int) {
    }

    fn read(&self, address: u32, len: usize) -> (r: Result<Vec<u8>, Self::Error>) {
        KvDataAccess::read(&self.store, address, len)
    }

    fn write(&mut self, address: u32, data: &[u8]) -> (r: Result<usize, Self::Error>) {
        self.write_with_growth(address, data)
    }
}

} // verus!
