//! Fixed-bounds storage backends.
//!
//! All the backends in this file wrap a byte region whose length is fixed at
//! construction.  The bounds check is uniform: a request is rejected exactly
//! when `address + length` exceeds the region length, so the full declared
//! capacity is usable, including its last byte.

use crate::access::KvDataAccess;
use vstd::pervasive::VecAdditionalExecFns;
use vstd::prelude::*;

verus! {

/// A byte vector of `n` zeroes.
pub(crate) fn zero_vec(n: usize) -> (v: Vec<u8>)
    ensures
        v@.len() == n,
        forall|j: int| 0 <= j < n ==> v@[j] == 0,
{
    let mut v: Vec<u8> = Vec::new();
    let mut i: usize = 0;
    while i < n
        invariant
            i <= n,
            v@.len() == i,
            forall|j: int| 0 <= j < i ==> v@[j] == 0,
        decreases n - i,
    {
        v.push(0u8);
        i = i + 1;
    }
    v
}

/// Copy `len` bytes starting at `address` out of a byte region.
pub(crate) fn read_range(store: &Vec<u8>, address: u32, len: usize) -> (out: Vec<u8>)
    requires
        address + len <= store@.len(),
    ensures
        out@ == store@.subrange(address as int, address + len),
{
    // bind the region length once so its usize bound is in scope
    let _region_len: usize = store.len();
    let mut out: Vec<u8> = Vec::new();
    let mut i: usize = 0;
    while i < len
        invariant
            i <= len,
            address + len <= store@.len(),
            store@.len() <= usize::MAX,
            out@ == store@.subrange(address as int, address + i),
        decreases len - i,
    {
        let b: u8 = *vstd::slice::slice_index_get(store.as_slice(), (address as usize) + i);
        out.push(b);
        proof {
            assert(out@ =~= store@.subrange(address as int, address + i + 1));
        }
        i = i + 1;
    }
    out
}

/// Copy `data` into a byte region starting at `address`, leaving every other
/// byte as it was.
pub(crate) fn splice_bytes(store: &mut Vec<u8>, address: u32, data: &[u8])
    requires
        address + data@.len() <= old(store)@.len(),
    ensures
        final(store)@.len() == old(store)@.len(),
        final(store)@.subrange(address as int, address + data@.len()) == data@,
        forall|j: int|
            0 <= j < old(store)@.len() && !(address <= j < address + data@.len())
                ==> final(store)@[j] == old(store)@[j],
{
    // bind the region length once so its usize bound is in scope
    let _region_len: usize = store.len();
    let len: usize = data.len();
    let mut i: usize = 0;
    while i < len
        invariant
            i <= len,
            len == data@.len(),
            address + len <= store@.len(),
            store@.len() <= usize::MAX,
            store@.len() == old(store)@.len(),
            forall|j: int| address <= j < address + i ==> store@[j] == data@[j - address],
            forall|j: int|
                0 <= j < old(store)@.len() && !(address <= j < address + i)
                    ==> store@[j] == old(store)@[j],
        decreases len - i,
    {
        let b: u8 = *vstd::slice::slice_index_get(data, i);
        let idx: usize = (address as usize) + i;
        store.set(idx, b);
        i = i + 1;
    }
    proof {
        assert(store@.subrange(address as int, address + data@.len()) =~= data@);
    }
}

/// The failure an `InMemoryKvDataStore` reports: the request left the region.
#[derive(Debug, Clone, Copy, PartialEq, Eq, Structural)]
pub enum InMemoryKvDataStoreError {
    OutOfMemory,
}

/// An in-place byte region of `SIZE` bytes, zero-initialised, that never
/// grows.
#[derive(Debug, Clone)]
pub struct InMemoryKvDataStore<const SIZE: usize> {
    store: Vec<u8>,
}

impl<const SIZE: usize> InMemoryKvDataStore<SIZE> {
    /// Create the region, all zeroes.
    pub fn new() -> (s: Self)
        ensures
            s.contents().len() == SIZE,
            forall|j: int| 0 <= j < SIZE ==> s.contents()[j] == 0,
    {
        InMemoryKvDataStore { store: zero_vec(SIZE) }
    }
}

impl<const SIZE: usize> KvDataAccess for InMemoryKvDataStore<SIZE> {
    type Error = InMemoryKvDataStoreError;

    closed spec fn contents(&self) -> Seq<u8> {
        self.store@
    }

    open spec fn fits_end(&self, end: int) -> bool {
        end <= self.contents().len()
    }

    proof fn lemma_fits_end_within(&self, end: int) {
    }

    proof fn lemma_fits_end_mono(&self, e1: int, e2: int) {
    }

    fn read(&self, address: u32, len: usize) -> (r: Result<Vec<u8>, Self::Error>) {
        if (address as usize) > self.store.len() || len > self.store.len() - (address as usize) {
            return Err(InMemoryKvDataStoreError::OutOfMemory);
        }
        Ok(read_range(&self.store, address, len))
    }

    fn write(&mut self, address: u32, data: &[u8]) -> (r: Result<usize, Self::Error>) {
        if (address as usize) > self.store.len() || data.len() > self.store.len() - (address
            as usize) {
            return Err(InMemoryKvDataStoreError::OutOfMemory);
        }
        splice_bytes(&mut self.store, address, data);
        Ok(data.len())
    }
}

/// The failure a directly held or borrowed byte region reports: the request
/// left the region.
#[derive(Debug, Clone, Copy, PartialEq, Eq, Structural)]
#[non_exhaustive]
pub enum SliceDataStoreError {
    OutOfMemory,
}

/// A plain owned byte vector is itself a fixed-bounds backend: the store can
/// be laid directly over a region of bytes the caller made, the nearest
/// memory-safe relative of a borrowed byte slice.
impl KvDataAccess for Vec<u8> {
    type Error = SliceDataStoreError;

    open spec fn contents(&self) -> Seq<u8> {
        self@
    }

    open spec fn fits_end(&self, end: int) -> bool {
        end <= self@.len()
    }

    proof fn lemma_fits_end_within(&self, end: int) {
    }

    proof fn lemma_fits_end_mono(&self, e1: int, e2: int) {
    }

    fn read(&self, address: u32, len: usize) -> (r: Result<Vec<u8>, Self::Error>) {
        if (address as usize) > self.len() || len > self.len() - (address as usize) {
            return Err(SliceDataStoreError::OutOfMemory);
        }
        Ok(read_range(self, address, len))
    }

    fn write(&mut self, address: u32, data: &[u8]) -> (r: Result<usize, Self::Error>) {
        if (address as usize) > self.len() || data.len() > self.len() - (address as usize) {
            return Err(SliceDataStoreError::OutOfMemory);
        }
        splice_bytes(self, address, data);
        Ok(data.len())
    }
}

/// A statically sized byte region of `SIZE` bytes, zero-initialised, that
/// never grows.  It answers with the shared region error and delegates to the
/// byte-vector backend, as a borrowed region would.
#[derive(Debug, Clone)]
pub struct StaticDataStore<const SIZE: usize> {
    store: Vec<u8>,
}

impl<const SIZE: usize> StaticDataStore<SIZE> {
    /// Create the region, all zeroes.
    pub fn new() -> (s: Self)
        ensures
            s.contents().len() == SIZE,
            forall|j: int| 0 <= j < SIZE ==> s.contents()[j] == 0,
    {
        StaticDataStore { store: zero_vec(SIZE) }
    }
}

impl<const SIZE: usize> KvDataAccess for StaticDataStore<SIZE> {
    type Error = SliceDataStoreError;

    closed spec fn contents(&self) -> Seq<u8> {
        self.store@
    }

    open spec fn fits_end(&self, end: int) -> bool {
        end <= self.contents().len()
    }

    proof fn lemma_fits_end_within(&self, end: int) {
    }

    proof fn lemma_fits_end_mono(&self, e1: int, e2: int) {
    }

    fn read(&self, address: u32, len: usize) -> (r: Result<Vec<u8>, Self::Error>) {
        KvDataAccess::read(&self.store, address, len)
    }

    fn write(&mut self, address: u32, data: &[u8]) -> (r: Result<usize, Self::Error>) {
        KvDataAccess::write(&mut self.store, address, data)
    }
}

} // verus!
