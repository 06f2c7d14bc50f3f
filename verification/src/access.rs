//! The storage-backend capability the record store is built on.

use vstd::prelude::*;

verus! {

/// A byte-addressable backing memory.
///
/// `contents` is the byte sequence the backend currently holds.  A read of a
/// range inside the contents returns exactly those bytes; a read past the end
/// fails.  A write succeeds exactly when its end offset fits the backend
/// (`fits_end`); a backend that can grow may then lengthen its contents,
/// padding any fresh bytes outside the written range with zeroes, and must
/// preserve every byte it already held outside the written range.  A failed
/// write leaves the contents untouched.  Reads and writes transfer the full
/// request or fail outright: the contract leaves no room for silent short
/// transfers.
pub trait KvDataAccess: Sized {
    type Error;

    /// The bytes this backend holds.
    spec fn contents(&self) -> Seq<u8>;

    /// Whether a write ending at offset `end` is within what this backend
    /// accepts, growing first if it grows.
    spec fn fits_end(&self, end: int) -> bool;

    /// A write ending inside the current contents always fits.
    proof fn lemma_fits_end_within(&self, end: int)
        requires
            0 <= end <= self.contents().len(),
        ensures
            self.fits_end(end),
    ;

    /// Whatever fits, everything shorter fits too.
    proof fn lemma_fits_end_mono(&self, e1: int, e2: int)
        requires
            0 <= e1 <= e2,
            self.fits_end(e2),
        ensures
            self.fits_end(e1),
    ;

    /// Copy `len` bytes starting at `address` out of the backend.
    fn read(&self, address: u32, len: usize) -> (r: Result<Vec<u8>, Self::Error>)
        ensures
            r is Ok <==> address + len <= self.contents().len(),
            r is Ok ==> r->Ok_0@ == self.contents().subrange(
                address as int,
                address + len,
            ),
    ;

    /// Copy `data` into the backend starting at `address`.
    fn write(&mut self, address: u32, data: &[u8]) -> (r: Result<usize, Self::Error>)
        ensures
            r is Ok <==> old(self).fits_end(address + data@.len()),
            r is Ok ==> r->Ok_0 == data@.len(),
            final(self).contents().len() >= old(self).contents().len(),
            forall|e: int|
                final(self).fits_end(e) == old(self).fits_end(e),
            r is Ok ==> final(self).contents().len() >= address + data@.len(),
            r is Ok && address + data@.len() <= old(self).contents().len()
                ==> final(self).contents().len() == old(self).contents().len(),
            r is Ok ==> final(self).contents().subrange(
                address as int,
                address + data@.len(),
            ) == data@,
            forall|j: int|
                0 <= j < old(self).contents().len() && !(address <= j < address + data@.len())
                    ==> final(self).contents()[j] == old(self).contents()[j],
            forall|j: int|
                old(self).contents().len() <= j < final(self).contents().len() && !(address <= j
                    < address + data@.len()) ==> final(self).contents()[j] == 0,
            r is Err ==> final(self).contents() == old(self).contents(),
    ;
}

} // verus!
