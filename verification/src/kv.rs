//! The record-store engine.
//!
//! `Kv` owns a hash capability and a storage backend and maintains the
//! region layout of `crate::region` over the backend's bytes: an 8-byte
//! header, then appended records.  Its operations are specified against the
//! parsed record view (`recs`) and the scan model (`scan`).

use crate::access::KvDataAccess;
use crate::bytes::{decode_u32, encode_u32, le32, le32_bytes, lemma_le32_round_trip};
use crate::codec::FixedBytes;
use crate::hash::{FnvHasher, KvHasher};
use crate::heap::HeapDataStore;
use crate::region::{
    footprint, hdr_amount, hdr_size, lemma_footprint_push, lemma_footprint_update,
    lemma_parse_append, lemma_parse_frame, lemma_parse_structure, lemma_parse_update,
    lemma_scan_none_iff, lemma_scan_pos_props, parse_at, rec_key_at, rec_size_at, region_end,
    region_recs, region_wf, scan, scan_pos, tombstoned, GRecord, TOMBSTONE_KEY,
};
use core::marker::PhantomData;
use vstd::prelude::*;

verus! {

/// What a store operation can report: a second insert under a live key, a
/// missing key, a stored size that does not match the requested type's size,
/// or a backend failure passed through.
#[derive(Debug)]
pub enum KvError<StoreError> {
    Conflict,
    NotFound,
    SizeMismatch,
    Store(StoreError),
}

/// The record store: a hash capability for keys of type `K` and a storage
/// backend holding the region.
///
/// The region layout is:
///
/// ```text
/// |------|--------|---------------|---------------|----
/// | size | amount | key|size|data | key|size|data | ...
/// |------|--------|---------------|---------------|----
/// | header        | record        | record        | ...
/// |---------------|---------------|---------------|----
/// ```
///
/// The header is 8 bytes: the total payload size and the record count.  Each
/// record has its own 8-byte header of key hash and data size, then its data.
pub struct Kv<K, H, S> {
    _k: PhantomData<K>,
    hasher: H,
    store: S,
}

impl<K, H, S: KvDataAccess> Kv<K, H, S> {
    /// The backend the store owns.
    pub closed spec fn spec_store(&self) -> S {
        self.store
    }

    /// The hasher the store owns.
    pub closed spec fn spec_hasher(&self) -> H {
        self.hasher
    }

    /// The bytes of the region.
    pub open spec fn contents(&self) -> Seq<u8> {
        self.spec_store().contents()
    }

    /// The parsed records of the region, tombstoned ones included.
    pub open spec fn recs(&self) -> Seq<GRecord> {
        region_recs(self.contents())
    }

    /// Whether the region is well-formed.
    pub open spec fn wf(&self) -> bool {
        region_wf(self.contents())
    }

    /// The payload size header field.
    pub open spec fn spec_size(&self) -> u32 {
        hdr_size(self.contents())
    }

    /// The record count header field.
    pub open spec fn spec_amount(&self) -> u32 {
        hdr_amount(self.contents())
    }
}

impl<K, H: KvHasher<K>, S: KvDataAccess> Kv<K, H, S> {
    /// Create a store over the given hasher and backend.
    pub fn with_hasher_and_store(hasher: H, store: S) -> (kv: Self)
        ensures
            kv.spec_hasher() == hasher,
            kv.spec_store() == store,
    {
        Kv { _k: PhantomData, hasher, store }
    }

    /// The backend, for direct inspection.  A caller that writes through it
    /// is on its own: the store's operations expect a well-formed region.
    pub fn store(&mut self) -> (s: &mut S)
        ensures
            *s == old(self).spec_store(),
            final(self).spec_store() == *final(s),
            final(self).spec_hasher() == old(self).spec_hasher(),
    {
        &mut self.store
    }

    /// The hasher, for direct inspection.
    pub fn hasher(&mut self) -> (h: &mut H)
        ensures
            *h == old(self).spec_hasher(),
            final(self).spec_hasher() == *final(h),
            final(self).spec_store() == old(self).spec_store(),
    {
        &mut self.hasher
    }

    /// Hash a logical key into its 32-bit key field value.
    fn hash_key(&self, t: &K) -> (h: u32)
        ensures
            h == self.spec_hasher().spec_hash(*t),
    {
        self.hasher.hash(t)
    }

    /// Read exactly `len` bytes at `address`, or report the backend failure.
    fn read_all(&self, address: u32, len: usize) -> (r: Result<Vec<u8>, KvError<S::Error>>)
        ensures
            r is Ok <==> address + len <= self.contents().len(),
            r is Ok ==> r->Ok_0@ == self.contents().subrange(address as int, address + len),
            r is Err ==> r matches Err(KvError::Store(_)),
    {
        match self.store.read(address, len) {
            Ok(v) => Ok(v),
            Err(e) => Err(KvError::Store(e)),
        }
    }

    /// Write `data` at `address`, or report the backend failure.
    fn write_all(&mut self, address: u32, data: &[u8]) -> (r: Result<(), KvError<S::Error>>)
        ensures
            r is Ok <==> old(self).spec_store().fits_end(address + data@.len()),
            final(self).spec_hasher() == old(self).spec_hasher(),
            final(self).contents().len() >= old(self).contents().len(),
            forall|e: int|
                final(self).spec_store().fits_end(e) == old(self).spec_store().fits_end(e),
            r is Ok ==> final(self).contents().len() >= address + data@.len(),
            r is Ok && address + data@.len() <= old(self).contents().len() ==> final(self).contents().len() == old(self).contents().len(),
            r is Ok ==> final(self).contents().subrange(address as int, address + data@.len())
                == data@,
            forall|j: int|
                0 <= j < old(self).contents().len() && !(address <= j < address + data@.len())
                    ==> final(self).contents()[j] == old(self).contents()[j],
            forall|j: int|
                old(self).contents().len() <= j < final(self).contents().len() && !(address <= j
                    < address + data@.len()) ==> final(self).contents()[j] == 0,
            r is Err ==> final(self).contents() == old(self).contents() && r matches Err(
                KvError::Store(_),
            ),
    {
        match self.store.write(address, data) {
            Ok(_) => Ok(()),
            Err(e) => Err(KvError::Store(e)),
        }
    }

    /// Read the 32-bit field at `address`.
    fn read_u32(&self, address: u32) -> (r: Result<u32, KvError<S::Error>>)
        ensures
            r is Ok <==> address + 4 <= self.contents().len(),
            r is Ok ==> r->Ok_0 == le32(self.contents().subrange(address as int, address + 4)),
            r is Err ==> r matches Err(KvError::Store(_)),
    {
        match self.read_all(address, 4) {
            Ok(v) => Ok(decode_u32(v.as_slice())),
            Err(e) => Err(e),
        }
    }

    /// Write the 32-bit field at `address`.
    fn write_u32(&mut self, address: u32, value: u32) -> (r: Result<(), KvError<S::Error>>)
        ensures
            r is Ok <==> old(self).spec_store().fits_end(address + 4),
            final(self).spec_hasher() == old(self).spec_hasher(),
            final(self).contents().len() >= old(self).contents().len(),
            forall|e: int|
                final(self).spec_store().fits_end(e) == old(self).spec_store().fits_end(e),
            r is Ok ==> final(self).contents().len() >= address + 4,
            r is Ok && address + 4 <= old(self).contents().len() ==> final(self).contents().len()
                == old(self).contents().len(),
            r is Ok ==> final(self).contents().subrange(address as int, address + 4) == le32_bytes(
                value,
            ),
            forall|j: int|
                0 <= j < old(self).contents().len() && !(address <= j < address + 4) ==> final(self).contents()[j] == old(self).contents()[j],
            forall|j: int|
                old(self).contents().len() <= j < final(self).contents().len() && !(address <= j
                    < address + 4) ==> final(self).contents()[j] == 0,
            r is Err ==> final(self).contents() == old(self).contents() && r matches Err(
                KvError::Store(_),
            ),
    {
        let b = encode_u32(value);
        self.write_all(address, b.as_slice())
    }

    /// The total payload size of the region: the first header field.
    pub fn size(&self) -> (r: Result<u32, KvError<S::Error>>)
        ensures
            r is Ok <==> self.contents().len() >= 4,
            r is Ok ==> r->Ok_0 == self.spec_size(),
            r is Err ==> r matches Err(KvError::Store(_)),
    {
        self.read_u32(0)
    }

    /// The number of records ever appended: the second header field.
    pub fn amount(&self) -> (r: Result<u32, KvError<S::Error>>)
        ensures
            r is Ok <==> self.contents().len() >= 8,
            r is Ok ==> r->Ok_0 == self.spec_amount(),
            r is Err ==> r matches Err(KvError::Store(_)),
    {
        self.read_u32(4)
    }

    /// The linear scan: walk the record headers and report the offset of the
    /// first one whose key field equals `key`.
    fn find(&self, key: u32) -> (r: Result<Option<u32>, KvError<S::Error>>)
        requires
            self.wf(),
        ensures
            r == Ok::<Option<u32>, KvError<S::Error>>(
                match scan(self.recs(), key) {
                    Some(rec) => Some(rec.start as u32),
                    None => None::<u32>,
                },
            ),
    {
        let ghost c = self.contents();
        let ghost rs = self.recs();
        let amount = match self.amount() {
            Ok(a) => a,
            Err(e) => {
                proof {
                    assert(false);
                }
                return Err(e);
            },
        };
        let mut addr: u32 = 8;
        let mut idx: u32 = 0;
        proof {
            lemma_parse_structure(c, 8, amount as nat);
        }
        while idx < amount
            invariant
                self.wf(),
                c == self.contents(),
                rs == self.recs(),
                amount == self.spec_amount(),
                0 <= idx <= amount,
                idx < amount ==> addr == rs[idx as int].start,
                idx == amount ==> addr as int == region_end(c),
                forall|j: int| 0 <= j < idx ==> rs[j].key != key,
            decreases amount - idx,
        {
            proof {
                lemma_parse_structure(c, 8, amount as nat);
            }
            let found_key = match self.read_u32(addr) {
                Ok(k) => k,
                Err(e) => {
                    proof {
                        assert(false);
                    }
                    return Err(e);
                },
            };
            let size = match self.read_u32(addr + 4) {
                Ok(s) => s,
                Err(e) => {
                    proof {
                        assert(false);
                    }
                    return Err(e);
                },
            };
            proof {
                assert(found_key == rs[idx as int].key);
                assert(size == rs[idx as int].data.len());
            }
            if key == found_key {
                proof {
                    lemma_scan_pos_props(rs, key);
                    assert(scan_pos(rs, key) == idx as int);
                }
                return Ok(Some(addr));
            } else {
                addr = addr + 8 + size;
                idx = idx + 1;
            }
        }
        proof {
            lemma_scan_none_iff(rs, key);
        }
        Ok(None)
    }

    /// Whether a record with the key's hash is found by the scan.
    pub fn contains(&self, k: K) -> (r: Result<bool, KvError<S::Error>>)
        requires
            self.wf(),
        ensures
            r == Ok::<bool, KvError<S::Error>>(scan(self.recs(), self.spec_hasher().spec_hash(k)) is Some),
    {
        let key = self.hash_key(&k);
        match self.find(key) {
            Ok(opt) => Ok(opt.is_some()),
            Err(e) => {
                proof {
                    assert(false);
                }
                Err(e)
            },
        }
    }

    /// Look the key up and decode the stored bytes as a `T`.
    ///
    /// Returns nothing when the scan misses, and `SizeMismatch` when the
    /// stored size differs from `T`'s declared size.  A different type of
    /// the same declared size decodes without complaint: the store keeps no
    /// schema, by design.
    pub fn get<T: FixedBytes>(&mut self, k: K) -> (r: Result<Option<T>, KvError<S::Error>>)
        requires
            old(self).wf(),
        ensures
            *final(self) == *old(self),
            ({
                let h = old(self).spec_hasher().spec_hash(k);
                match scan(old(self).recs(), h) {
                    None => r == Ok::<Option<T>, KvError<S::Error>>(None::<T>),
                    Some(rec) => if rec.data.len() == T::spec_size() {
                        r == Ok::<Option<T>, KvError<S::Error>>(Some(T::spec_of_bytes(rec.data)))
                    } else {
                        r == Err::<Option<T>, KvError<S::Error>>(KvError::SizeMismatch)
                    },
                }
            }),
    {
        let ghost rs = self.recs();
        let key = self.hash_key(&k);
        let found_addr = match self.find(key) {
            Ok(Some(a)) => a,
            Ok(None) => {
                return Ok(None);
            },
            Err(e) => {
                proof {
                    assert(false);
                }
                return Err(e);
            },
        };
        proof {
            lemma_parse_structure(self.contents(), 8, self.spec_amount() as nat);
            lemma_scan_pos_props(rs, key);
            T::lemma_size_valid();
        }
        let found_size = match self.read_u32(found_addr + 4) {
            Ok(s) => s,
            Err(e) => {
                proof {
                    assert(false);
                }
                return Err(e);
            },
        };
        let size = T::byte_size();
        if found_size as usize != size {
            return Err(KvError::SizeMismatch);
        }
        let bytes = match self.read_all(found_addr + 8, size) {
            Ok(b) => b,
            Err(e) => {
                proof {
                    assert(false);
                }
                return Err(e);
            },
        };
        let v = T::from_bytes(bytes.as_slice());
        proof {
            assert(bytes@ == scan(rs, key)->Some_0.data);
        }
        Ok(Some(v))
    }

    /// Overwrite the data bytes of the record under the key, in place.
    ///
    /// Fails with `NotFound` when the scan misses and with `SizeMismatch`
    /// when `T`'s declared size differs from the stored size: an update
    /// never changes a record's declared size.
    pub fn update<T: FixedBytes>(&mut self, k: K, v: T) -> (r: Result<(), KvError<S::Error>>)
        requires
            old(self).wf(),
        ensures
            final(self).wf(),
            final(self).spec_hasher() == old(self).spec_hasher(),
            final(self).spec_size() == old(self).spec_size(),
            final(self).spec_amount() == old(self).spec_amount(),
            ({
                let h = old(self).spec_hasher().spec_hash(k);
                match scan(old(self).recs(), h) {
                    None => r == Err::<(), KvError<S::Error>>(KvError::NotFound) && final(self).contents() == old(self).contents(),
                    Some(rec) => if rec.data.len() == T::spec_size() {
                        r == Ok::<(), KvError<S::Error>>(()) && final(self).recs() == old(self).recs().update(
                            scan_pos(old(self).recs(), h),
                            GRecord { key: rec.key, start: rec.start, data: v.spec_bytes() },
                        )
                    } else {
                        r == Err::<(), KvError<S::Error>>(KvError::SizeMismatch) && final(self).contents() == old(self).contents()
                    },
                }
            }),
    {
        let ghost c1 = self.contents();
        let ghost rs = self.recs();
        let ghost n = self.spec_amount() as nat;
        let key = self.hash_key(&k);
        let found_addr = match self.find(key) {
            Ok(Some(a)) => a,
            Ok(None) => {
                return Err(KvError::NotFound);
            },
            Err(e) => {
                proof {
                    assert(false);
                }
                return Err(e);
            },
        };
        proof {
            lemma_parse_structure(c1, 8, n);
            lemma_scan_pos_props(rs, key);
            T::lemma_size_valid();
            v.lemma_bytes_len();
        }
        let found_size = match self.read_u32(found_addr + 4) {
            Ok(s) => s,
            Err(e) => {
                proof {
                    assert(false);
                }
                return Err(e);
            },
        };
        let size = T::byte_size();
        if found_size as usize != size {
            return Err(KvError::SizeMismatch);
        }
        let bytes = v.to_bytes();
        proof {
            self.spec_store().lemma_fits_end_within(found_addr + 8 + size);
        }
        let wr = self.write_all(found_addr + 8, bytes.as_slice());
        match wr {
            Ok(_) => {},
            Err(e) => {
                proof {
                    assert(false);
                }
                return Err(e);
            },
        }
        proof {
            let c2 = self.contents();
            let p = scan_pos(rs, key);
            let rec = rs[p];
            let s = rec.start;
            let e = s + 8 + rec.data.len();
            assert(c2.len() == c1.len());
            assert(c2.subrange(s + 4, s + 8) =~= c1.subrange(s + 4, s + 8));
            lemma_parse_update(c1, c2, 8, n, p);
            assert(c2.subrange(s, s + 4) =~= c1.subrange(s, s + 4));
            assert(rec_key_at(c2, s) == rec.key);
            assert(c2.subrange(s + 8, e) == v.spec_bytes());
            let rs2 = rs.update(p, GRecord { key: rec.key, start: s, data: v.spec_bytes() });
            assert(self.recs() =~= rs2);
            assert(c2.subrange(0, 4) =~= c1.subrange(0, 4));
            assert(c2.subrange(4, 8) =~= c1.subrange(4, 8));
            lemma_footprint_update(rs, p, rs2[p]);
            assert forall|i: int, j: int|
                0 <= i < j < rs2.len() && rs2[i].key == rs2[j].key implies rs2[i].key
                == TOMBSTONE_KEY by {
                assert(rs2[i].key == rs[i].key && rs2[j].key == rs[j].key);
            }
        }
        Ok(())
    }

    /// Add `inc` to the payload size header field and report the new value.
    fn size_inc(&mut self, inc: u32) -> (r: Result<u32, KvError<S::Error>>)
        requires
            old(self).contents().len() >= 8,
            hdr_size(old(self).contents()) + inc <= u32::MAX,
        ensures
            r == Ok::<u32, KvError<S::Error>>((hdr_size(old(self).contents()) + inc) as u32),
            final(self).spec_hasher() == old(self).spec_hasher(),
            final(self).contents().len() == old(self).contents().len(),
            forall|e: int|
                final(self).spec_store().fits_end(e) == old(self).spec_store().fits_end(e),
            final(self).contents().subrange(0, 4) == le32_bytes(
                (hdr_size(old(self).contents()) + inc) as u32,
            ),
            forall|j: int|
                4 <= j < old(self).contents().len() ==> final(self).contents()[j] == old(self).contents()[j],
    {
        let old_size = match self.size() {
            Ok(s) => s,
            Err(e) => {
                proof {
                    assert(false);
                }
                return Err(e);
            },
        };
        let new_size = old_size + inc;
        proof {
            self.spec_store().lemma_fits_end_within(4);
        }
        match self.write_u32(0, new_size) {
            Ok(_) => Ok(new_size),
            Err(e) => {
                proof {
                    assert(false);
                }
                Err(e)
            },
        }
    }

    /// Add `inc` to the record count header field and report the new value.
    fn amount_inc(&mut self, inc: u32) -> (r: Result<u32, KvError<S::Error>>)
        requires
            old(self).contents().len() >= 8,
            hdr_amount(old(self).contents()) + inc <= u32::MAX,
        ensures
            r == Ok::<u32, KvError<S::Error>>((hdr_amount(old(self).contents()) + inc) as u32),
            final(self).spec_hasher() == old(self).spec_hasher(),
            final(self).contents().len() == old(self).contents().len(),
            forall|e: int|
                final(self).spec_store().fits_end(e) == old(self).spec_store().fits_end(e),
            final(self).contents().subrange(4, 8) == le32_bytes(
                (hdr_amount(old(self).contents()) + inc) as u32,
            ),
            forall|j: int|
                (0 <= j < 4 || 8 <= j < old(self).contents().len()) ==> final(self).contents()[j]
                    == old(self).contents()[j],
    {
        let old_amount = match self.amount() {
            Ok(a) => a,
            Err(e) => {
                proof {
                    assert(false);
                }
                return Err(e);
            },
        };
        let new_amount = old_amount + inc;
        proof {
            self.spec_store().lemma_fits_end_within(8);
        }
        match self.write_u32(4, new_amount) {
            Ok(_) => Ok(new_amount),
            Err(e) => {
                proof {
                    assert(false);
                }
                Err(e)
            },
        }
    }

    /// Append a new record for the key, moving the value's bytes into the
    /// store.
    ///
    /// Fails with `Conflict` when the scan already finds the key's hash,
    /// leaving the region untouched.  Otherwise the record goes in at the
    /// end of the payload; a backend refusal (out of space) is passed
    /// through, and the header fields only advance after the whole record
    /// is in place, so a failed insert leaves the logical state unchanged.
    pub fn insert<T: FixedBytes>(&mut self, k: K, v: T) -> (r: Result<(), KvError<S::Error>>)
        requires
            old(self).wf(),
            scan(old(self).recs(), old(self).spec_hasher().spec_hash(k)) is None ==> 16 + old(self).spec_size() + T::spec_size() <= u32::MAX,
        ensures
            final(self).wf(),
            final(self).spec_hasher() == old(self).spec_hasher(),
            ({
                let h = old(self).spec_hasher().spec_hash(k);
                let end = 8 + old(self).spec_size() as int;
                match scan(old(self).recs(), h) {
                    Some(_) => r == Err::<(), KvError<S::Error>>(KvError::Conflict) && final(self).contents() == old(self).contents(),
                    None => if old(self).spec_store().fits_end(end + 8 + T::spec_size()) {
                        r == Ok::<(), KvError<S::Error>>(()) && final(self).recs() == old(self).recs().push(GRecord { key: h, start: end, data: v.spec_bytes() })
                            && final(self).spec_size() == old(self).spec_size() + 8
                            + T::spec_size() && final(self).spec_amount() == old(self).spec_amount() + 1
                    } else {
                        (r matches Err(KvError::Store(_))) && final(self).recs() == old(self).recs() && final(self).spec_size() == old(self).spec_size() && final(self).spec_amount() == old(self).spec_amount()
                    },
                }
            }),
    {
        let ghost c1 = old(self).contents();
        let ghost rs = old(self).recs();
        let ghost n = old(self).spec_amount() as nat;
        let ghost whole_end = 8 + old(self).spec_size() as int + 8 + T::spec_size();
        let key = self.hash_key(&k);
        match self.find(key) {
            Ok(Some(_)) => {
                return Err(KvError::Conflict);
            },
            Ok(None) => {},
            Err(e) => {
                proof {
                    assert(false);
                }
                return Err(e);
            },
        }
        proof {
            lemma_parse_structure(c1, 8, n);
            T::lemma_size_valid();
            v.lemma_bytes_len();
        }
        let size = T::byte_size();
        let cur = match self.size() {
            Ok(s) => s,
            Err(e) => {
                proof {
                    assert(false);
                }
                return Err(e);
            },
        };
        let addr: u32 = cur + 8;
        let bytes = v.to_bytes();
        proof {
            if old(self).spec_store().fits_end(whole_end) {
                old(self).spec_store().lemma_fits_end_mono(addr as int + 4, whole_end);
            }
        }
        match self.write_u32(addr, key) {
            Ok(_) => {},
            Err(e) => {
                proof {
                    lemma_parse_frame(c1, self.contents(), 8, n);
                    assert(self.contents().subrange(0, 4) =~= c1.subrange(0, 4));
                    assert(self.contents().subrange(4, 8) =~= c1.subrange(4, 8));
                }
                return Err(e);
            },
        }
        proof {
            if old(self).spec_store().fits_end(whole_end) {
                old(self).spec_store().lemma_fits_end_mono(addr as int + 8, whole_end);
            }
        }
        match self.write_u32(addr + 4, size as u32) {
            Ok(_) => {},
            Err(e) => {
                proof {
                    assert(forall|j: int| 8 <= j < 8 + footprint(rs) ==> self.contents()[j] == c1[j]);
                    lemma_parse_frame(c1, self.contents(), 8, n);
                    assert(self.contents().subrange(0, 4) =~= c1.subrange(0, 4));
                    assert(self.contents().subrange(4, 8) =~= c1.subrange(4, 8));
                }
                return Err(e);
            },
        }
        match self.write_all(addr + 8, bytes.as_slice()) {
            Ok(_) => {},
            Err(e) => {
                proof {
                    assert(forall|j: int| 8 <= j < 8 + footprint(rs) ==> self.contents()[j] == c1[j]);
                    lemma_parse_frame(c1, self.contents(), 8, n);
                    assert(self.contents().subrange(0, 4) =~= c1.subrange(0, 4));
                    assert(self.contents().subrange(4, 8) =~= c1.subrange(4, 8));
                }
                return Err(e);
            },
        }
        let ghost c_data = self.contents();
        match self.amount_inc(1) {
            Ok(_) => {},
            Err(e) => {
                proof {
                    assert(false);
                }
                return Err(e);
            },
        }
        let ghost c_amt = self.contents();
        match self.size_inc(8 + size as u32) {
            Ok(_) => {},
            Err(e) => {
                proof {
                    assert(false);
                }
                return Err(e);
            },
        }
        proof {
            let c5 = self.contents();
            let end = addr as int;
            lemma_le32_round_trip((n + 1) as u32);
            lemma_le32_round_trip((hdr_size(c1) + 8 + size as u32) as u32);
            assert(c5.subrange(0, 4) == le32_bytes((hdr_size(c1) + 8 + size as u32) as u32));
            assert(c5.subrange(4, 8) =~= c_amt.subrange(4, 8));
            assert(hdr_size(c5) == hdr_size(c1) + 8 + size);
            assert(hdr_amount(c5) == n + 1);
            // the new record's header and data survive the two header writes
            assert(c5.subrange(end, end + 4) =~= c_data.subrange(end, end + 4));
            assert(c_data.subrange(end, end + 4) =~= le32_bytes(key));
            lemma_le32_round_trip(key);
            assert(rec_key_at(c5, end) == key);
            assert(c5.subrange(end + 4, end + 8) =~= c_data.subrange(end + 4, end + 8));
            assert(c_data.subrange(end + 4, end + 8) =~= le32_bytes(size as u32));
            lemma_le32_round_trip(size as u32);
            assert(rec_size_at(c5, end) == size as u32);
            assert(c5.subrange(end + 8, end + 8 + size) =~= c_data.subrange(end + 8, end + 8
                + size));
            assert(c_data.subrange(end + 8, end + 8 + size) =~= bytes@);
            assert(forall|j: int| 8 <= j < 8 + footprint(rs) ==> c5[j] == c1[j]);
            assert(c5.len() >= end + 8 + size);
            lemma_parse_append(c1, c5, 8, n, key, bytes@);
            let newrec = GRecord { key, start: end, data: bytes@ };
            assert(self.recs() =~= rs.push(newrec));
            lemma_footprint_push(rs, newrec);
            lemma_scan_none_iff(rs, key);
            let rs2 = rs.push(newrec);
            assert forall|i: int, j: int|
                0 <= i < j < rs2.len() && rs2[i].key == rs2[j].key implies rs2[i].key
                == TOMBSTONE_KEY by {
                if j < rs.len() {
                    assert(rs2[i] == rs[i] && rs2[j] == rs[j]);
                } else {
                    assert(rs2[j] == newrec);
                    if i < rs.len() {
                        assert(rs2[i] == rs[i]);
                        assert(rs[i].key != key);
                    }
                }
            }
        }
        Ok(())
    }

    /// Tombstone the record under the key: overwrite its key field with the
    /// sentinel and its data bytes with `0xFF`, keeping its size field so
    /// the scan can still step over it.  Space is not reclaimed.  A second
    /// forget of the same key fails with `NotFound`.
    pub fn forget(&mut self, k: K) -> (r: Result<(), KvError<S::Error>>)
        requires
            old(self).wf(),
        ensures
            final(self).wf(),
            final(self).spec_hasher() == old(self).spec_hasher(),
            final(self).spec_size() == old(self).spec_size(),
            final(self).spec_amount() == old(self).spec_amount(),
            final(self).contents().len() == old(self).contents().len(),
            ({
                let h = old(self).spec_hasher().spec_hash(k);
                match scan(old(self).recs(), h) {
                    None => r == Err::<(), KvError<S::Error>>(KvError::NotFound)
                        && final(self).contents() == old(self).contents(),
                    Some(rec) => r == Ok::<(), KvError<S::Error>>(())
                        && final(self).recs() == old(self).recs().update(
                        scan_pos(old(self).recs(), h),
                        tombstoned(rec),
                    ),
                }
            }),
    {
        let ghost c1 = old(self).contents();
        let ghost rs = old(self).recs();
        let ghost n = old(self).spec_amount() as nat;
        let key = self.hash_key(&k);
        let addr = match self.find(key) {
            Ok(Some(a)) => a,
            Ok(None) => {
                return Err(KvError::NotFound);
            },
            Err(e) => {
                proof {
                    assert(false);
                }
                return Err(e);
            },
        };
        let ghost p = scan_pos(rs, key);
        proof {
            lemma_parse_structure(c1, 8, n);
            lemma_scan_pos_props(rs, key);
        }
        let size = match self.read_u32(addr + 4) {
            Ok(s) => s,
            Err(e) => {
                proof {
                    assert(false);
                }
                return Err(e);
            },
        };
        proof {
            self.spec_store().lemma_fits_end_within(addr as int + 4);
        }
        // Keep the size field: the scan still needs it to step over the data.
        match self.write_u32(addr, u32::MAX) {
            Ok(_) => {},
            Err(e) => {
                proof {
                    assert(false);
                }
                return Err(e);
            },
        }
        let end: u32 = addr + 8 + size;
        let mut ptr: u32 = addr + 8;
        let mut ff: Vec<u8> = Vec::new();
        ff.push(255u8);
        while ptr < end
            invariant
                ff@ == seq![255u8],
                0 <= p < rs.len(),
                rs[p].start == addr,
                rs[p].data.len() == size,
                end == addr + 8 + size,
                addr + 8 + size <= c1.len(),
                addr + 8 <= ptr <= end,
                self.spec_hasher() == old(self).spec_hasher(),
                self.contents().len() == c1.len(),
                self.contents().subrange(addr as int, addr + 4) == le32_bytes(u32::MAX),
                forall|j: int| addr + 8 <= j < ptr ==> self.contents()[j] == 255,
                forall|j: int|
                    0 <= j < c1.len() && !(addr <= j < addr + 4) && !(addr + 8 <= j < ptr)
                        ==> self.contents()[j] == c1[j],
            decreases end - ptr,
        {
            proof {
                self.spec_store().lemma_fits_end_within(ptr as int + 1);
            }
            let ghost c_before = self.contents();
            match self.write_all(ptr, ff.as_slice()) {
                Ok(_) => {},
                Err(e) => {
                    proof {
                        assert(false);
                    }
                    return Err(e);
                },
            }
            proof {
                assert(self.contents().subrange(ptr as int, ptr + 1) == ff@);
                assert(self.contents().subrange(ptr as int, ptr + 1)[0] == self.contents()[ptr as int]);
                assert(self.contents()[ptr as int] == 255);
                assert(self.contents().subrange(addr as int, addr + 4) =~= c_before.subrange(
                    addr as int,
                    addr + 4,
                ));
            }
            ptr = ptr + 1;
        }
        proof {
            let c2 = self.contents();
            let s = rs[p].start;
            let e = s + 8 + rs[p].data.len();
            assert(c2.subrange(s + 4, s + 8) =~= c1.subrange(s + 4, s + 8));
            lemma_parse_update(c1, c2, 8, n, p);
            lemma_le32_round_trip(u32::MAX);
            assert(rec_key_at(c2, s) == u32::MAX);
            assert(c2.subrange(s + 8, e) =~= Seq::new(rs[p].data.len(), |i: int| 0xFFu8));
            let rs2 = rs.update(p, tombstoned(rs[p]));
            assert(self.recs() =~= rs2);
            assert(c2.subrange(0, 4) =~= c1.subrange(0, 4));
            assert(c2.subrange(4, 8) =~= c1.subrange(4, 8));
            lemma_footprint_update(rs, p, rs2[p]);
            assert forall|i: int, j: int|
                0 <= i < j < rs2.len() && rs2[i].key == rs2[j].key implies rs2[i].key
                == TOMBSTONE_KEY by {
                if i != p && j != p {
                    assert(rs2[i] == rs[i] && rs2[j] == rs[j]);
                }
            }
        }
        Ok(())
    }

    /// Zero both header fields, logically discarding every record.  The
    /// record bytes stay in place, but no scan will visit them again, and
    /// the next insert appends from the region start, overwriting them.
    pub fn reset(&mut self) -> (r: Result<(), KvError<S::Error>>)
        requires
            old(self).wf(),
        ensures
            r == Ok::<(), KvError<S::Error>>(()),
            final(self).wf(),
            final(self).spec_hasher() == old(self).spec_hasher(),
            final(self).spec_size() == 0,
            final(self).spec_amount() == 0,
            final(self).recs() == Seq::<GRecord>::empty(),
            final(self).contents().len() == old(self).contents().len(),
            forall|e: int|
                final(self).spec_store().fits_end(e) == old(self).spec_store().fits_end(e),
            forall|j: int|
                8 <= j < old(self).contents().len() ==> final(self).contents()[j] == old(self).contents()[j],
    {
        proof {
            old(self).spec_store().lemma_fits_end_within(4);
            old(self).spec_store().lemma_fits_end_within(8);
        }
        let r1 = self.write_u32(0, 0);
        match r1 {
            Ok(_) => {},
            Err(e) => {
                proof {
                    assert(false);
                }
                return Err(e);
            },
        }
        let r2 = self.write_u32(4, 0);
        match r2 {
            Ok(_) => {},
            Err(e) => {
                proof {
                    assert(false);
                }
                return Err(e);
            },
        }
        proof {
            let c2 = self.contents();
            lemma_le32_round_trip(0);
            assert(c2.subrange(0, 4) =~= le32_bytes(0));
            assert(c2.subrange(4, 8) =~= le32_bytes(0));
            assert(hdr_size(c2) == 0);
            assert(hdr_amount(c2) == 0);
            assert(parse_at(c2, 8, 0) == Some(Seq::<GRecord>::empty()));
            assert(footprint(Seq::<GRecord>::empty()) == 0);
        }
        Ok(())
    }
}

impl<K> Kv<K, FnvHasher, HeapDataStore> where FnvHasher: KvHasher<K> {
    /// Create an empty store on the growable heap backend, keyed by the
    /// library's FNV-1a hasher.
    pub fn new() -> (kv: Self)
        ensures
            kv.wf(),
            kv.recs() == Seq::<GRecord>::empty(),
            kv.spec_size() == 0,
            kv.spec_amount() == 0,
            kv.spec_hasher() == (FnvHasher {  }),
    {
        let kv = Self::with_hasher_and_store(FnvHasher::new(), HeapDataStore::new());
        proof {
            let c = kv.contents();
            lemma_le32_round_trip(0);
            assert(c.subrange(0, 4) =~= le32_bytes(0));
            assert(c.subrange(4, 8) =~= le32_bytes(0));
            assert(hdr_size(c) == 0);
            assert(hdr_amount(c) == 0);
            assert(parse_at(c, 8, 0) == Some(Seq::<GRecord>::empty()));
            assert(footprint(Seq::<GRecord>::empty()) == 0);
        }
        kv
    }
}

impl<K> Default for Kv<K, FnvHasher, HeapDataStore> where FnvHasher: KvHasher<K> {
    /// An empty store on the growable heap backend, as `new` makes it.
    fn default() -> (kv: Self)
        ensures
            kv.wf(),
            kv.recs() == Seq::<GRecord>::empty(),
            kv.spec_size() == 0,
            kv.spec_amount() == 0,
    {
        Self::new()
    }
}

} // verus!
