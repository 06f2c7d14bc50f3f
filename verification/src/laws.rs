//! The store-level laws, proved once over the record model.
//!
//! Each law here is stated over the parsed record view that the operations
//! of `crate::kv` are specified against, so that together with those
//! contracts it pins down a behaviour across calls.

use crate::codec::FixedBytes;
use crate::region::{
    keys_unique, lemma_scan_after_tombstone, lemma_scan_none_iff, lemma_scan_push, scan, scan_pos,
    tombstoned, GRecord, TOMBSTONE_KEY,
};
use vstd::prelude::*;

verus! {

/// Conflict exclusivity: the record a successful insert appends for a key
/// absent from the store is found by the very next scan of that key — which
/// is exactly the condition under which a second insert of the same key
/// answers `Conflict` and leaves the store unchanged, whatever value it
/// carries.
pub proof fn lemma_conflict_exclusivity(rs: Seq<GRecord>, r: GRecord)
    requires
        scan(rs, r.key) is None,
    ensures
        scan(rs.push(r), r.key) == Some(r),
{
    lemma_scan_push(rs, r, r.key);
}

/// Round trip: the record a successful insert appends for value `v` is
/// scanned back under the same key with `v`'s own bytes, of `v`'s declared
/// size, and those bytes decode to `v` itself — so a get of `v`'s type
/// returns exactly `v`.
pub proof fn lemma_round_trip<T: FixedBytes>(rs: Seq<GRecord>, h: u32, start: int, v: T)
    requires
        scan(rs, h) is None,
    ensures
        ({
            let rec = GRecord { key: h, start, data: v.spec_bytes() };
            &&& scan(rs.push(rec), h) == Some(rec)
            &&& rec.data.len() == T::spec_size()
            &&& T::spec_of_bytes(rec.data) == v
        }),
{
    let rec = GRecord { key: h, start, data: v.spec_bytes() };
    lemma_scan_push(rs, rec, h);
    v.lemma_bytes_len();
    v.lemma_round_trip();
}

/// Tombstone finality: tombstoning the record the scan found under a live
/// key makes every further scan of that key miss — so `contains` is false
/// immediately, and a second forget answers `NotFound`.  A key whose hash
/// is the sentinel value itself is the one input left out: the scan cannot
/// tell such a key from a tombstone.
pub proof fn lemma_tombstone_finality(rs: Seq<GRecord>, h: u32)
    requires
        h != TOMBSTONE_KEY,
        keys_unique(rs),
        scan(rs, h) is Some,
    ensures
        scan(rs.update(scan_pos(rs, h), tombstoned(rs[scan_pos(rs, h)])), h) is None,
{
    lemma_scan_after_tombstone(rs, h);
}

/// Size-changing update rejected: after inserting `v1`, the record under
/// the key carries `v1`'s declared size, so an update with a value of a
/// different declared size meets the `SizeMismatch` condition of `update`
/// — which leaves the store unchanged — and a get of `v1`'s type still
/// decodes the original `v1`.
pub proof fn lemma_size_changing_update_rejected<T1: FixedBytes, T2: FixedBytes>(
    rs: Seq<GRecord>,
    h: u32,
    start: int,
    v1: T1,
)
    requires
        scan(rs, h) is None,
        T1::spec_size() != T2::spec_size(),
    ensures
        ({
            let rec = GRecord { key: h, start, data: v1.spec_bytes() };
            &&& scan(rs.push(rec), h) == Some(rec)
            &&& rec.data.len() == T1::spec_size()
            &&& rec.data.len() != T2::spec_size()
            &&& T1::spec_of_bytes(rec.data) == v1
        }),
{
    let rec = GRecord { key: h, start, data: v1.spec_bytes() };
    lemma_scan_push(rs, rec, h);
    v1.lemma_bytes_len();
    v1.lemma_round_trip();
}

/// Reset clears visibility: over the empty record view that `reset` leaves
/// behind, every scan misses — `contains` is false for every key, and the
/// next insert of any key finds no conflict.  The record bytes themselves
/// are untouched: `reset`'s own contract says every byte past the header is
/// kept.
pub proof fn lemma_reset_clears_visibility(h: u32)
    ensures
        scan(Seq::<GRecord>::empty(), h) is None,
{
    lemma_scan_none_iff(Seq::<GRecord>::empty(), h);
}

} // verus!
