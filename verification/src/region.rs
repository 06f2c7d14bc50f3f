//! The mathematical model of the region layout.
//!
//! The backing memory is a flat byte sequence: a 32-bit payload size at
//! offset 0, a 32-bit record count at offset 4, and from offset 8 the
//! records, back to back — each one a 32-bit key field, a 32-bit size field,
//! and that many data bytes.  `parse_at` reads this layout into a sequence of
//! `GRecord`s; `region_wf` says when a byte sequence is a well-formed region;
//! `scan_pos` models the linear scan the store runs over the record headers.

use crate::bytes::le32;
use vstd::prelude::*;

verus! {

/// The reserved key value that marks a tombstoned record.
pub const TOMBSTONE_KEY: u32 = 0xFFFF_FFFF;

/// One parsed record: its key field, the offset of its header, and its data
/// bytes.
pub ghost struct GRecord {
    pub key: u32,
    pub start: int,
    pub data: Seq<u8>,
}

/// The record `r` becomes when it is tombstoned: sentinel key, data wiped to
/// `0xFF`, size kept.
pub open spec fn tombstoned(r: GRecord) -> GRecord {
    GRecord { key: TOMBSTONE_KEY, start: r.start, data: Seq::new(r.data.len(), |i: int| 0xFFu8) }
}

/// The payload size field of the region header.
pub open spec fn hdr_size(c: Seq<u8>) -> u32 {
    le32(c.subrange(0, 4))
}

/// The record count field of the region header.
pub open spec fn hdr_amount(c: Seq<u8>) -> u32 {
    le32(c.subrange(4, 8))
}

/// The key field of a record header at offset `addr`.
pub open spec fn rec_key_at(c: Seq<u8>, addr: int) -> u32 {
    le32(c.subrange(addr, addr + 4))
}

/// The size field of a record header at offset `addr`.
pub open spec fn rec_size_at(c: Seq<u8>, addr: int) -> u32 {
    le32(c.subrange(addr + 4, addr + 8))
}

/// Parse `n` records laid back to back from offset `addr`, or nothing if
/// they do not all fit.
pub open spec fn parse_at(c: Seq<u8>, addr: int, n: nat) -> Option<Seq<GRecord>>
    decreases n,
{
    if n == 0 {
        Some(Seq::<GRecord>::empty())
    } else if 0 <= addr && addr + 8 <= c.len() {
        let sz = rec_size_at(c, addr) as int;
        if addr + 8 + sz <= c.len() {
            match parse_at(c, addr + 8 + sz, (n - 1) as nat) {
                Some(rest) => Some(
                    seq![
                        GRecord {
                            key: rec_key_at(c, addr),
                            start: addr,
                            data: c.subrange(addr + 8, addr + 8 + sz),
                        },
                    ] + rest,
                ),
                None => None,
            }
        } else {
            None
        }
    } else {
        None
    }
}

/// The bytes a record sequence occupies: eight header bytes plus the data,
/// for each record.
pub open spec fn footprint(rs: Seq<GRecord>) -> int
    decreases rs.len(),
{
    if rs.len() == 0 {
        0
    } else {
        8 + rs[0].data.len() + footprint(rs.drop_first())
    }
}

/// The index of the first record at or after `i` whose key field is `h`, or
/// the length when there is none.
pub open spec fn scan_pos_from(rs: Seq<GRecord>, h: u32, i: int) -> int
    decreases rs.len() - i,
{
    if i >= rs.len() {
        rs.len() as int
    } else if rs[i].key == h {
        i
    } else {
        scan_pos_from(rs, h, i + 1)
    }
}

/// The index of the first record whose key field is `h`, or the length when
/// there is none.
pub open spec fn scan_pos(rs: Seq<GRecord>, h: u32) -> int {
    scan_pos_from(rs, h, 0)
}

/// The first record whose key field is `h`, if any: what the store's linear
/// scan finds.
pub open spec fn scan(rs: Seq<GRecord>, h: u32) -> Option<GRecord> {
    if scan_pos(rs, h) < rs.len() {
        Some(rs[scan_pos(rs, h)])
    } else {
        None
    }
}

/// At most one record carries any given live key; only the sentinel may
/// repeat.
pub open spec fn keys_unique(rs: Seq<GRecord>) -> bool {
    forall|i: int, j: int|
        0 <= i < j < rs.len() && rs[i].key == rs[j].key ==> rs[i].key == TOMBSTONE_KEY
}

/// The records of a region (meaningful when `region_wf` holds).
pub open spec fn region_recs(c: Seq<u8>) -> Seq<GRecord> {
    parse_at(c, 8, hdr_amount(c) as nat)->Some_0
}

/// A well-formed region: the header is present, exactly `amount` records
/// parse from offset 8, they occupy exactly `size` bytes, everything fits
/// both the region and the 32-bit address space, and live keys are unique.
pub open spec fn region_wf(c: Seq<u8>) -> bool {
    &&& c.len() >= 8
    &&& parse_at(c, 8, hdr_amount(c) as nat) is Some
    &&& footprint(region_recs(c)) == hdr_size(c)
    &&& 8 + hdr_size(c) <= c.len()
    &&& 8 + hdr_size(c) <= u32::MAX
    &&& keys_unique(region_recs(c))
}

/// The offset just past the last record of a well-formed region.
pub open spec fn region_end(c: Seq<u8>) -> int {
    8 + hdr_size(c)
}

/// What a successful parse pins down: the record count, the headers' fields,
/// the contiguous layout, and the bounds of every record.
#[verifier::rlimit(100)]
#[verifier::spinoff_prover]
pub proof fn lemma_parse_structure(c: Seq<u8>, addr: int, n: nat)
    requires
        0 <= addr,
        parse_at(c, addr, n) is Some,
    ensures
        ({
            let rs = parse_at(c, addr, n)->Some_0;
            &&& rs.len() == n
            &&& footprint(rs) >= 8 * n
            &&& (n == 0 ==> footprint(rs) == 0)
            &&& (n > 0 ==> addr + footprint(rs) <= c.len())
            &&& (n > 0 ==> rs[0].start == addr)
            &&& (n > 0 ==> rs[n - 1].start + 8 + rs[n - 1].data.len() == addr + footprint(rs))
            &&& forall|i: int|
                0 <= i < n - 1 ==> #[trigger] rs[i + 1].start == rs[i].start + 8
                    + rs[i].data.len()
            &&& forall|i: int|
                0 <= i < n ==> addr <= #[trigger] rs[i].start && rs[i].start + 8
                    + rs[i].data.len() <= addr + footprint(rs)
            &&& forall|i: int, j: int|
                0 <= i < j < n ==> #[trigger] rs[i].start + 8 + rs[i].data.len()
                    <= #[trigger] rs[j].start
            &&& forall|i: int|
                0 <= i < n ==> {
                    &&& #[trigger] rs[i].key == rec_key_at(c, rs[i].start)
                    &&& rs[i].data.len() == rec_size_at(c, rs[i].start)
                    &&& rs[i].data == c.subrange(
                        rs[i].start + 8,
                        rs[i].start + 8 + rec_size_at(c, rs[i].start),
                    )
                }
        }),
    decreases n,
{
    if n == 0 {
    } else {
        let sz = rec_size_at(c, addr) as int;
        let rest = parse_at(c, addr + 8 + sz, (n - 1) as nat)->Some_0;
        let head = GRecord {
            key: rec_key_at(c, addr),
            start: addr,
            data: c.subrange(addr + 8, addr + 8 + sz),
        };
        let rs = parse_at(c, addr, n)->Some_0;
        lemma_parse_structure(c, addr + 8 + sz, (n - 1) as nat);
        assert(rs =~= seq![head] + rest);
        assert(rs.drop_first() =~= rest);
        assert(footprint(rs) == 8 + sz + footprint(rest));
        assert(head.data.len() == sz);
        assert(rs[0] == head);
        assert(forall|i: int| 1 <= i < n ==> rs[i] == rest[i - 1]);
        assert(n - 1 > 0 ==> rs[1].start == rest[0].start == addr + 8 + sz);
        assert(rs.len() == n);
        assert(footprint(rs) >= 8 * n);
        assert(addr + footprint(rs) <= c.len());
        assert(rs[n - 1].start + 8 + rs[n - 1].data.len() == addr + footprint(rs)) by {
            if n == 1 {
                assert(rs[0] == head);
            } else {
                assert(rs[n - 1] == rest[n - 2]);
            }
        }
        assert forall|i: int| 0 <= i < n implies addr <= #[trigger] rs[i].start && rs[i].start + 8
            + rs[i].data.len() <= addr + footprint(rs) by {
            if i > 0 {
                assert(rs[i] == rest[i - 1]);
                assert(addr + 8 + sz <= rest[i - 1].start && rest[i - 1].start + 8 + rest[i
                    - 1].data.len() <= addr + 8 + sz + footprint(rest));
            }
        }
        assert forall|i: int| 0 <= i < n implies {
            &&& #[trigger] rs[i].key == rec_key_at(c, rs[i].start)
            &&& rs[i].data.len() == rec_size_at(c, rs[i].start)
            &&& rs[i].data == c.subrange(
                rs[i].start + 8,
                rs[i].start + 8 + rec_size_at(c, rs[i].start),
            )
        } by {
            if i > 0 {
                assert(rs[i] == rest[i - 1]);
                assert(rest[i - 1].key == rec_key_at(c, rest[i - 1].start));
                assert(rest[i - 1].data.len() == rec_size_at(c, rest[i - 1].start));
                assert(rest[i - 1].data == c.subrange(
                    rest[i - 1].start + 8,
                    rest[i - 1].start + 8 + rec_size_at(c, rest[i - 1].start),
                ));
            }
        }
        assert forall|i: int| 0 <= i < n - 1 implies #[trigger] rs[i + 1].start == rs[i].start + 8
            + rs[i].data.len() by {
            if i == 0 {
                assert(rs[1] == rest[0]);
            } else {
                assert(rs[i + 1] == rest[i] && rs[i] == rest[i - 1]);
            }
        }
        assert forall|i: int, j: int| 0 <= i < j < n implies #[trigger] rs[i].start + 8
            + rs[i].data.len() <= #[trigger] rs[j].start by {
            if i == 0 {
                assert(rs[j] == rest[j - 1]);
                assert(addr + 8 + sz <= rest[j - 1].start);
            } else {
                assert(rs[i] == rest[i - 1] && rs[j] == rest[j - 1]);
            }
        }
    }
}

/// Parsing reads only the bytes the records occupy: any byte sequence that
/// agrees there, and is long enough, parses identically.
pub proof fn lemma_parse_frame(c1: Seq<u8>, c2: Seq<u8>, addr: int, n: nat)
    requires
        0 <= addr,
        parse_at(c1, addr, n) is Some,
        c2.len() >= addr + footprint(parse_at(c1, addr, n)->Some_0),
        forall|j: int|
            addr <= j < addr + footprint(parse_at(c1, addr, n)->Some_0) ==> c2[j] == c1[j],
    ensures
        parse_at(c2, addr, n) == parse_at(c1, addr, n),
    decreases n,
{
    if n == 0 {
        assert(parse_at(c2, addr, n) =~= parse_at(c1, addr, n));
    } else {
        lemma_parse_structure(c1, addr, n);
        let sz = rec_size_at(c1, addr) as int;
        let rest = parse_at(c1, addr + 8 + sz, (n - 1) as nat)->Some_0;
        let rs = parse_at(c1, addr, n)->Some_0;
        assert(rs.drop_first() =~= rest);
        assert(footprint(rs) == 8 + sz + footprint(rest));
        assert(c2.subrange(addr, addr + 4) =~= c1.subrange(addr, addr + 4));
        assert(c2.subrange(addr + 4, addr + 8) =~= c1.subrange(addr + 4, addr + 8));
        assert(rec_size_at(c2, addr) == sz);
        assert(rec_key_at(c2, addr) == rec_key_at(c1, addr));
        assert(c2.subrange(addr + 8, addr + 8 + sz) =~= c1.subrange(addr + 8, addr + 8 + sz));
        lemma_parse_structure(c1, addr + 8 + sz, (n - 1) as nat);
        lemma_parse_frame(c1, c2, addr + 8 + sz, (n - 1) as nat);
        assert(parse_at(c2, addr, n)->Some_0 =~= parse_at(c1, addr, n)->Some_0);
    }
}

/// The footprint of a longer record sequence.
pub proof fn lemma_footprint_push(rs: Seq<GRecord>, r: GRecord)
    ensures
        footprint(rs.push(r)) == footprint(rs) + 8 + r.data.len(),
    decreases rs.len(),
{
    if rs.len() == 0 {
        assert(rs.push(r)[0] == r);
        assert(rs.push(r).drop_first() =~= Seq::<GRecord>::empty());
        assert(footprint(Seq::<GRecord>::empty()) == 0);
        assert(footprint(rs.push(r)) == 8 + r.data.len());
    } else {
        assert(rs.push(r)[0] == rs[0]);
        assert(rs.push(r).drop_first() =~= rs.drop_first().push(r));
        lemma_footprint_push(rs.drop_first(), r);
    }
}

/// Replacing a record by one of the same data length keeps the footprint.
pub proof fn lemma_footprint_update(rs: Seq<GRecord>, i: int, r: GRecord)
    requires
        0 <= i < rs.len(),
        r.data.len() == rs[i].data.len(),
    ensures
        footprint(rs.update(i, r)) == footprint(rs),
    decreases rs.len(),
{
    if i == 0 {
        assert(rs.update(0, r).drop_first() =~= rs.drop_first());
    } else {
        assert(rs.update(i, r).drop_first() =~= rs.drop_first().update(i - 1, r));
        lemma_footprint_update(rs.drop_first(), i - 1, r);
    }
}

/// Appending one record behind a parsed run extends the parse by exactly
/// that record, provided the old records' bytes are kept and the new header
/// fields are in place.
pub proof fn lemma_parse_append(c1: Seq<u8>, c2: Seq<u8>, addr: int, n: nat, k: u32, d: Seq<u8>)
    requires
        0 <= addr,
        parse_at(c1, addr, n) is Some,
        ({
            let end = addr + footprint(parse_at(c1, addr, n)->Some_0);
            &&& c2.len() >= end + 8 + d.len()
            &&& forall|j: int| addr <= j < end ==> c2[j] == c1[j]
            &&& rec_key_at(c2, end) == k
            &&& rec_size_at(c2, end) == d.len()
            &&& c2.subrange(end + 8, end + 8 + d.len()) == d
        }),
    ensures
        parse_at(c2, addr, (n + 1) as nat) == Some(
            parse_at(c1, addr, n)->Some_0.push(
                GRecord { key: k, start: addr + footprint(parse_at(c1, addr, n)->Some_0), data: d },
            ),
        ),
    decreases n,
{
    let rs = parse_at(c1, addr, n)->Some_0;
    let end = addr + footprint(rs);
    let newrec = GRecord { key: k, start: end, data: d };
    if n == 0 {
        assert(footprint(rs) == 0);
        assert(end == addr);
        assert(parse_at(c2, addr + 8 + d.len(), 0) == Some(Seq::<GRecord>::empty()));
        assert(rec_size_at(c2, addr) as int == d.len());
        assert(parse_at(c2, addr, 1)->Some_0 =~= rs.push(newrec));
    } else {
        lemma_parse_structure(c1, addr, n);
        let sz = rec_size_at(c1, addr) as int;
        let rest = parse_at(c1, addr + 8 + sz, (n - 1) as nat)->Some_0;
        assert(rs.drop_first() =~= rest);
        assert(footprint(rs) == 8 + sz + footprint(rest));
        assert(c2.subrange(addr, addr + 4) =~= c1.subrange(addr, addr + 4));
        assert(c2.subrange(addr + 4, addr + 8) =~= c1.subrange(addr + 4, addr + 8));
        assert(rec_size_at(c2, addr) == sz);
        assert(rec_key_at(c2, addr) == rec_key_at(c1, addr));
        assert(c2.subrange(addr + 8, addr + 8 + sz) =~= c1.subrange(addr + 8, addr + 8 + sz));
        lemma_parse_structure(c1, addr + 8 + sz, (n - 1) as nat);
        lemma_parse_append(c1, c2, addr + 8 + sz, (n - 1) as nat, k, d);
        lemma_footprint_push(rest, newrec);
        assert(parse_at(c2, addr, (n + 1) as nat)->Some_0 =~= rs.push(newrec));
    }
}

/// Rewriting one record's key field and data bytes in place — its size field
/// kept, every byte outside its span kept — reparses to the same records
/// with exactly that one replaced.
#[verifier::rlimit(100)]
#[verifier::spinoff_prover]
pub proof fn lemma_parse_update(c1: Seq<u8>, c2: Seq<u8>, addr: int, n: nat, i: int)
    requires
        0 <= addr,
        parse_at(c1, addr, n) is Some,
        0 <= i < n,
        c2.len() == c1.len(),
        ({
            let rs = parse_at(c1, addr, n)->Some_0;
            let s = rs[i].start;
            let e = s + 8 + rs[i].data.len();
            &&& forall|j: int| 0 <= j < c1.len() && !(s <= j < e) ==> c2[j] == c1[j]
            &&& c2.subrange(s + 4, s + 8) == c1.subrange(s + 4, s + 8)
        }),
    ensures
        ({
            let rs = parse_at(c1, addr, n)->Some_0;
            let s = rs[i].start;
            let e = s + 8 + rs[i].data.len();
            parse_at(c2, addr, n) == Some(
                rs.update(
                    i,
                    GRecord { key: rec_key_at(c2, s), start: s, data: c2.subrange(s + 8, e) },
                ),
            )
        }),
    decreases n,
{
    lemma_parse_structure(c1, addr, n);
    let rs = parse_at(c1, addr, n)->Some_0;
    let s = rs[i].start;
    let e = s + 8 + rs[i].data.len();
    let newrec = GRecord { key: rec_key_at(c2, s), start: s, data: c2.subrange(s + 8, e) };
    let sz = rec_size_at(c1, addr) as int;
    let rest = parse_at(c1, addr + 8 + sz, (n - 1) as nat)->Some_0;
    assert(rs.drop_first() =~= rest);
    assert(footprint(rs) == 8 + sz + footprint(rest));
    lemma_parse_structure(c1, addr + 8 + sz, (n - 1) as nat);
    if i == 0 {
        assert(s == addr);
        assert(rec_size_at(c2, addr) == rec_size_at(c1, addr));
        assert(forall|j: int| e <= j < c1.len() ==> c2[j] == c1[j]);
        lemma_parse_frame(c1, c2, addr + 8 + sz, (n - 1) as nat);
        assert(parse_at(c2, addr, n)->Some_0 =~= rs.update(0, newrec));
    } else {
        // the head record's span ends at or before the changed record's span
        assert(rs[0].start + 8 + rs[0].data.len() <= rs[i].start);
        assert(c2.subrange(addr, addr + 4) =~= c1.subrange(addr, addr + 4));
        assert(c2.subrange(addr + 4, addr + 8) =~= c1.subrange(addr + 4, addr + 8));
        assert(rec_size_at(c2, addr) == sz);
        assert(rec_key_at(c2, addr) == rec_key_at(c1, addr));
        assert(c2.subrange(addr + 8, addr + 8 + sz) =~= c1.subrange(addr + 8, addr + 8 + sz));
        assert(rest[i - 1] == rs[i]);
        lemma_parse_update(c1, c2, addr + 8 + sz, (n - 1) as nat, i - 1);
        assert(parse_at(c2, addr, n)->Some_0 =~= rs.update(i, newrec));
    }
}

/// Where the scan lands: the position is in range, it is the first hit, and
/// everything before it misses.
pub proof fn lemma_scan_pos_props(rs: Seq<GRecord>, h: u32)
    ensures
        0 <= scan_pos(rs, h) <= rs.len(),
        scan_pos(rs, h) < rs.len() ==> rs[scan_pos(rs, h)].key == h,
        forall|j: int| 0 <= j < scan_pos(rs, h) ==> rs[j].key != h,
{
    lemma_scan_pos_from_props(rs, h, 0);
}

proof fn lemma_scan_pos_from_props(rs: Seq<GRecord>, h: u32, i: int)
    requires
        0 <= i <= rs.len(),
    ensures
        i <= scan_pos_from(rs, h, i) <= rs.len(),
        scan_pos_from(rs, h, i) < rs.len() ==> rs[scan_pos_from(rs, h, i)].key == h,
        forall|j: int| i <= j < scan_pos_from(rs, h, i) ==> rs[j].key != h,
    decreases rs.len() - i,
{
    if i < rs.len() && rs[i].key != h {
        lemma_scan_pos_from_props(rs, h, i + 1);
    }
}

/// A scan misses exactly when no record carries the key.
pub proof fn lemma_scan_none_iff(rs: Seq<GRecord>, h: u32)
    ensures
        scan(rs, h) is None <==> forall|j: int| 0 <= j < rs.len() ==> rs[j].key != h,
{
    lemma_scan_pos_props(rs, h);
}

/// A scan that missed, run again after a record is appended, finds exactly
/// the appended record when its key matches.
pub proof fn lemma_scan_push(rs: Seq<GRecord>, r: GRecord, h: u32)
    requires
        scan(rs, h) is None,
    ensures
        r.key == h ==> scan(rs.push(r), h) == Some(r),
        r.key != h ==> scan(rs.push(r), h) is None,
{
    lemma_scan_pos_props(rs, h);
    lemma_scan_pos_push_from(rs, r, h, 0);
    lemma_scan_pos_props(rs.push(r), h);
}

proof fn lemma_scan_pos_push_from(rs: Seq<GRecord>, r: GRecord, h: u32, i: int)
    requires
        0 <= i <= rs.len(),
        scan_pos(rs, h) == rs.len(),
    ensures
        scan_pos_from(rs.push(r), h, i) == if r.key == h {
            rs.len() as int
        } else {
            rs.len() + 1 as int
        },
    decreases rs.len() - i,
{
    lemma_scan_pos_props(rs, h);
    if i < rs.len() {
        assert(rs.push(r)[i] == rs[i]);
        assert(rs[i].key != h);
        lemma_scan_pos_push_from(rs, r, h, i + 1);
    } else {
        assert(i == rs.len());
        assert(rs.push(r)[i] == r);
        if r.key != h {
            assert(scan_pos_from(rs.push(r), h, i + 1) == rs.len() + 1);
        }
    }
}

/// Tombstoning the record a scan found makes the same scan miss, provided
/// the key is live and live keys are unique.
pub proof fn lemma_scan_after_tombstone(rs: Seq<GRecord>, h: u32)
    requires
        h != TOMBSTONE_KEY,
        keys_unique(rs),
        scan(rs, h) is Some,
    ensures
        scan(rs.update(scan_pos(rs, h), tombstoned(rs[scan_pos(rs, h)])), h) is None,
{
    lemma_scan_pos_props(rs, h);
    let p = scan_pos(rs, h);
    let rs2 = rs.update(p, tombstoned(rs[p]));
    assert forall|j: int| 0 <= j < rs2.len() implies rs2[j].key != h by {
        if j != p && rs[j].key == h {
            // two distinct records would carry the same live key
            assert(rs[p].key == rs[j].key);
        }
    }
    lemma_scan_none_iff(rs2, h);
}

} // verus!
