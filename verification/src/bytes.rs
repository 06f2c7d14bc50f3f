//! Little-endian 32-bit fields of the region layout.
//!
//! The region header and every record header are made of 32-bit fields laid
//! down as four little-endian bytes.  The spec functions here are kept open
//! and arithmetic, so that facts such as "four zero bytes decode to zero"
//! follow by computation.

use vstd::prelude::*;

verus! {

/// The 32-bit value four little-endian bytes decode to.
pub open spec fn le32(b: Seq<u8>) -> u32
    recommends
        b.len() == 4,
{
    (b[0] + b[1] * 0x100 + b[2] * 0x1_0000 + b[3] * 0x100_0000) as u32
}

/// The four little-endian bytes of a 32-bit value.
pub open spec fn le32_bytes(v: u32) -> Seq<u8> {
    seq![
        (v % 0x100) as u8,
        ((v / 0x100) % 0x100) as u8,
        ((v / 0x1_0000) % 0x100) as u8,
        ((v / 0x100_0000) % 0x100) as u8,
    ]
}

/// Decoding the bytes of a value gives the value back.
pub proof fn lemma_le32_round_trip(v: u32)
    ensures
        le32_bytes(v).len() == 4,
        le32(le32_bytes(v)) == v,
{
    let b = le32_bytes(v);
    assert(b[0] + b[1] * 0x100 + b[2] * 0x1_0000 + b[3] * 0x100_0000 == v) by (nonlinear_arith)
        requires
            b[0] == v % 0x100,
            b[1] == (v / 0x100) % 0x100,
            b[2] == (v / 0x1_0000) % 0x100,
            b[3] == (v / 0x100_0000) % 0x100,
    ;
}

/// Decode a 32-bit field from four bytes.
pub fn decode_u32(b: &[u8]) -> (v: u32)
    requires
        b@.len() == 4,
    ensures
        v == le32(b@),
{
    let b0: u32 = *vstd::slice::slice_index_get(b, 0) as u32;
    let b1: u32 = *vstd::slice::slice_index_get(b, 1) as u32;
    let b2: u32 = *vstd::slice::slice_index_get(b, 2) as u32;
    let b3: u32 = *vstd::slice::slice_index_get(b, 3) as u32;
    b0 + b1 * 0x100 + b2 * 0x1_0000 + b3 * 0x100_0000
}

/// Encode a 32-bit field as four bytes.
pub fn encode_u32(v: u32) -> (b: Vec<u8>)
    ensures
        b@ == le32_bytes(v),
{
    let mut b: Vec<u8> = Vec::new();
    b.push((v % 0x100) as u8);
    b.push(((v / 0x100) % 0x100) as u8);
    b.push(((v / 0x1_0000) % 0x100) as u8);
    b.push(((v / 0x100_0000) % 0x100) as u8);
    proof {
        assert(b@ =~= le32_bytes(v));
    }
    b
}

} // verus!
