//! Fixed-size byte codecs for values kept in the record store.
//!
//! The store moves values in and out as opaque byte sequences.  A value type
//! that wants to live in the store supplies a `FixedBytes` codec: a declared
//! byte size, an encoding of a value into exactly that many bytes, and the
//! matching decoding.  Encoding consumes the value, mirroring the store's
//! ownership-transfer semantics; decoding of an encoded value gives the
//! original back, which every implementation proves.

use vstd::bytes::{
    lemma_auto_spec_u16_to_from_le_bytes, lemma_auto_spec_u32_to_from_le_bytes,
    lemma_auto_spec_u64_to_from_le_bytes, spec_u16_from_le_bytes, spec_u16_to_le_bytes,
    spec_u32_from_le_bytes, spec_u32_to_le_bytes, spec_u64_from_le_bytes, spec_u64_to_le_bytes,
    u16_from_le_bytes, u16_to_le_bytes, u32_from_le_bytes, u32_to_le_bytes, u64_from_le_bytes,
    u64_to_le_bytes,
};
use vstd::prelude::*;

verus! {

/// A value with a fixed-size raw byte layout.
///
/// `spec_bytes` is the mathematical encoding, `spec_of_bytes` its inverse on
/// encoded sequences; the executable `to_bytes` / `from_bytes` realise them.
/// Every implementation proves that the declared size is the encoded length
/// and that decoding an encoding restores the value exactly.
pub trait FixedBytes: Sized {
    /// The declared byte size of every value of this type.
    spec fn spec_size() -> int;

    /// The encoding of a value as a byte sequence.
    spec fn spec_bytes(&self) -> Seq<u8>;

    /// The value a byte sequence of the declared size decodes to.
    spec fn spec_of_bytes(b: Seq<u8>) -> Self;

    /// The declared size fits the store's 32-bit record size field.
    proof fn lemma_size_valid()
        ensures
            0 <= Self::spec_size() <= u32::MAX as int,
    ;

    /// A value encodes to exactly the declared number of bytes.
    proof fn lemma_bytes_len(&self)
        ensures
            self.spec_bytes().len() == Self::spec_size(),
    ;

    /// Decoding an encoded value restores the value.
    proof fn lemma_round_trip(&self)
        ensures
            Self::spec_of_bytes(self.spec_bytes()) == *self,
    ;

    /// The declared byte size, as a machine integer.
    fn byte_size() -> (n: usize)
        ensures
            n as int == Self::spec_size(),
    ;

    /// Encode a value, consuming it.
    fn to_bytes(self) -> (b: Vec<u8>)
        ensures
            b@ == self.spec_bytes(),
    ;

    /// Decode a value from exactly `spec_size` bytes.
    fn from_bytes(b: &[u8]) -> (v: Self)
        requires
            b@.len() == Self::spec_size(),
        ensures
            v == Self::spec_of_bytes(b@),
    ;
}

impl FixedBytes for u8 {
    open spec fn spec_size() -> int {
        1
    }

    open spec fn spec_bytes(&self) -> Seq<u8> {
        seq![*self]
    }

    open spec fn spec_of_bytes(b: Seq<u8>) -> Self {
        b[0]
    }

    proof fn lemma_size_valid() {
    }

    proof fn lemma_bytes_len(&self) {
    }

    proof fn lemma_round_trip(&self) {
    }

    fn byte_size() -> usize {
        1
    }

    fn to_bytes(self) -> (b: Vec<u8>) {
        let mut b: Vec<u8> = Vec::new();
        b.push(self);
        proof {
            assert(b@ =~= self.spec_bytes());
        }
        b
    }

    fn from_bytes(b: &[u8]) -> Self {
        b[0]
    }
}

impl FixedBytes for u16 {
    open spec fn spec_size() -> int {
        2
    }

    open spec fn spec_bytes(&self) -> Seq<u8> {
        spec_u16_to_le_bytes(*self)
    }

    open spec fn spec_of_bytes(b: Seq<u8>) -> Self {
        spec_u16_from_le_bytes(b)
    }

    proof fn lemma_size_valid() {
    }

    proof fn lemma_bytes_len(&self) {
        lemma_auto_spec_u16_to_from_le_bytes();
    }

    proof fn lemma_round_trip(&self) {
        lemma_auto_spec_u16_to_from_le_bytes();
        assert(spec_u16_to_le_bytes(*self).len() == 2);
    }

    fn byte_size() -> usize {
        2
    }

    fn to_bytes(self) -> (b: Vec<u8>) {
        u16_to_le_bytes(self)
    }

    fn from_bytes(b: &[u8]) -> Self {
        u16_from_le_bytes(b)
    }
}

impl FixedBytes for u32 {
    open spec fn spec_size() -> int {
        4
    }

    open spec fn spec_bytes(&self) -> Seq<u8> {
        spec_u32_to_le_bytes(*self)
    }

    open spec fn spec_of_bytes(b: Seq<u8>) -> Self {
        spec_u32_from_le_bytes(b)
    }

    proof fn lemma_size_valid() {
    }

    proof fn lemma_bytes_len(&self) {
        lemma_auto_spec_u32_to_from_le_bytes();
    }

    proof fn lemma_round_trip(&self) {
        lemma_auto_spec_u32_to_from_le_bytes();
        assert(spec_u32_to_le_bytes(*self).len() == 4);
    }

    fn byte_size() -> usize {
        4
    }

    fn to_bytes(self) -> (b: Vec<u8>) {
        u32_to_le_bytes(self)
    }

    fn from_bytes(b: &[u8]) -> Self {
        u32_from_le_bytes(b)
    }
}

impl FixedBytes for u64 {
    open spec fn spec_size() -> int {
        8
    }

    open spec fn spec_bytes(&self) -> Seq<u8> {
        spec_u64_to_le_bytes(*self)
    }

    open spec fn spec_of_bytes(b: Seq<u8>) -> Self {
        spec_u64_from_le_bytes(b)
    }

    proof fn lemma_size_valid() {
    }

    proof fn lemma_bytes_len(&self) {
        lemma_auto_spec_u64_to_from_le_bytes();
    }

    proof fn lemma_round_trip(&self) {
        lemma_auto_spec_u64_to_from_le_bytes();
    }

    fn byte_size() -> usize {
        8
    }

    fn to_bytes(self) -> (b: Vec<u8>) {
        u64_to_le_bytes(self)
    }

    fn from_bytes(b: &[u8]) -> Self {
        u64_from_le_bytes(b)
    }
}

/// The two's-complement 32-bit pattern of a signed value.
pub open spec fn spec_i32_bits(v: i32) -> u32 {
    if v >= 0 {
        v as u32
    } else {
        (v + 0x1_0000_0000) as u32
    }
}

/// The signed value of a two's-complement 32-bit pattern.
pub open spec fn spec_i32_of_bits(u: u32) -> i32 {
    if u < 0x8000_0000 {
        u as i32
    } else {
        (u - 0x1_0000_0000) as i32
    }
}

impl FixedBytes for i32 {
    open spec fn spec_size() -> int {
        4
    }

    open spec fn spec_bytes(&self) -> Seq<u8> {
        spec_u32_to_le_bytes(spec_i32_bits(*self))
    }

    open spec fn spec_of_bytes(b: Seq<u8>) -> Self {
        spec_i32_of_bits(spec_u32_from_le_bytes(b))
    }

    proof fn lemma_size_valid() {
    }

    proof fn lemma_bytes_len(&self) {
        lemma_auto_spec_u32_to_from_le_bytes();
    }

    proof fn lemma_round_trip(&self) {
        lemma_auto_spec_u32_to_from_le_bytes();
        assert(spec_u32_to_le_bytes(spec_i32_bits(*self)).len() == 4);
        assert(spec_i32_of_bits(spec_i32_bits(*self)) == *self);
    }

    fn byte_size() -> usize {
        4
    }

    fn to_bytes(self) -> (b: Vec<u8>) {
        let bits: u32 = if self >= 0 {
            self as u32
        } else {
            ((self as i64) + 0x1_0000_0000) as u32
        };
        u32_to_le_bytes(bits)
    }

    fn from_bytes(b: &[u8]) -> Self {
        let bits: u32 = u32_from_le_bytes(b);
        if bits < 0x8000_0000 {
            bits as i32
        } else {
            ((bits as i64) - 0x1_0000_0000) as i32
        }
    }
}

} // verus!
