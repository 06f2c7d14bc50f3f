//! The key-hashing capability of the record store.
//!
//! The store never looks at a logical key directly: it depends only on the
//! ability to hash a key into a 32-bit value.  `KvHasher` captures that
//! capability; `FnvHasher` is the deterministic implementation supplied with
//! the library (32-bit FNV-1a).

use vstd::bytes::{spec_u64_to_le_bytes, u64_to_le_bytes};
use vstd::prelude::*;
use vstd::string::StrSliceExecFns;

verus! {

/// The capability to hash a logical key of type `K` into a 32-bit value.
///
/// `spec_hash` is the mathematical hash; `hash` computes it.  The store uses
/// the result as the on-region key field of a record.
pub trait KvHasher<K>: Sized {
    /// The mathematical hash of a key.
    spec fn spec_hash(&self, k: K) -> u32;

    /// Hash a key.
    fn hash(&self, k: &K) -> (h: u32)
        ensures
            h == self.spec_hash(*k),
    ;
}

/// One FNV-1a round: mix one 32-bit unit into the running hash.
pub open spec fn spec_fnv_step(h: u32, u: u32) -> u32 {
    ((((h ^ u) as u64) * 0x0100_0193) % 0x1_0000_0000) as u32
}

/// The hash after mixing the first `n` characters of `s` into the FNV-1a
/// offset basis.
pub open spec fn spec_fnv_chars_prefix(s: Seq<char>, n: int) -> u32
    decreases n,
{
    if n <= 0 {
        0x811c_9dc5u32
    } else {
        spec_fnv_step(spec_fnv_chars_prefix(s, n - 1), s[n - 1] as u32)
    }
}

/// The FNV-1a hash of a character sequence.
pub open spec fn spec_fnv_chars(s: Seq<char>) -> u32 {
    spec_fnv_chars_prefix(s, s.len() as int)
}

/// The hash after mixing the first `n` bytes of `s` into the FNV-1a offset
/// basis.
pub open spec fn spec_fnv_bytes_prefix(s: Seq<u8>, n: int) -> u32
    decreases n,
{
    if n <= 0 {
        0x811c_9dc5u32
    } else {
        spec_fnv_step(spec_fnv_bytes_prefix(s, n - 1), s[n - 1] as u32)
    }
}

/// The FNV-1a hash of a byte sequence.
pub open spec fn spec_fnv_bytes(s: Seq<u8>) -> u32 {
    spec_fnv_bytes_prefix(s, s.len() as int)
}

/// A deterministic 32-bit FNV-1a hasher for string and integer keys.
#[derive(Debug, Clone, Copy, PartialEq, Eq, Structural)]
pub struct FnvHasher {}

impl FnvHasher {
    /// Create the hasher.  It carries no state: equal keys always hash
    /// equally, across instances.
    pub fn new() -> (h: FnvHasher)
        ensures
            h == (FnvHasher {  }),
    {
        FnvHasher {  }
    }

    /// Mix one 32-bit unit into a running hash.
    fn step(h: u32, u: u32) -> (r: u32)
        ensures
            r == spec_fnv_step(h, u),
    {
        let x: u64 = ((h ^ u) as u64) * 0x0100_0193;
        (x % 0x1_0000_0000) as u32
    }

    /// Hash the characters of a string slice.
    fn hash_str(&self, s: &str) -> (h: u32)
        ensures
            h == spec_fnv_chars(s@),
    {
        let n: usize = s.unicode_len();
        let mut h: u32 = 0x811c_9dc5;
        let mut i: usize = 0;
        while i < n
            invariant
                n == s@.len(),
                0 <= i <= n,
                h == spec_fnv_chars_prefix(s@, i as int),
            decreases n - i,
        {
            let c: char = s.get_char(i);
            h = Self::step(h, c as u32);
            i = i + 1;
        }
        h
    }
}

impl<'a> KvHasher<&'a str> for FnvHasher {
    open spec fn spec_hash(&self, k: &'a str) -> u32 {
        spec_fnv_chars(k@)
    }

    fn hash(&self, k: &&'a str) -> (h: u32) {
        self.hash_str(*k)
    }
}

impl KvHasher<String> for FnvHasher {
    open spec fn spec_hash(&self, k: String) -> u32 {
        spec_fnv_chars(k@)
    }

    fn hash(&self, k: &String) -> (h: u32) {
        self.hash_str(k.as_str())
    }
}

impl KvHasher<u64> for FnvHasher {
    open spec fn spec_hash(&self, k: u64) -> u32 {
        spec_fnv_bytes(spec_u64_to_le_bytes(k))
    }

    fn hash(&self, k: &u64) -> (h: u32) {
        let bytes: Vec<u8> = u64_to_le_bytes(*k);
        let mut h: u32 = 0x811c_9dc5;
        let mut i: usize = 0;
        proof {
            vstd::bytes::lemma_auto_spec_u64_to_from_le_bytes();
        }
        while i < 8
            invariant
                bytes@ == spec_u64_to_le_bytes(*k),
                bytes@.len() == 8,
                0 <= i <= 8,
                h == spec_fnv_bytes_prefix(bytes@, i as int),
            decreases 8 - i,
        {
            let b: u8 = bytes[i];
            h = Self::step(h, b as u32);
            i = i + 1;
        }
        h
    }
}

} // verus!
