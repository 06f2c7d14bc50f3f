//! A minimal append-only key/value byte store for byte-addressable backing
//! memory, together with two small fixed-capacity collections (a circular
//! queue and a stack).
//!
//! The record store (`Kv`) appends records of raw value bytes, tagged by a
//! 32-bit key hash, to a storage backend (`KvDataAccess`).  Values travel in
//! and out of the store through an explicit fixed-size byte codec
//! (`FixedBytes`), and keys through a pluggable hash capability (`KvHasher`).

pub mod access;
pub mod bytes;
pub mod codec;
pub mod datastore;
pub mod error;
pub mod hash;
pub mod heap;
pub mod kv;
pub mod laws;
pub mod queue;
pub mod region;
pub mod stack;

pub use access::KvDataAccess;
pub use codec::FixedBytes;
pub use datastore::{
    InMemoryKvDataStore, InMemoryKvDataStoreError, SliceDataStoreError, StaticDataStore,
};
pub use error::Error;
pub use hash::{FnvHasher, KvHasher};
pub use heap::HeapDataStore;
pub use kv::{Kv, KvError};
pub use queue::Queue;
pub use stack::Stack;
