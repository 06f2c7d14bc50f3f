use bytekv::{FnvHasher, HeapDataStore, Kv, KvDataAccess, KvError, KvHasher, StaticDataStore};

#[test]
fn kv() {
    let mut kv = Kv::new();

    // Double insert
    assert!(kv.insert("a", 42i32).is_ok());
    assert!(kv.insert("a", 127i32).is_err());

    // "a" Should Exist
    assert!(kv.contains("a").is_ok());
    assert_eq!(kv.contains("a").unwrap(), true);

    // Get the value
    assert!(kv.get::<i32>("a").is_ok());
    assert_eq!(kv.get::<i32>("a").unwrap(), Some(42));

    // Double forget
    assert!(kv.forget("a").is_ok());
    assert!(kv.forget("a").is_err());

    // "a" Should Not Exist
    assert!(kv.contains("a").is_ok());
    assert_eq!(kv.contains("a").unwrap(), false);

    // Insert new value for key "a"
    assert!(kv.insert("a", 1u8).is_ok());

    // Get the value
    assert!(kv.get::<u8>("a").is_ok());
    assert_eq!(kv.get::<u8>("a").unwrap(), Some(1));

    // Update "a"
    assert!(kv.update("a", 2u8).is_ok());
    assert!(kv.update("a", 3u16).is_err());

    // Get the value
    assert!(kv.get::<u8>("a").is_ok());
    assert_eq!(kv.get::<u8>("a").unwrap(), Some(2));

    // Get the value with wrong size
    assert!(kv.get::<i32>("a").is_err());

    // Reset
    assert!(kv.reset().is_ok());

    // Try to get the value
    assert!(kv.get::<u8>("a").is_ok());
    assert_eq!(kv.get::<u8>("a").unwrap(), None);
}

#[test]
fn kv_conflict_regardless_of_size() {
    let mut kv = Kv::new();
    assert!(kv.insert("k", 1u8).is_ok());
    // a second insert under the same key conflicts whatever the value's type
    assert!(matches!(kv.insert("k", 2u64), Err(KvError::Conflict)));
    assert!(matches!(kv.insert("k", 3u8), Err(KvError::Conflict)));
    // the original value is untouched
    assert_eq!(kv.get::<u8>("k").unwrap(), Some(1));
}

#[test]
fn kv_round_trip_values() {
    let mut kv = Kv::new();
    assert!(kv.insert("u8", 0xABu8).is_ok());
    assert!(kv.insert("u16", 0xBEEFu16).is_ok());
    assert!(kv.insert("u32", 0xDEAD_BEEFu32).is_ok());
    assert!(kv.insert("u64", 0x0123_4567_89AB_CDEFu64).is_ok());
    assert!(kv.insert("i32", -123_456_789i32).is_ok());
    assert_eq!(kv.get::<u8>("u8").unwrap(), Some(0xAB));
    assert_eq!(kv.get::<u16>("u16").unwrap(), Some(0xBEEF));
    assert_eq!(kv.get::<u32>("u32").unwrap(), Some(0xDEAD_BEEF));
    assert_eq!(kv.get::<u64>("u64").unwrap(), Some(0x0123_4567_89AB_CDEF));
    assert_eq!(kv.get::<i32>("i32").unwrap(), Some(-123_456_789));
}

#[test]
fn kv_size_changing_update_rejected() {
    let mut kv = Kv::new();
    assert!(kv.insert("k", 0x1122_3344u32).is_ok());
    assert!(matches!(kv.update("k", 5u16), Err(KvError::SizeMismatch)));
    assert!(matches!(kv.update("k", 5u64), Err(KvError::SizeMismatch)));
    // the original bytes are still there
    assert_eq!(kv.get::<u32>("k").unwrap(), Some(0x1122_3344));
}

#[test]
fn kv_error_variants() {
    let mut kv = Kv::new();
    assert!(matches!(kv.update("missing", 1u8), Err(KvError::NotFound)));
    assert!(matches!(kv.forget("missing"), Err(KvError::NotFound)));
    assert!(kv.insert("k", 7u16).is_ok());
    assert!(matches!(kv.insert("k", 7u16), Err(KvError::Conflict)));
    assert!(matches!(kv.get::<u8>("k"), Err(KvError::SizeMismatch)));
}

#[test]
fn kv_reset_clears_visibility() {
    let mut kv = Kv::new();
    assert!(kv.insert("a", 9u32).is_ok());
    assert!(kv.size().unwrap() > 0);
    assert_eq!(kv.amount().unwrap(), 1);
    assert!(kv.reset().is_ok());
    assert_eq!(kv.contains("a").unwrap(), false);
    assert_eq!(kv.size().unwrap(), 0);
    assert_eq!(kv.amount().unwrap(), 0);
    // the key is free again
    assert!(kv.insert("a", 9u32).is_ok());
    assert_eq!(kv.get::<u32>("a").unwrap(), Some(9));
}

#[test]
fn kv_size_and_amount_track_inserts() {
    let mut kv = Kv::new();
    assert_eq!(kv.size().unwrap(), 0);
    assert_eq!(kv.amount().unwrap(), 0);
    assert!(kv.insert("a", 1u32).is_ok());
    // one record: 8 header bytes plus 4 data bytes
    assert_eq!(kv.size().unwrap(), 12);
    assert_eq!(kv.amount().unwrap(), 1);
    assert!(kv.insert("b", 2u8).is_ok());
    assert_eq!(kv.size().unwrap(), 21);
    assert_eq!(kv.amount().unwrap(), 2);
    // forget keeps both header fields: space is not reclaimed
    assert!(kv.forget("a").is_ok());
    assert_eq!(kv.size().unwrap(), 21);
    assert_eq!(kv.amount().unwrap(), 2);
    assert_eq!(kv.get::<u8>("b").unwrap(), Some(2));
}

#[test]
fn kv_on_static_store_out_of_space() {
    // 16 bytes: the 8-byte region header plus room for one tiny record
    let mut kv: Kv<&str, FnvHasher, StaticDataStore<16>> =
        Kv::with_hasher_and_store(FnvHasher::new(), StaticDataStore::new());
    // a u64 record needs 8 + 8 bytes beyond the header: out of space
    assert!(matches!(kv.insert("k", 7u64), Err(KvError::Store(_))));
    // the failed insert left the store unchanged
    assert_eq!(kv.contains("k").unwrap(), false);
    assert_eq!(kv.size().unwrap(), 0);
    assert_eq!(kv.amount().unwrap(), 0);
    let mut kv2: Kv<&str, FnvHasher, StaticDataStore<32>> =
        Kv::with_hasher_and_store(FnvHasher::new(), StaticDataStore::new());
    assert!(kv2.insert("k", 7u64).is_ok());
    assert_eq!(kv2.get::<u64>("k").unwrap(), Some(7));
}

#[test]
fn kv_on_growable_store_grows() {
    let mut kv: Kv<&str, FnvHasher, HeapDataStore> =
        Kv::with_hasher_and_store(FnvHasher::new(), HeapDataStore::with_capacity(16));
    // the record does not fit 16 bytes; the backend grows and the insert succeeds
    assert!(kv.insert("k", 0x0101_0202_0303_0404u64).is_ok());
    assert_eq!(kv.get::<u64>("k").unwrap(), Some(0x0101_0202_0303_0404));
    assert!(kv.insert("l", 5u32).is_ok());
    assert_eq!(kv.get::<u32>("l").unwrap(), Some(5));
}

#[test]
fn kv_u64_keys() {
    let mut kv: Kv<u64, FnvHasher, HeapDataStore> =
        Kv::with_hasher_and_store(FnvHasher::new(), HeapDataStore::new());
    assert!(kv.insert(5u64, 77u32).is_ok());
    assert!(kv.insert(6u64, 88u32).is_ok());
    assert_eq!(kv.get::<u32>(5u64).unwrap(), Some(77));
    assert_eq!(kv.get::<u32>(6u64).unwrap(), Some(88));
    assert!(kv.forget(5u64).is_ok());
    assert_eq!(kv.contains(5u64).unwrap(), false);
    assert_eq!(kv.contains(6u64).unwrap(), true);
}

#[test]
fn kv_tombstone_bytes_and_kept_size_field() {
    let mut kv = Kv::new();
    assert!(kv.insert("a", 0xABCDu16).is_ok());
    assert!(kv.forget("a").is_ok());
    // the header still counts the record and its bytes
    assert_eq!(kv.size().unwrap(), 10);
    assert_eq!(kv.amount().unwrap(), 1);
    // the record itself: sentinel key, kept size field, data wiped to 0xFF
    let raw = kv.store().read(8, 10).unwrap();
    assert_eq!(raw, vec![0xFF, 0xFF, 0xFF, 0xFF, 2, 0, 0, 0, 0xFF, 0xFF]);
}

#[test]
fn kv_scan_steps_over_tombstones() {
    let mut kv = Kv::new();
    assert!(kv.insert("a", 0x11u8).is_ok());
    assert!(kv.insert("b", 0x2222u16).is_ok());
    assert!(kv.forget("a").is_ok());
    // the record behind the tombstone is still reachable
    assert_eq!(kv.get::<u16>("b").unwrap(), Some(0x2222));
    // the key is free again, under a new size
    assert!(kv.insert("a", 0x3333_3333u32).is_ok());
    assert_eq!(kv.get::<u32>("a").unwrap(), Some(0x3333_3333));
    assert_eq!(kv.get::<u16>("b").unwrap(), Some(0x2222));
    assert_eq!(kv.amount().unwrap(), 3);
}

#[test]
fn kv_hasher_accessor_matches_store_hashing() {
    let mut kv = Kv::new();
    assert!(kv.insert("a", 1u8).is_ok());
    let h = KvHasher::<&str>::hash(kv.hasher(), &"a");
    // the record's key field holds exactly that hash
    let raw = kv.store().read(8, 4).unwrap();
    assert_eq!(u32::from_le_bytes([raw[0], raw[1], raw[2], raw[3]]), h);
}
