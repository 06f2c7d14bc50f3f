use bytekv::{
    HeapDataStore, InMemoryKvDataStore, InMemoryKvDataStoreError, KvDataAccess,
    SliceDataStoreError, StaticDataStore,
};

#[test]
fn growable_exact_growth() {
    // backend seeded at 4 bytes
    let mut hd = HeapDataStore::with_capacity(4);
    assert_eq!(hd.len(), 4);
    // header-sized write within the seed capacity: no growth
    assert_eq!(hd.write(0, &[1, 2, 3, 4]).unwrap(), 4);
    assert_eq!(hd.len(), 4);
    // a record footprint of 8 bytes at offset 4 does not fit: exactly one
    // growth step (to the write's end, at least doubling), then the write
    // succeeds
    assert_eq!(hd.write(4, &[9, 8, 7, 6, 5, 4, 3, 2]).unwrap(), 8);
    assert_eq!(hd.len(), 12);
    // the previously written header bytes are unchanged
    assert_eq!(hd.read(0, 4).unwrap(), vec![1, 2, 3, 4]);
    assert_eq!(hd.read(4, 8).unwrap(), vec![9, 8, 7, 6, 5, 4, 3, 2]);
}

#[test]
fn growable_growth_preserves_and_zero_fills() {
    let mut hd = HeapDataStore::with_capacity(8);
    assert_eq!(hd.write(0, &[1, 1, 1, 1, 2, 2, 2, 2]).unwrap(), 8);
    // grow by writing past the end; the gap bytes are zero
    assert_eq!(hd.write(12, &[7, 7]).unwrap(), 2);
    assert_eq!(hd.len(), 16);
    assert_eq!(
        hd.read(0, 16).unwrap(),
        vec![1, 1, 1, 1, 2, 2, 2, 2, 0, 0, 0, 0, 7, 7, 0, 0]
    );
}

#[test]
fn growable_reads_never_grow() {
    let hd = HeapDataStore::with_capacity(4);
    assert!(hd.read(0, 5).is_err());
    assert_eq!(hd.len(), 4);
}

#[test]
fn static_store_boundary() {
    let mut st = StaticDataStore::<8>::new();
    // writing exactly up to the last valid byte succeeds
    assert_eq!(st.write(0, &[1, 2, 3, 4, 5, 6, 7, 8]).unwrap(), 8);
    assert_eq!(st.write(7, &[9]).unwrap(), 1);
    // one byte past capacity fails with the out-of-space error
    assert!(matches!(
        st.write(1, &[1, 2, 3, 4, 5, 6, 7, 8]),
        Err(SliceDataStoreError::OutOfMemory)
    ));
    assert!(matches!(st.write(8, &[1]), Err(SliceDataStoreError::OutOfMemory)));
    // the failed writes changed nothing
    assert_eq!(st.read(0, 8).unwrap(), vec![1, 2, 3, 4, 5, 6, 7, 9]);
    // reads obey the same bound
    assert!(st.read(0, 8).is_ok());
    assert!(st.read(1, 8).is_err());
}

#[test]
fn in_memory_store_boundary() {
    let mut st = InMemoryKvDataStore::<8>::new();
    assert_eq!(st.write(0, &[1, 2, 3, 4, 5, 6, 7, 8]).unwrap(), 8);
    assert!(matches!(
        st.write(8, &[1]),
        Err(InMemoryKvDataStoreError::OutOfMemory)
    ));
    assert_eq!(st.read(0, 8).unwrap(), vec![1, 2, 3, 4, 5, 6, 7, 8]);
    assert!(st.read(1, 8).is_err());
}

#[test]
fn byte_vec_store_boundary() {
    let mut region: Vec<u8> = vec![0; 8];
    assert_eq!(KvDataAccess::write(&mut region, 0, &[1, 2, 3, 4, 5, 6, 7, 8]).unwrap(), 8);
    assert!(matches!(
        KvDataAccess::write(&mut region, 8, &[1]),
        Err(SliceDataStoreError::OutOfMemory)
    ));
    assert_eq!(KvDataAccess::read(&region, 0, 8).unwrap(), vec![1, 2, 3, 4, 5, 6, 7, 8]);
    assert!(KvDataAccess::read(&region, 1, 8).is_err());
    // the region length never changed
    assert_eq!(region.len(), 8);
}

#[test]
fn growable_write_with_growth_is_the_write() {
    let mut hd = HeapDataStore::with_capacity(4);
    assert_eq!(hd.write_with_growth(0, &[1, 2, 3, 4]).unwrap(), 4);
    assert_eq!(hd.len(), 4);
    assert_eq!(hd.write_with_growth(4, &[5, 5]).unwrap(), 2);
    // the grown length at least doubles and admits the write
    assert_eq!(hd.len(), 8);
    assert_eq!(hd.read(0, 8).unwrap(), vec![1, 2, 3, 4, 5, 5, 0, 0]);
}
