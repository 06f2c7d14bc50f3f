use bytekv::{FnvHasher, KvHasher};

#[test]
fn fnv_known_values() {
    let h = FnvHasher::new();
    // 32-bit FNV-1a of the empty string is the offset basis
    assert_eq!(KvHasher::<&str>::hash(&h, &""), 0x811c_9dc5);
    // and of "a"
    assert_eq!(KvHasher::<&str>::hash(&h, &"a"), 0xe40c_292c);
}

#[test]
fn fnv_deterministic_across_instances() {
    let h1 = FnvHasher::new();
    let h2 = FnvHasher::new();
    assert_eq!(
        KvHasher::<&str>::hash(&h1, &"some key"),
        KvHasher::<&str>::hash(&h2, &"some key")
    );
    assert_eq!(KvHasher::<u64>::hash(&h1, &12345), KvHasher::<u64>::hash(&h2, &12345));
    assert_eq!(
        KvHasher::<String>::hash(&h1, &String::from("abc")),
        KvHasher::<&str>::hash(&h2, &"abc")
    );
}

#[test]
fn fnv_distinguishes_ordinary_keys() {
    let h = FnvHasher::new();
    assert_ne!(KvHasher::<&str>::hash(&h, &"a"), KvHasher::<&str>::hash(&h, &"b"));
    assert_ne!(KvHasher::<u64>::hash(&h, &1), KvHasher::<u64>::hash(&h, &2));
}
