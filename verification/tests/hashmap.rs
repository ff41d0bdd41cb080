use bump_allocator::hashmap::{DefaultHasher, HashMap, MapKey};

#[test]
fn hasher_folds_bytes() {
    let mut h = DefaultHasher::new();
    h.write(&[0]);
    // 42 * 33 + 0
    assert_eq!(h.finish(), 1386);
    let mut h2 = DefaultHasher::new();
    h2.write(&[1, 2]);
    // (42 * 33 + 1) * 33 + 2
    assert_eq!(h2.finish(), (42 * 33 + 1) * 33 + 2);
}

#[test]
fn hasher_is_deterministic() {
    let mut h1 = DefaultHasher::new();
    let mut h2 = DefaultHasher::new();
    h1.write(&[10, 20, 30]);
    h2.write(&[10, 20, 30]);
    assert_eq!(h1.finish(), h2.finish());
}

#[test]
fn key_hash_is_deterministic() {
    let a: u64 = 0xdead_beef;
    let b: u64 = 0xdead_beef;
    assert_eq!(a.key_hash(), b.key_hash());
    assert!(a.key_eq(&b));
    assert!(!a.key_eq(&1));
}

#[test]
fn insert_then_get() {
    let mut m: HashMap<u64, u64> = HashMap::new();
    assert_eq!(m.get(&7), None);
    m.insert(7, 70);
    m.insert(8, 80);
    assert_eq!(m.get(&7), Some(&70));
    assert_eq!(m.get(&8), Some(&80));
    assert_eq!(m.get(&9), None);
}

#[test]
fn first_inserted_value_wins() {
    let mut m: HashMap<u64, &str> = HashMap::new();
    m.insert(1, "first");
    m.insert(1, "second");
    assert_eq!(m.get(&1), Some(&"first"));
}

#[test]
fn get_survives_bucket_collisions() {
    // more keys than buckets, so some bucket holds several chained pairs
    let mut m: HashMap<u64, u64> = HashMap::new();
    for k in 0..40u64 {
        m.insert(k, k * k);
    }
    for k in 0..40u64 {
        assert_eq!(m.get(&k), Some(&(k * k)));
    }
    assert_eq!(m.get(&41), None);
}

#[test]
fn iter_yields_every_pair() {
    let mut m: HashMap<u64, u64> = HashMap::new();
    for k in 0..20u64 {
        m.insert(k, 100 + k);
    }
    let mut seen: Vec<(u64, u64)> = Vec::new();
    let mut it = m.iter();
    while let Some((k, v)) = it.next() {
        seen.push((*k, *v));
    }
    assert_eq!(seen.len(), 20);
    for k in 0..20u64 {
        assert!(seen.contains(&(k, 100 + k)));
    }
}

#[test]
fn iter_of_empty_map_is_empty() {
    let m: HashMap<u64, u64> = HashMap::new();
    let mut it = m.iter();
    assert!(it.next().is_none());
    assert!(it.next().is_none());
}
