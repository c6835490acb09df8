use stepviz::cache::LruCache;

#[test]
fn lru_new_is_empty() {
    let mut c: LruCache<u32> = LruCache::new(3);
    assert_eq!(c.len(), 0);
    assert_eq!(c.get("a"), None);
}

#[test]
fn lru_evicts_least_recently_inserted() {
    let mut c = LruCache::new(2);
    c.insert("a".to_string(), 1);
    c.insert("b".to_string(), 2);
    c.insert("c".to_string(), 3);
    assert_eq!(c.len(), 2);
    assert_eq!(c.get("a"), None);
    assert_eq!(c.get("b"), Some(2));
    assert_eq!(c.get("c"), Some(3));
}

#[test]
fn lru_get_protects_from_eviction() {
    let mut c = LruCache::new(2);
    c.insert("a".to_string(), 1);
    c.insert("b".to_string(), 2);
    assert_eq!(c.get("a"), Some(1));
    c.insert("c".to_string(), 3);
    assert_eq!(c.len(), 2);
    assert_eq!(c.get("b"), None);
    assert_eq!(c.get("a"), Some(1));
    assert_eq!(c.get("c"), Some(3));
}

#[test]
fn lru_get_keeps_size() {
    let mut c = LruCache::new(3);
    c.insert("a".to_string(), 1);
    c.insert("b".to_string(), 2);
    assert_eq!(c.get("a"), Some(1));
    assert_eq!(c.len(), 2);
    assert_eq!(c.get("zzz"), None);
    assert_eq!(c.len(), 2);
}

#[test]
fn lru_capacity_one_keeps_last() {
    let mut c = LruCache::new(1);
    c.insert("a".to_string(), 1);
    c.insert("b".to_string(), 2);
    assert_eq!(c.len(), 1);
    assert_eq!(c.get("a"), None);
    assert_eq!(c.get("b"), Some(2));
}

#[test]
fn lru_capacity_five_overflow() {
    let mut c = LruCache::new(5);
    for k in ["k0", "k1", "k2", "k3", "k4", "k5"] {
        c.insert(k.to_string(), k.len());
    }
    assert_eq!(c.len(), 5);
    assert_eq!(c.get("k0"), None);
    for k in ["k1", "k2", "k3", "k4", "k5"] {
        assert_eq!(c.get(k), Some(2));
    }
}

#[test]
fn lru_insert_existing_updates_without_eviction() {
    let mut c = LruCache::new(2);
    c.insert("a".to_string(), 1);
    c.insert("b".to_string(), 2);
    c.insert("a".to_string(), 10);
    assert_eq!(c.len(), 2);
    c.insert("c".to_string(), 3);
    assert_eq!(c.get("b"), None);
    assert_eq!(c.get("a"), Some(10));
}

#[test]
fn lru_remove_and_clear() {
    let mut c = LruCache::new(3);
    c.insert("a".to_string(), 1);
    c.insert("b".to_string(), 2);
    c.remove("a");
    c.remove("missing");
    assert_eq!(c.len(), 1);
    assert_eq!(c.get("a"), None);
    c.clear();
    assert_eq!(c.len(), 0);
    assert_eq!(c.get("b"), None);
}

#[test]
fn lru_capacity_zero_never_evicts() {
    let mut c = LruCache::new(0);
    c.insert("a".to_string(), 1);
    c.insert("b".to_string(), 2);
    assert_eq!(c.len(), 2);
}
