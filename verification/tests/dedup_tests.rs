use feedpipe::dedup::DedupStore;

#[test]
fn empty_store_contains_nothing() {
    let store = DedupStore::new();
    assert!(!store.contains(&"feed".to_string(), &"key".to_string()));
}

#[test]
fn record_then_contains() {
    let mut store = DedupStore::new();
    let feed = "https://example.org/a.xml".to_string();
    let key = "https://example.org/post/1".to_string();
    store.record(&feed, &key);
    assert!(store.contains(&feed, &key));
    assert!(!store.contains(&feed, &"other".to_string()));
}

#[test]
fn record_is_idempotent() {
    let mut store = DedupStore::new();
    let feed = "f".to_string();
    let key = "k".to_string();
    store.record(&feed, &key);
    store.record(&feed, &key);
    assert!(store.contains(&feed, &key));
}

#[test]
fn feeds_are_independent_partitions() {
    let mut store = DedupStore::new();
    let feed1 = "feed-one".to_string();
    let feed2 = "feed-two".to_string();
    let key = "shared-key".to_string();
    store.record(&feed1, &key);
    assert!(store.contains(&feed1, &key));
    assert!(!store.contains(&feed2, &key));
    store.record(&feed2, &key);
    assert!(store.contains(&feed2, &key));
}
