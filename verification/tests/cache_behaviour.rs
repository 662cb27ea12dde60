use lru_cache::LRUCache;

#[test]
fn new_and_default_hold_one_entry() {
    let mut cache: LRUCache<u32, u32> = LRUCache::new();
    assert_eq!(cache.len(), 0);
    assert_eq!(cache.max_len(), 1);

    assert_eq!(cache.insert(1, 10), None);
    assert_eq!(cache.len(), 1);

    // capacity one: any fresh key evicts the only entry, discarding it
    assert_eq!(cache.insert(2, 20), None);
    assert_eq!(cache.len(), 1);
    assert_eq!(cache.get(&1), None);
    assert_eq!(cache.get(&2), Some(&20));

    let other: LRUCache<u32, u32> = LRUCache::default();
    assert_eq!(other.len(), 0);
    assert_eq!(other.max_len(), 1);
}

#[test]
fn collision_renews_recency() {
    let mut cache = LRUCache::with_max_len(2);
    cache.insert("a", 1);
    cache.insert("b", 2);

    // re-inserting "a" makes it most recently used...
    assert_eq!(cache.insert("a", 3), Some(("a", 1)));
    assert_eq!(cache.len(), 2);

    // ...so the next eviction takes "b", not "a"
    assert_eq!(cache.insert("c", 4), None);
    assert_eq!(cache.get(&"b"), None);
    assert_eq!(cache.get(&"a"), Some(&3));
    assert_eq!(cache.get(&"c"), Some(&4));
}

#[test]
fn resize_returns_evicted_in_lru_order() {
    let mut cache = LRUCache::with_max_len(3);
    cache.insert(1, 10);
    cache.insert(2, 20);
    cache.insert(3, 30);

    // renew key 1, so the eviction order becomes 2, 3, 1
    assert_eq!(cache.get(&1), Some(&10));

    let evicted = cache.resize(1);
    assert_eq!(evicted, vec![(2, 20), (3, 30)]);
    assert_eq!(cache.len(), 1);
    assert_eq!(cache.max_len(), 1);
    assert_eq!(cache.get(&1), Some(&10));
}

#[test]
fn resize_to_same_capacity_keeps_everything() {
    let mut cache = LRUCache::with_max_len(2);
    cache.insert(1, 10);
    cache.insert(2, 20);

    let evicted = cache.resize(2);
    assert!(evicted.is_empty());
    assert_eq!(cache.len(), 2);
    assert_eq!(cache.max_len(), 2);
    assert_eq!(cache.get(&1), Some(&10));
    assert_eq!(cache.get(&2), Some(&20));
}

#[test]
fn resize_empty_cache_lowers_capacity() {
    let mut cache: LRUCache<u32, u32> = LRUCache::with_max_len(5);
    assert_eq!(cache.get(&1), None);

    let evicted = cache.resize(2);
    assert!(evicted.is_empty());
    assert_eq!(cache.len(), 0);
    assert_eq!(cache.max_len(), 2);

    assert_eq!(cache.insert(1, 10), None);
    assert_eq!(cache.get(&1), Some(&10));
}

#[test]
fn iter_lists_every_entry_without_reordering() {
    let mut cache = LRUCache::with_max_len(3);
    cache.insert("one", 1);
    cache.insert("two", 2);
    cache.insert("three", 3);

    let listed: Vec<(&str, i32)> = cache.iter().into_iter().map(|(k, v)| (*k, *v)).collect();
    assert_eq!(listed.len(), 3);
    assert!(listed.contains(&("one", 1)));
    assert!(listed.contains(&("two", 2)));
    assert!(listed.contains(&("three", 3)));

    // listing twice gives the same entries and does not touch recency:
    // the next eviction still takes "one"
    let again = cache.iter();
    assert_eq!(again.len(), 3);
    cache.insert("four", 4);
    assert_eq!(cache.get(&"one"), None);
    assert_eq!(cache.get(&"two"), Some(&2));
}

#[test]
fn eviction_discards_instead_of_returning() {
    let mut cache = LRUCache::with_max_len(2);
    assert_eq!(cache.insert("x", 1), None);
    assert_eq!(cache.insert("y", 2), None);

    // a full cache evicts "x" for a fresh key, and the evicted pair is
    // discarded, not handed back
    assert_eq!(cache.insert("z", 3), None);
    assert_eq!(cache.len(), 2);
    assert_eq!(cache.get(&"x"), None);

    // a collision on a full cache hands the old pair back and evicts
    // nothing else
    assert_eq!(cache.insert("y", 4), Some(("y", 2)));
    assert_eq!(cache.len(), 2);
    assert_eq!(cache.get(&"z"), Some(&3));
}
