use lore_revision::repository::caches::StoreCaches;

#[test]
fn open_stores_are_found_by_path() {
    let mut caches = StoreCaches::new();
    assert_eq!(caches.get_cached_immutable_store("/r/.lore"), None);
    caches.cache_immutable_store("/r/.lore", 1);
    caches.cache_mutable_store("/r/.lore", 2);
    assert_eq!(caches.get_cached_immutable_store("/r/.lore"), Some(1));
    assert_eq!(caches.get_cached_mutable_store("/r/.lore"), Some(2));
    assert_eq!(caches.get_cached_mutable_store("/s/.lore"), None);
    caches.cache_mutable_store("/r/.lore", 3);
    assert_eq!(caches.get_cached_mutable_store("/r/.lore"), Some(3));
    assert_eq!(caches.get_cached_immutable_store("/r/.lore"), Some(1));
}

#[test]
fn memory_stores_are_kept_in_pairs() {
    let mut caches = StoreCaches::new();
    assert_eq!(caches.get_cached_in_memory_stores("/r/.lore"), None);
    caches.cache_in_memory_stores("/r/.lore", 4, 5);
    assert_eq!(caches.get_cached_in_memory_stores("/r/.lore"), Some((4, 5)));
    assert_eq!(caches.get_cached_immutable_store("/r/.lore"), None);
}

#[test]
fn released_repository_has_no_stores() {
    let mut caches = StoreCaches::new();
    caches.cache_immutable_store("/r/.urc", 1);
    caches.cache_mutable_store("/r/.lore", 2);
    caches.cache_in_memory_stores("/r/.lore", 3, 4);
    caches.cache_immutable_store("/s/.lore", 5);
    caches.repository_release("/r/.urc", "/r/.lore");
    assert_eq!(caches.get_cached_immutable_store("/r/.urc"), None);
    assert_eq!(caches.get_cached_mutable_store("/r/.lore"), None);
    assert_eq!(caches.get_cached_in_memory_stores("/r/.lore"), None);
    assert_eq!(caches.get_cached_immutable_store("/s/.lore"), Some(5));
}
