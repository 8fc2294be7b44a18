use docvec::cache::CollectionCache;
use docvec::error::AppError;

#[test]
fn test_get_or_create_caches_one_handle_per_name() {
    let cache = CollectionCache::new();
    assert_eq!(cache.count(), 0);
    let a1 = cache.get_or_create("alpha", ":memory:", 3).unwrap();
    assert_eq!(a1.collection_name, "alpha");
    assert_eq!(a1.dimension, 3);
    let a2 = cache.get_or_create("alpha", ":memory:", 3).unwrap();
    assert_eq!(a2.collection_name, "alpha");
    assert_eq!(cache.count(), 1);
    let b = cache.get_or_create("beta", ":memory:", 5).unwrap();
    assert_eq!(b.collection_name, "beta");
    assert_eq!(cache.count(), 2);
    // repeated lookups still add nothing
    let _ = cache.get_or_create("alpha", ":memory:", 3).unwrap();
    let _ = cache.get_or_create("beta", ":memory:", 5).unwrap();
    assert_eq!(cache.count(), 2);
}

#[test]
fn test_construction_failure_is_not_cached() {
    let cache = CollectionCache::new();
    let r = cache.get_or_create("gamma", "/no_such_directory_anywhere/x.db3", 3);
    match r {
        Ok(_) => panic!("construction against a missing directory must fail"),
        Err(e) => assert_eq!(e, AppError::CacheConstruction),
    }
    assert_eq!(cache.count(), 0);
    // the next call retries; a good path now succeeds
    let h = cache.get_or_create("gamma", ":memory:", 3).unwrap();
    assert_eq!(h.collection_name, "gamma");
    assert_eq!(cache.count(), 1);
}
