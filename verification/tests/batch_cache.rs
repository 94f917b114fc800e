use brush_ir::batch_cache::{BatchCache, CACHE_BUDGET_BYTES};
use std::sync::Arc;

#[test]
fn new_cache_is_empty_with_native_budget() {
    let cache: BatchCache<u32> = BatchCache::new(4);
    assert_eq!(cache.used_bytes(), 0);
    assert_eq!(cache.budget_bytes(), 6 * 1024 * 1024 * 1024);
    assert_eq!(CACHE_BUDGET_BYTES, 6_442_450_944);
    for i in 0..4 {
        assert!(cache.get(i).is_none());
    }
}

#[test]
fn insert_then_get_returns_same_batch() {
    let mut cache: BatchCache<String> = BatchCache::with_budget(3, 1000);
    let batch = Arc::new(String::from("view one"));
    cache.insert(1, batch.clone(), 100);
    let got = cache.get(1).expect("batch was admitted");
    assert!(Arc::ptr_eq(&got, &batch));
    assert_eq!(*got, "view one");
    assert!(cache.get(0).is_none());
    assert!(cache.get(2).is_none());
    assert_eq!(cache.used_bytes(), 100);
}

#[test]
fn filled_slot_is_never_replaced() {
    let mut cache: BatchCache<u32> = BatchCache::with_budget(2, 1000);
    let first = Arc::new(7u32);
    cache.insert(0, first.clone(), 10);
    cache.insert(0, Arc::new(8u32), 20);
    let got = cache.get(0).unwrap();
    assert!(Arc::ptr_eq(&got, &first));
    assert_eq!(*got, 7);
    assert_eq!(cache.used_bytes(), 10);
}

#[test]
fn budget_is_never_reached() {
    let mut cache: BatchCache<u32> = BatchCache::with_budget(4, 100);
    cache.insert(0, Arc::new(0), 60);
    assert_eq!(cache.used_bytes(), 60);
    // 60 + 40 == 100 is not below the budget: turned away.
    cache.insert(1, Arc::new(1), 40);
    assert!(cache.get(1).is_none());
    assert_eq!(cache.used_bytes(), 60);
    // 60 + 39 == 99 fits.
    cache.insert(2, Arc::new(2), 39);
    assert_eq!(*cache.get(2).unwrap(), 2);
    assert_eq!(cache.used_bytes(), 99);
    // Even an empty batch no longer fits once the total is one below the budget.
    cache.insert(3, Arc::new(3), 1);
    assert!(cache.get(3).is_none());
    assert_eq!(cache.used_bytes(), 99);
}

#[test]
fn exact_byte_accounting() {
    let mut cache: BatchCache<u32> = BatchCache::with_budget(3, 1_000_000);
    cache.insert(0, Arc::new(0), 123);
    cache.insert(1, Arc::new(1), 4567);
    cache.insert(2, Arc::new(2), 0);
    assert_eq!(cache.used_bytes(), 123 + 4567);
    assert!(cache.get(2).is_some());
}

#[test]
fn zero_budget_admits_nothing() {
    let mut cache: BatchCache<u32> = BatchCache::with_budget(1, 0);
    cache.insert(0, Arc::new(5), 0);
    assert!(cache.get(0).is_none());
    assert_eq!(cache.used_bytes(), 0);
}

#[test]
fn oversized_batch_does_not_overflow() {
    let mut cache: BatchCache<u32> = BatchCache::with_budget(2, u64::MAX);
    cache.insert(0, Arc::new(0), u64::MAX - 1);
    assert_eq!(cache.used_bytes(), u64::MAX - 1);
    cache.insert(1, Arc::new(1), u64::MAX);
    assert!(cache.get(1).is_none());
    assert_eq!(cache.used_bytes(), u64::MAX - 1);
}
