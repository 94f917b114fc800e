use brush_ir::batch_cache::BatchCache;
use brush_ir::loader::{
    loader_actor_count, loader_task_seeds, LoaderAction, ViewOrder, FALLBACK_ACTORS, TASKS_PER_ACTOR,
};
use std::sync::Arc;

fn one_epoch(order: &mut ViewOrder, n: usize) -> Vec<usize> {
    let mut got = Vec::new();
    for _ in 0..n {
        got.push(order.next_view());
    }
    got
}

#[test]
fn every_view_once_per_epoch() {
    let n = 7;
    let mut order = ViewOrder::new(n, 42);
    for _epoch in 0..3 {
        let mut got = one_epoch(&mut order, n);
        got.sort();
        assert_eq!(got, (0..n).collect::<Vec<usize>>());
    }
}

#[test]
fn single_view_dataset() {
    let mut order = ViewOrder::new(1, 9);
    for _ in 0..5 {
        assert_eq!(order.next_view(), 0);
    }
}

#[test]
fn same_seed_same_order() {
    let mut a = ViewOrder::new(10, 1234);
    let mut b = ViewOrder::new(10, 1234);
    assert_eq!(one_epoch(&mut a, 20), one_epoch(&mut b, 20));
}

#[test]
fn order_is_shuffled() {
    // Without a shuffle the views would come back from the last one down.
    let n = 20;
    let mut order = ViewOrder::new(n, 7);
    let got = one_epoch(&mut order, n);
    let unshuffled: Vec<usize> = (0..n).rev().collect();
    assert_ne!(got, unshuffled);
}

#[test]
fn task_seeds_wrap_and_are_distinct() {
    let seeds = loader_task_seeds(u64::MAX - 1, 2);
    assert_eq!(seeds, vec![u64::MAX - 1, u64::MAX, 0, 1]);
    let seeds = loader_task_seeds(10, 3);
    assert_eq!(seeds.len(), 3 * TASKS_PER_ACTOR);
    assert_eq!(seeds, vec![10, 11, 12, 13, 14, 15]);
    assert!(loader_task_seeds(5, 0).is_empty());
}

#[test]
fn actor_count_falls_back_to_eight() {
    assert_eq!(loader_actor_count(None), 8);
    assert_eq!(FALLBACK_ACTORS, 8);
    assert_eq!(loader_actor_count(Some(3)), 3);
}

#[test]
fn different_seeds_give_different_orders() {
    let mut a = ViewOrder::new(20, 1);
    let mut b = ViewOrder::new(20, 2);
    assert_ne!(one_epoch(&mut a, 20), one_epoch(&mut b, 20));
}

#[test]
fn action_builds_on_miss_and_sends_on_hit() {
    let n = 3;
    let mut cache: BatchCache<usize> = BatchCache::with_budget(n, 1000);
    let mut order = ViewOrder::new(n, 5);
    let mut seen = Vec::new();
    // First epoch: nothing cached, every view is built once and cached.
    for _ in 0..n {
        match order.next_action(&cache) {
            LoaderAction::Build { view } => {
                cache.insert(view, Arc::new(view * 10), 1);
                seen.push(view);
            }
            LoaderAction::Send { .. } => panic!("nothing was cached yet"),
        }
    }
    seen.sort();
    assert_eq!(seen, vec![0, 1, 2]);
    // Second epoch: every view is a hit on the batch built for it.
    for _ in 0..n {
        match order.next_action(&cache) {
            LoaderAction::Send { view, batch } => assert_eq!(*batch, view * 10),
            LoaderAction::Build { .. } => panic!("every view is cached"),
        }
    }
}
