use std::sync::atomic::{AtomicUsize, Ordering};
use std::sync::Arc;

use kstd::collections::lru::LruCache;

fn order(lru: &LruCache<u8>) -> Vec<u8> {
    lru.entries().into_iter().copied().collect()
}

#[test]
fn test_lru_new_is_empty() {
    let lru = LruCache::<u8>::new(10);
    assert_eq!(Vec::<u8>::new(), order(&lru));
}

#[test]
fn test_lru_insert_reverse() {
    let mut lru = LruCache::<u8>::new(10);
    lru.insert(0);
    lru.insert(1);
    lru.insert(2);
    lru.insert(2);
    lru.insert(3);
    assert_eq!(vec![3, 2, 2, 1, 0], order(&lru));
}

#[test]
fn test_lru_insert() {
    let mut lru = LruCache::<u8>::new(10);
    for i in 0_u8..10 {
        lru.insert(i);
    }
    assert_eq!(vec![9, 8, 7, 6, 5, 4, 3, 2, 1, 0], order(&lru));
    let &item = lru.find(|&v| v == 4).unwrap();
    assert_eq!(4, item);
    assert_eq!(vec![4, 9, 8, 7, 6, 5, 3, 2, 1, 0], order(&lru));
}

#[test]
fn test_lru_insert_with_evict() {
    let evict_count = Arc::new(AtomicUsize::default());
    let in_closure = evict_count.clone();
    let mut lru = LruCache::<u8>::with_evict(10, move |_| {
        in_closure.fetch_add(1, Ordering::SeqCst);
    });
    for i in 0_u8..100 {
        lru.insert(i);
    }
    assert_eq!(vec![99, 98, 97, 96, 95, 94, 93, 92, 91, 90], order(&lru));
    assert_eq!(90, evict_count.load(Ordering::SeqCst));
}

#[test]
fn test_lru_evict_all_on_drop() {
    let evict_count = Arc::new(AtomicUsize::default());
    let in_closure = evict_count.clone();
    let mut lru = LruCache::<u8>::with_evict(10, move |_| {
        in_closure.fetch_add(1, Ordering::SeqCst);
    });
    for i in 0_u8..10 {
        lru.insert(i);
    }
    drop(lru);

    assert_eq!(10, evict_count.load(Ordering::SeqCst));
}

#[test]
fn test_lru_eleventh_insert_evicts_the_oldest() {
    let evicted = Arc::new(std::sync::Mutex::new(Vec::new()));
    let in_closure = evicted.clone();
    let mut lru = LruCache::<u8>::with_evict(10, move |v| {
        in_closure.lock().unwrap().push(v);
    });
    for i in 0_u8..10 {
        lru.insert(i);
    }
    assert!(evicted.lock().unwrap().is_empty());
    lru.insert(10);
    assert_eq!(vec![10, 9, 8, 7, 6, 5, 4, 3, 2, 1], order(&lru));
    assert_eq!(vec![0], *evicted.lock().unwrap());
    assert_eq!(10, lru.len());
}

#[test]
fn test_lru_never_exceeds_its_capacity() {
    for capacity in 1_usize..6 {
        let mut lru = LruCache::<usize>::new(capacity);
        assert!(lru.is_empty());
        for i in 0..20 {
            lru.insert(i);
            assert!(lru.len() <= capacity);
            assert_eq!(std::cmp::min(i + 1, capacity), lru.len());
        }
    }
}

#[test]
fn test_lru_of_capacity_zero_holds_one_entry() {
    let evict_count = Arc::new(AtomicUsize::default());
    let in_closure = evict_count.clone();
    let mut lru = LruCache::<u8>::with_evict(0, move |_| {
        in_closure.fetch_add(1, Ordering::SeqCst);
    });
    lru.insert(1);
    assert_eq!(vec![1], order(&lru));
    assert_eq!(0, evict_count.load(Ordering::SeqCst));
    lru.insert(2);
    assert_eq!(vec![2], order(&lru));
    assert_eq!(1, evict_count.load(Ordering::SeqCst));
}

#[test]
fn test_lru_find_without_match_keeps_the_order() {
    let mut lru = LruCache::<u8>::new(4);
    for i in 0_u8..4 {
        lru.insert(i);
    }
    assert_eq!(None, lru.find(|&v| v == 9));
    assert_eq!(vec![3, 2, 1, 0], order(&lru));
}

#[test]
fn test_lru_find_takes_the_first_match() {
    let mut lru = LruCache::<(u8, u8)>::new(4);
    lru.insert((1, 0));
    lru.insert((2, 0));
    lru.insert((1, 1));
    lru.insert((3, 0));
    let found = lru.find(|v| v.0 == 1).copied();
    assert_eq!(Some((1, 1)), found);
    let got: Vec<(u8, u8)> = lru.entries().into_iter().copied().collect();
    assert_eq!(vec![(1, 1), (3, 0), (2, 0), (1, 0)], got);
}

#[test]
fn test_lru_drop_evicts_the_oldest_first() {
    let evicted = Arc::new(std::sync::Mutex::new(Vec::new()));
    let in_closure = evicted.clone();
    let mut lru = LruCache::<u8>::with_evict(3, move |v| {
        in_closure.lock().unwrap().push(v);
    });
    for i in 0_u8..5 {
        lru.insert(i);
    }
    drop(lru);
    assert_eq!(vec![0, 1, 2, 3, 4], *evicted.lock().unwrap());
}
