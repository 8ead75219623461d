use image_cache::cache::{Cache, SLOT_CAPACITY};
use image_cache::util::{Image, ImageData};

fn entry_with_sizes(sizes: &[usize]) -> ImageData {
    let mut frames = Vec::new();
    for &n in sizes {
        frames.push(Image::new(vec![7u8; n]));
    }
    ImageData::new(frames)
}

fn key(i: usize) -> String {
    format!("img-{i}")
}

#[test]
fn fresh_cache_is_empty() {
    let mut c = Cache::new(100);
    assert_eq!(c.total_size(), 0);
    assert_eq!(c.max_size(), 100);
    assert_eq!(c.len(), 0);
    assert!(!c.contains(&key(0)));
    assert!(c.get(&key(0)).is_none());
}

#[test]
fn put_then_get_returns_entry() {
    let mut c = Cache::new(100);
    c.put(
        key(0),
        ImageData::new(vec![
            Image::new(vec![1u8, 2, 3]),
            Image::with_delay(vec![4u8, 5, 6, 7], 40),
        ]),
    );
    assert_eq!(c.total_size(), 7);
    assert_eq!(c.len(), 1);
    assert!(c.contains(&key(0)));
    let got = c.get(&key(0)).expect("entry should be cached");
    assert_eq!(got.frames.len(), 2);
    assert_eq!(got.frames[0].buffer, vec![1u8, 2, 3]);
    assert_eq!(got.frames[0].delay_ms, 0);
    assert_eq!(got.frames[1].buffer, vec![4u8, 5, 6, 7]);
    assert_eq!(got.frames[1].delay_ms, 40);
}

#[test]
fn oversized_entry_is_refused() {
    let mut c = Cache::new(10);
    c.put(key(0), entry_with_sizes(&[10]));
    assert!(!c.contains(&key(0)));
    assert!(c.get(&key(0)).is_none());
    assert_eq!(c.total_size(), 0);
    assert_eq!(c.len(), 0);
    c.put(key(1), entry_with_sizes(&[4, 7]));
    assert!(!c.contains(&key(1)));
    assert_eq!(c.total_size(), 0);
    c.put(key(2), entry_with_sizes(&[9]));
    assert!(c.contains(&key(2)));
    assert_eq!(c.total_size(), 9);
}

#[test]
fn refusal_leaves_previous_entries_alone() {
    let mut c = Cache::new(50);
    c.put(key(0), entry_with_sizes(&[20]));
    c.put(key(1), entry_with_sizes(&[60]));
    assert!(c.contains(&key(0)));
    assert!(!c.contains(&key(1)));
    assert_eq!(c.total_size(), 20);
    assert_eq!(c.len(), 1);
}

#[test]
fn overwrite_same_key_keeps_total_exact() {
    let mut c = Cache::new(100);
    c.put(key(0), entry_with_sizes(&[10]));
    c.put(key(0), entry_with_sizes(&[20]));
    assert_eq!(c.total_size(), 20);
    assert_eq!(c.len(), 1);
    let got = c.get(&key(0)).expect("entry should be cached");
    assert_eq!(got.frames[0].buffer.len(), 20);
}

#[test]
fn size_based_eviction_drops_least_recently_used() {
    let mut c = Cache::new(100);
    c.put(key(1), entry_with_sizes(&[40]));
    c.put(key(2), entry_with_sizes(&[50]));
    assert_eq!(c.total_size(), 90);
    c.put(key(3), entry_with_sizes(&[45]));
    assert!(!c.contains(&key(1)));
    assert!(c.contains(&key(2)));
    assert!(c.contains(&key(3)));
    assert_eq!(c.total_size(), 95);
    assert_eq!(c.len(), 2);
}

#[test]
fn slot_bound_evicts_oldest_insertion() {
    let mut c = Cache::new(1_000_000);
    for i in 0..SLOT_CAPACITY + 1 {
        c.put(key(i), entry_with_sizes(&[1]));
    }
    assert_eq!(c.len(), SLOT_CAPACITY);
    assert_eq!(c.total_size(), SLOT_CAPACITY);
    assert!(!c.contains(&key(0)));
    for i in 1..SLOT_CAPACITY + 1 {
        assert!(c.contains(&key(i)));
    }
}

#[test]
fn get_refreshes_recency_and_protects() {
    let mut c = Cache::new(1_000_000);
    for i in 0..SLOT_CAPACITY {
        c.put(key(i), entry_with_sizes(&[1]));
    }
    assert!(c.get(&key(0)).is_some());
    c.put(key(SLOT_CAPACITY), entry_with_sizes(&[1]));
    assert!(c.contains(&key(0)));
    assert!(!c.contains(&key(1)));
    assert_eq!(c.len(), SLOT_CAPACITY);
    assert_eq!(c.total_size(), SLOT_CAPACITY);
}

#[test]
fn contains_does_not_refresh_recency() {
    let mut c = Cache::new(1_000_000);
    for i in 0..SLOT_CAPACITY {
        c.put(key(i), entry_with_sizes(&[1]));
    }
    assert!(c.contains(&key(0)));
    c.put(key(SLOT_CAPACITY), entry_with_sizes(&[1]));
    assert!(!c.contains(&key(0)));
    assert!(c.contains(&key(1)));
}

#[test]
fn pop_removes_entry_and_its_bytes() {
    let mut c = Cache::new(100);
    c.put(key(0), entry_with_sizes(&[10]));
    c.put(key(1), entry_with_sizes(&[20]));
    c.pop(&key(0));
    assert!(!c.contains(&key(0)));
    assert!(c.contains(&key(1)));
    assert_eq!(c.total_size(), 20);
    assert_eq!(c.len(), 1);
    c.pop(&key(9));
    assert_eq!(c.total_size(), 20);
    assert_eq!(c.len(), 1);
}

#[test]
fn clear_empties_and_is_idempotent() {
    let mut c = Cache::new(100);
    c.clear();
    assert_eq!(c.total_size(), 0);
    assert_eq!(c.len(), 0);
    c.put(key(0), entry_with_sizes(&[10]));
    c.put(key(1), entry_with_sizes(&[20]));
    c.clear();
    assert_eq!(c.total_size(), 0);
    assert_eq!(c.len(), 0);
    assert!(!c.contains(&key(0)));
    c.clear();
    assert_eq!(c.total_size(), 0);
    assert_eq!(c.len(), 0);
}

#[test]
fn zero_budget_refuses_even_empty_entries() {
    let mut c = Cache::new(0);
    c.put(key(0), entry_with_sizes(&[]));
    assert!(!c.contains(&key(0)));
    assert_eq!(c.total_size(), 0);
    assert_eq!(c.len(), 0);
}

#[test]
fn empty_entry_is_cached_under_a_positive_budget() {
    let mut c = Cache::new(1);
    c.put(key(0), entry_with_sizes(&[]));
    assert!(c.contains(&key(0)));
    assert_eq!(c.total_size(), 0);
    let got = c.get(&key(0)).expect("entry should be cached");
    assert_eq!(got.frames.len(), 0);
}

#[test]
fn distinct_puts_within_budget_all_stay() {
    let mut c = Cache::new(100);
    for i in 0..10 {
        c.put(key(i), entry_with_sizes(&[5]));
    }
    assert_eq!(c.len(), 10);
    assert_eq!(c.total_size(), 50);
    for i in 0..10 {
        assert!(c.contains(&key(i)));
    }
}

#[test]
fn budget_total_stays_exact_over_mixed_operations() {
    let mut c = Cache::new(100);
    c.put(key(0), entry_with_sizes(&[30]));
    c.put(key(1), entry_with_sizes(&[30]));
    c.put(key(2), entry_with_sizes(&[30]));
    assert_eq!(c.total_size(), 90);
    c.pop(&key(1));
    assert_eq!(c.total_size(), 60);
    c.put(key(3), entry_with_sizes(&[39]));
    assert_eq!(c.total_size(), 99);
    assert!(c.total_size() <= c.max_size());
    c.put(key(4), entry_with_sizes(&[50]));
    assert!(c.total_size() <= c.max_size());
    assert!(c.contains(&key(4)));
}
