use priority_fee_core::{InvalidCapacity, SlotCache};

#[test]
fn test_push_pop() {
    let mut slot_cache = SlotCache::new(100).unwrap();
    let mut i = 0;
    while i < 100 {
        assert_eq!(slot_cache.push_pop(i), None);
        i += 1;
    }
    assert_eq!(slot_cache.push_pop(101), Some(0));
    assert_eq!(slot_cache.push_pop(3), None);
    let mut i = 0;
    let len = slot_cache.len();
    while i < 100 {
        assert_eq!(slot_cache.len(), len);
        i += 1;
    }
}

#[test]
fn test_copy() {
    let mut slot_cache = SlotCache::new(100).unwrap();
    for i in 0..100 {
        assert_eq!(slot_cache.push_pop(i), None);
        assert_eq!(slot_cache.len(), (i + 1) as usize);
    }
    let mut vec: Vec<u64> = Vec::new();
    slot_cache.copy_slots(&mut vec);
    vec.sort();
    assert_eq!(vec, (0..100).collect::<Vec<u64>>());
    vec.clear();
    slot_cache.copy_slots(&mut vec);
    vec.sort();
    assert_eq!(vec, (0..100).collect::<Vec<u64>>());
}

#[test]
fn test_copy_reversed() {
    let mut slot_cache = SlotCache::new(100).unwrap();
    for i in (0..100).rev() {
        assert_eq!(slot_cache.push_pop(i), None);
        assert_eq!(slot_cache.len(), 100 - i as usize, "{i}");
    }
    let mut vec: Vec<u64> = Vec::new();
    slot_cache.copy_slots(&mut vec);
    vec.sort();
    assert_eq!(vec, (0..100).collect::<Vec<u64>>());
}

#[test]
fn zero_capacity_is_rejected() {
    assert_eq!(SlotCache::new(0).err(), Some(InvalidCapacity));
}

#[test]
fn window_never_exceeds_capacity() {
    let mut cache = SlotCache::new(5).unwrap();
    for s in [9u64, 3, 3, 7, 1, 9, 12, 40, 2, 2, 5, 6, 100, 0] {
        cache.push_pop(s);
        assert!(cache.len() <= 5);
    }
    assert_eq!(cache.len(), 5);
    assert!(!cache.is_empty());
}

#[test]
fn fifo_eviction_keeps_last_distinct_slots() {
    let mut cache = SlotCache::new(3).unwrap();
    assert!(cache.is_empty());
    let mut evicted = Vec::new();
    for s in [10u64, 20, 30, 40, 50] {
        if let Some(e) = cache.push_pop(s) {
            evicted.push(e);
        }
    }
    assert_eq!(evicted, vec![10, 20]);
    let mut live = Vec::new();
    cache.copy_slots(&mut live);
    live.sort();
    assert_eq!(live, vec![30, 40, 50]);
}

#[test]
fn readmission_changes_nothing() {
    let mut cache = SlotCache::new(2).unwrap();
    cache.push_pop(1);
    cache.push_pop(2);
    for _ in 0..10 {
        assert_eq!(cache.push_pop(1), None);
        assert_eq!(cache.push_pop(2), None);
    }
    let mut live = Vec::new();
    cache.copy_slots(&mut live);
    live.sort();
    assert_eq!(live, vec![1, 2]);
    assert_eq!(cache.push_pop(3), Some(1));
}

#[test]
fn largest_slot_is_admitted() {
    let mut cache = SlotCache::new(2).unwrap();
    assert_eq!(cache.push_pop(u64::MAX), None);
    assert_eq!(cache.len(), 1);
}

#[test]
fn fifo_eviction_with_repeated_slots() {
    let mut cache = SlotCache::new(3).unwrap();
    // admissions: 1, 2, 3, 4, 1, 5 (repeats of live slots are not admissions)
    for s in [1u64, 2, 1, 3, 2, 4, 4, 1, 3, 5] {
        cache.push_pop(s);
    }
    let mut live = Vec::new();
    cache.copy_slots(&mut live);
    live.sort();
    assert_eq!(live, vec![1, 4, 5]);
}
