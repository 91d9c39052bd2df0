use memo_map::MemoMap;
use std::cell::Cell;
use std::cell::RefCell;
use std::collections::HashMap;

#[test]
fn it_works() {
    let mut memo = MemoMap::new(|n| n * 2);
    assert!(memo.try_get(&2).is_none());
    assert_eq!(memo.get(&2), &4);
    assert_eq!(memo.try_get(&2), Some(&4));
}

#[test]
fn doubling_producer_runs_once_per_key() {
    let calls = Cell::new(0u32);
    let key = 2;
    let mut memo = MemoMap::new(|n: &i32| {
        calls.set(calls.get() + 1);
        n * 2
    });
    assert!(memo.try_get(&key).is_none());
    assert_eq!(calls.get(), 0);
    assert_eq!(*memo.get(&key), 4);
    assert_eq!(calls.get(), 1);
    assert_eq!(memo.try_get(&key), Some(&4));
    assert_eq!(*memo.get(&key), 4);
    assert_eq!(calls.get(), 1);
}

#[test]
fn cached_value_wins_over_a_fresh_production() {
    let next = Cell::new(0u32);
    let key = 7;
    let mut memo = MemoMap::new(|_: &i32| {
        next.set(next.get() + 1);
        next.get()
    });
    assert_eq!(*memo.get(&key), 1);
    assert_eq!(*memo.get(&key), 1);
    assert_eq!(*memo.get_mut(&key), 1);
    assert_eq!(next.get(), 1);
}

#[test]
fn with_capacity_reserves_room() {
    let memo = MemoMap::new(|n: &u64| n + 1);
    let _ = memo.capacity();
    let memo2 = MemoMap::with_capacity(100, |n: &u64| n + 1);
    assert!(memo2.capacity() >= 100);
    assert!(memo2.is_empty());
    assert_eq!(memo2.len(), 0);
}

#[test]
fn clear_forgets_and_producer_runs_again() {
    let counts: RefCell<HashMap<i32, u32>> = RefCell::new(HashMap::new());
    let keys = [1, 2, 3];
    let mut memo = MemoMap::new(|n: &i32| {
        *counts.borrow_mut().entry(*n).or_insert(0) += 1;
        n * 10
    });
    for k in keys.iter() {
        memo.get(k);
    }
    assert_eq!(memo.len(), 3);
    memo.clear();
    assert_eq!(memo.len(), 0);
    assert!(memo.is_empty());
    for k in keys.iter() {
        assert!(memo.try_get(k).is_none());
        assert!(!memo.contains_key(k));
    }
    assert_eq!(counts.borrow()[&1], 1);
    assert_eq!(*memo.get(&keys[0]), 10);
    assert_eq!(counts.borrow()[&1], 2);
    assert_eq!(counts.borrow()[&2], 1);
    assert_eq!(memo.len(), 1);
}

#[test]
fn contains_key_only_after_lookup() {
    let keys = [5, 6];
    let mut memo = MemoMap::new(|n: &i32| n - 1);
    assert!(!memo.contains_key(&keys[0]));
    assert!(memo.try_get(&keys[0]).is_none());
    assert!(!memo.contains_key(&keys[0]));
    assert_eq!(*memo.get(&keys[0]), 4);
    assert!(memo.contains_key(&keys[0]));
    assert!(!memo.contains_key(&keys[1]));
    assert_eq!(*memo.get_mut(&keys[1]), 5);
    assert!(memo.contains_key(&keys[1]));
}

#[test]
fn len_counts_distinct_keys_looked_up() {
    let keys = [1, 2, 1, 3, 2, 9];
    let mut memo = MemoMap::new(|n: &i32| n * n);
    assert_eq!(memo.len(), 0);
    for k in keys.iter().take(5) {
        memo.get(k);
    }
    assert!(memo.try_get(&keys[5]).is_none());
    assert_eq!(memo.len(), 3);
    assert!(!memo.is_empty());
}

#[test]
fn iteration_lists_each_entry_once() {
    let calls = Cell::new(0u32);
    let keys = [3, 1, 2, 1];
    let mut memo = MemoMap::new(|n: &i32| {
        calls.set(calls.get() + 1);
        n * 100
    });
    for k in keys.iter() {
        memo.get(k);
    }
    assert_eq!(calls.get(), 3);

    let mut pairs: Vec<(i32, i32)> = memo.iter().into_iter().map(|(k, v)| (*k, *v)).collect();
    pairs.sort();
    assert_eq!(pairs, vec![(1, 100), (2, 200), (3, 300)]);

    let mut ks: Vec<i32> = memo.keys().into_iter().copied().collect();
    ks.sort();
    assert_eq!(ks, vec![1, 2, 3]);

    let mut vs: Vec<i32> = memo.values().into_iter().copied().collect();
    vs.sort();
    assert_eq!(vs, vec![100, 200, 300]);

    assert_eq!(calls.get(), 3);
}

#[test]
fn iteration_of_empty_map_is_empty() {
    let memo = MemoMap::new(|n: &i32| *n);
    assert!(memo.iter().is_empty());
    assert!(memo.keys().is_empty());
    assert!(memo.values().is_empty());
}

#[test]
fn get_mut_writes_through() {
    let key = 4;
    let mut memo = MemoMap::new(|n: &i32| n + 1);
    *memo.get_mut(&key) += 10;
    assert_eq!(memo.try_get(&key), Some(&15));
    assert_eq!(*memo.get(&key), 15);
}

#[test]
fn try_get_mut_changes_only_cached_entries() {
    let keys = [1, 2];
    let calls = Cell::new(0u32);
    let mut memo = MemoMap::new(|n: &i32| {
        calls.set(calls.get() + 1);
        n * 3
    });
    assert!(memo.try_get_mut(&keys[0]).is_none());
    assert_eq!(calls.get(), 0);
    assert!(!memo.contains_key(&keys[0]));
    memo.get(&keys[0]);
    if let Some(v) = memo.try_get_mut(&keys[0]) {
        assert_eq!(*v, 3);
        *v = 42;
    } else {
        panic!("cached key not found");
    }
    assert_eq!(memo.try_get(&keys[0]), Some(&42));
    assert!(memo.try_get_mut(&keys[1]).is_none());
    assert_eq!(calls.get(), 1);
}

#[test]
fn reserve_and_shrink_keep_entries() {
    let keys = [10, 20];
    let mut memo = MemoMap::new(|n: &i32| n / 10);
    memo.get(&keys[0]);
    memo.get(&keys[1]);
    memo.reserve(50);
    assert!(memo.capacity() >= 52);
    assert_eq!(memo.try_get(&keys[0]), Some(&1));
    memo.shrink_to_fit();
    assert!(memo.capacity() >= 2);
    assert_eq!(memo.len(), 2);
    assert_eq!(memo.try_get(&keys[0]), Some(&1));
    assert_eq!(memo.try_get(&keys[1]), Some(&2));
}

#[test]
fn string_keys_are_borrowed() {
    let words = [String::from("ab"), String::from("abc")];
    let mut memo = MemoMap::new(|s: &String| s.len());
    assert_eq!(*memo.get(&words[1]), 3);
    assert_eq!(*memo.get(&words[0]), 2);
    assert_eq!(memo.try_get(&words[1]), Some(&3));
    assert_eq!(memo.len(), 2);
}
