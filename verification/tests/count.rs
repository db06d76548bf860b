use webgal_lsp::count::{BTreeCounter, HashCounter, SortedCounter};
use webgal_lsp::ranked_count::Counter;
use std::collections::hash_map::DefaultHasher;
use std::collections::BTreeMap;
use std::hash::{Hash, Hasher};

// -------- hash --------

#[test]
fn hash_new_and_empty() {
    let c: HashCounter<i32> = HashCounter::new();
    assert!(c.is_empty());
    assert_eq!(c.len(), 0);
    assert_eq!(c.len_count(), 0);
}

#[test]
fn hash_insert_and_modify() {
    let mut c = HashCounter::new();
    assert_eq!(c.insert("a"), 1);
    assert_eq!(c.get(&"a"), 1);
    assert_eq!(c.insertn("a", 3), 4);
    assert_eq!(c.get(&"a"), 4);
    assert_eq!(c.insert_to("a", 2), 4);
    assert_eq!(c.get(&"a"), 2);
    assert_eq!(c.remove(&"a"), Some(1));
    assert_eq!(c.get(&"a"), 1);
    assert_eq!(c.removen(&"a", 1), Some(0));
    assert!(!c.contains(&"a"));
    assert!(c.is_empty());
}

#[test]
fn hash_zero_insert_does_nothing() {
    let mut c: HashCounter<&str> = HashCounter::new();
    assert_eq!(c.insertn("x", 0), 0);
    assert!(c.is_empty());
    assert_eq!(c.insert_to("y", 0), 0);
    assert!(c.is_empty());
}

#[test]
fn hash_remove_all_and_clear() {
    let mut c = HashCounter::new();
    c.insertn("a", 5);
    assert_eq!(c.remove_all(&"a"), Some(5));
    assert!(!c.contains(&"a"));
    c.insertn("b", 3);
    c.clear();
    assert!(c.is_empty());
}

#[test]
fn hash_iter_works() {
    let mut c = HashCounter::new();
    c.insertn("a", 3);
    c.insertn("b", 1);
    let values: Vec<_> = c.iter();
    assert_eq!(values.len(), 2);
    assert!(values.contains(&&"a"));
    assert!(values.contains(&&"b"));
}

#[test]
fn hash_iter_with_count() {
    let mut c = HashCounter::new();
    c.insertn("a", 3);
    c.insertn("b", 1);
    let mut pairs: Vec<_> = c.iter_with_count();
    pairs.sort_by_key(|(k, _)| *k);
    assert_eq!(pairs, vec![(&"a", 3), (&"b", 1)]);
}

#[test]
fn hash_clone_and_eq() {
    let mut a = HashCounter::new();
    a.insertn("x", 3);
    let b = a.clone();
    assert_eq!(a, b);
    a.insert("y");
    assert_ne!(a, b);
}

#[test]
fn hash_removen_keeps_the_rest() {
    let mut c = HashCounter::new();
    c.insertn(7u64, 5);
    assert_eq!(c.removen(&7, 1), Some(4));
    assert_eq!(c.get(&7), 4);
    assert_eq!(c.removen(&7, 10), Some(0));
    assert!(!c.contains(&7));
    assert_eq!(c.removen(&7, 1), None);
}

#[test]
fn hash_len_count_sums_counts() {
    let mut c = HashCounter::with_capacity(4);
    c.insertn(1u32, 2);
    c.insertn(2u32, 3);
    assert_eq!(c.len(), 2);
    assert_eq!(c.len_count(), 5);
}

// -------- sort --------

#[test]
fn sort_new_and_empty() {
    let c: SortedCounter<i32> = SortedCounter::new();
    assert!(c.is_empty());
    assert_eq!(c.len(), 0);
    let c2: SortedCounter<i32> = SortedCounter::with_capacity(10);
    assert!(c2.is_empty());
}

#[test]
fn insert_new_element() {
    let mut c = SortedCounter::new();
    assert_eq!(c.insert("a"), 1);
    assert_eq!(c.get(&"a"), 1);
    assert_eq!(c.len(), 1);
    assert_eq!(c.len_count(), 1);
}

#[test]
fn insertn_new_element() {
    let mut c = SortedCounter::new();
    assert_eq!(c.insertn("b", 5), 5);
    assert_eq!(c.get(&"b"), 5);
}

#[test]
fn insert_to_new_element() {
    let mut c = SortedCounter::new();
    assert_eq!(c.insert_to("c", 3), 0);
    assert_eq!(c.get(&"c"), 3);
}

#[test]
fn modify_existing_by_insert() {
    let mut c = SortedCounter::new();
    c.insert("a");
    assert_eq!(c.insert("a"), 2);
    assert_eq!(c.get(&"a"), 2);
}

#[test]
fn modify_existing_by_insertn() {
    let mut c = SortedCounter::new();
    c.insertn("a", 2);
    assert_eq!(c.insertn("a", 3), 5);
    assert_eq!(c.get(&"a"), 5);
}

#[test]
fn modify_existing_by_insert_to() {
    let mut c = SortedCounter::new();
    c.insert_to("a", 5);
    // the count before the call, as the hash and tree counters return it
    assert_eq!(c.insert_to("a", 2), 5);
    assert_eq!(c.get(&"a"), 2);
}

#[test]
fn modify_existing_by_remove() {
    let mut c = SortedCounter::new();
    c.insertn("a", 5);
    assert_eq!(c.remove(&"a"), Some(4));
    assert_eq!(c.get(&"a"), 4);
}

#[test]
fn modify_existing_by_removen() {
    let mut c = SortedCounter::new();
    c.insertn("a", 5);
    assert_eq!(c.removen(&"a", 2), Some(3));
    assert_eq!(c.get(&"a"), 3);
}

#[test]
fn remove_until_zero_deletes_element() {
    let mut c = SortedCounter::new();
    c.insert("a");
    assert_eq!(c.remove(&"a"), Some(0));
    assert!(!c.contains(&"a"));
    assert_eq!(c.len(), 0);

    let mut c2 = SortedCounter::new();
    c2.insertn("b", 1);
    assert_eq!(c2.removen(&"b", 1), Some(0));
    assert!(!c2.contains(&"b"));
}

#[test]
fn remove_all_deletes() {
    let mut c = SortedCounter::new();
    c.insertn("a", 3);
    assert_eq!(c.remove_all(&"a"), Some(3));
    assert!(!c.contains(&"a"));
    assert_eq!(c.remove_all(&"missing"), None);
}

#[test]
fn insert_to_zero_deletes() {
    let mut c = SortedCounter::new();
    c.insert_to("a", 5);
    assert_eq!(c.insert_to("a", 0), 5);
    assert!(!c.contains(&"a"));
}

#[test]
fn insertn_zero_does_nothing() {
    let mut c: SortedCounter<&str> = SortedCounter::new();
    assert_eq!(c.insertn("x", 0), 0);
    assert_eq!(c.len(), 0);
}

#[test]
fn clear_reserve_shrink() {
    let mut c = SortedCounter::with_capacity(32);
    c.reserve(100);
    for i in 0..50 {
        c.insert(i);
    }
    assert_eq!(c.len(), 50);
    c.clear();
    assert!(c.is_empty());
    c.shrink_to_fit();
}

#[test]
fn clone_and_hash() {
    fn hash<T: Hash>(t: &T) -> u64 {
        let mut s = DefaultHasher::new();
        t.hash(&mut s);
        s.finish()
    }
    let mut a = SortedCounter::new();
    a.insertn("x", 3);
    let b = a.clone();
    assert_eq!(a, b);
    assert_eq!(hash(&a), hash(&b));
    a.insert("y");
    assert_ne!(a, b);
}

#[test]
fn debug_output() {
    let mut c = SortedCounter::new();
    c.insertn("alpha", 2);
    let s = format!("{:?}", c);
    assert!(s.contains("alpha"));
}

#[test]
fn iter_by_value_and_count_ordering() {
    let mut c = SortedCounter::new();
    c.insert_to("a", 5);
    c.insert_to("b", 2);
    c.insert_to("c", 2);
    assert_eq!(
        c.iter_by_count().iter().map(|(v, _)| **v).collect::<Vec<_>>(),
        vec!["a", "b", "c"]
    );
    assert_eq!(
        c.iter_by_value().iter().map(|(v, _)| **v).collect::<Vec<_>>(),
        vec!["a", "b", "c"]
    );
}

#[test]
fn iter_consistency() {
    let mut c = SortedCounter::new();
    for i in 0..10 {
        c.insertn(i, (i % 3) + 1);
    }
    let first: Vec<_> = c.iter_by_value();
    let second: Vec<_> = c.iter_by_value();
    assert_eq!(first, second);
}

#[test]
fn sort_counts_reorder_after_updates() {
    let mut c = SortedCounter::new();
    c.insertn(1u32, 1);
    c.insertn(2u32, 3);
    c.insertn(3u32, 2);
    assert_eq!(c.iter_by_count(), vec![(&2, 3), (&3, 2), (&1, 1)]);
    c.insertn(1u32, 5);
    assert_eq!(c.iter_by_count(), vec![(&1, 6), (&2, 3), (&3, 2)]);
    c.remove_all(&2);
    assert_eq!(c.iter_by_value(), vec![(&1, 6), (&3, 2)]);
    assert_eq!(c.len_count(), 8);
    let mut values = c.into_vec();
    values.sort();
    assert_eq!(values, vec![1, 3]);
}

#[test]
fn sort_matches_a_btree_map_model() {
    let mut c = SortedCounter::new();
    let mut model: BTreeMap<u32, usize> = BTreeMap::new();
    let mut state: u64 = 0x1234_5678;
    for _ in 0..2000 {
        state = state.wrapping_mul(6364136223846793005).wrapping_add(1442695040888963407);
        let op = (state >> 33) % 5;
        let key = ((state >> 40) % 50) as u32;
        let n = ((state >> 20) % 5 + 1) as usize;
        match op {
            0 => {
                c.insertn(key, n);
                *model.entry(key).or_insert(0) += n;
            }
            1 => {
                c.insert_to(key, n);
                model.insert(key, n);
            }
            2 => {
                let _ = c.removen(&key, n);
                if let Some(prev) = model.get(&key).cloned() {
                    if prev > n {
                        model.insert(key, prev - n);
                    } else {
                        model.remove(&key);
                    }
                }
            }
            3 => {
                let _ = c.remove_all(&key);
                model.remove(&key);
            }
            _ => {
                assert_eq!(c.get(&key), model.get(&key).cloned().unwrap_or(0));
            }
        }
        let from_counter: Vec<(u32, usize)> =
            c.iter_by_value().iter().map(|(v, n)| (**v, *n)).collect();
        let from_model: Vec<(u32, usize)> = model.iter().map(|(v, n)| (*v, *n)).collect();
        assert_eq!(from_counter, from_model);
    }
}

// -------- tree --------

#[test]
fn tree_new_and_empty() {
    let c: BTreeCounter<i32> = BTreeCounter::new();
    assert!(c.is_empty());
    assert_eq!(c.len(), 0);
    assert_eq!(c.len_count(), 0);
}

#[test]
fn tree_insert_and_modify() {
    let mut c = BTreeCounter::new();
    assert_eq!(c.insert("a"), 1);
    assert_eq!(c.get(&"a"), 1);
    assert_eq!(c.insertn("a", 3), 4);
    assert_eq!(c.get(&"a"), 4);
    assert_eq!(c.insert_to("a", 2), 4);
    assert_eq!(c.get(&"a"), 2);
    assert_eq!(c.remove(&"a"), Some(1));
    assert_eq!(c.get(&"a"), 1);
    assert_eq!(c.removen(&"a", 1), Some(0));
    assert!(!c.contains(&"a"));
    assert!(c.is_empty());
}

#[test]
fn tree_zero_insert_does_nothing() {
    let mut c: BTreeCounter<&str> = BTreeCounter::new();
    assert_eq!(c.insertn("x", 0), 0);
    assert!(c.is_empty());
    assert_eq!(c.insert_to("y", 0), 0);
    assert!(c.is_empty());
}

#[test]
fn tree_remove_all_and_clear() {
    let mut c = BTreeCounter::new();
    c.insertn("a", 5);
    assert_eq!(c.remove_all(&"a"), Some(5));
    assert!(!c.contains(&"a"));
    c.insertn("b", 3);
    c.clear();
    assert!(c.is_empty());
}

#[test]
fn tree_iter_works() {
    let mut c = BTreeCounter::new();
    c.insertn("b", 1);
    c.insertn("a", 3);
    assert_eq!(c.iter(), vec![&"a", &"b"]);
}

#[test]
fn tree_iter_with_count() {
    let mut c = BTreeCounter::new();
    c.insertn("b", 1);
    c.insertn("a", 3);
    assert_eq!(c.iter_with_count(), vec![(&"a", 3), (&"b", 1)]);
}

#[test]
fn tree_clone_and_eq() {
    let mut a = BTreeCounter::new();
    a.insertn("x", 3);
    let b = a.clone();
    assert_eq!(a, b);
    a.insert("y");
    assert_ne!(a, b);
}

#[test]
fn tree_removen_keeps_the_rest() {
    let mut c = BTreeCounter::new();
    c.insertn(9i64, 6);
    assert_eq!(c.removen(&9, 2), Some(4));
    assert_eq!(c.get(&9), 4);
    assert_eq!(c.len_count(), 4);
}

// -------- ranked --------

#[test]
fn ranked_counter_orders_by_count() {
    let mut c = Counter::new();
    c.insertn("x", 2);
    c.insertn("y", 5);
    c.insert("z");
    assert_eq!(c.len_count(), 8);
    assert_eq!(
        c.iter_by_count().iter().map(|(v, n)| (**v, *n)).collect::<Vec<_>>(),
        vec![("y", 5), ("x", 2), ("z", 1)]
    );
    assert_eq!(c.insert_to("y", 1), 5);
    assert_eq!(
        c.iter_by_count().iter().map(|(v, _)| **v).collect::<Vec<_>>(),
        vec!["x", "y", "z"]
    );
    assert_eq!(c.removen(&"x", 5), Some(0));
    assert_eq!(c.len(), 2);
}

#[test]
fn listings_agree_after_insert_to() {
    let mut c = SortedCounter::new();
    c.insert_to(3, 4);
    c.insert_to(1, 4);
    c.insert_to(2, 9);
    c.insert_to(3, 0);
    c.insert_to(5, 1);
    let by_value: Vec<(i32, usize)> = c.iter_by_value().iter().map(|(v, n)| (**v, *n)).collect();
    let by_count: Vec<(i32, usize)> = c.iter_by_count().iter().map(|(v, n)| (**v, *n)).collect();
    assert_eq!(by_value, vec![(1, 4), (2, 9), (5, 1)]);
    assert_eq!(by_count, vec![(2, 9), (1, 4), (5, 1)]);
    let mut values: Vec<i32> = c.iter().iter().map(|v| **v).collect();
    values.sort();
    assert_eq!(values, vec![1, 2, 5]);
    assert_eq!(c.len(), 3);
    assert_eq!(c.get(&3), 0);
}
