use fast_tree::engine::{Engine, EngineError, ForeignAdapter, ABSENT};
use fast_tree::ordered::MapAdapter;
use fast_tree::tree::{is_sorted, FastTree};
use fast_tree::workload::generate;

#[test]
fn tree_search_finds_predecessor() {
    let keys = vec![1i32, 3, 5, 7, 9];
    let tree = FastTree::new(&keys).unwrap();
    assert_eq!(tree.search(5), Some(2));
    assert_eq!(tree.search(0), None);
    assert_eq!(tree.search(6), Some(2));
    assert_eq!(tree.search(9), Some(4));
    assert_eq!(tree.search(i32::MAX), Some(4));
    assert_eq!(tree.search(i32::MIN), None);
}

#[test]
fn tree_lower_bound() {
    let keys = vec![1i32, 3, 5, 7, 9];
    let tree = FastTree::new(&keys).unwrap();
    assert_eq!(tree.lower_bound(5), 2);
    assert_eq!(tree.lower_bound(6), 3);
    assert_eq!(tree.lower_bound(0), 0);
    assert_eq!(tree.lower_bound(10), 5);
    assert_eq!(tree.lower_bound(i32::MIN), 0);
    assert_eq!(tree.lower_bound(i32::MAX), 5);
}

#[test]
fn tree_size_and_keys() {
    let keys = vec![1i32, 3, 5, 7, 9];
    let tree = FastTree::new(&keys).unwrap();
    assert_eq!(tree.size(), 5);
    for (i, k) in keys.iter().enumerate() {
        assert_eq!(tree.key_at(i), *k);
    }
}

#[test]
fn tree_of_no_keys() {
    assert!(FastTree::new(&[]).is_none());
}

#[test]
fn tree_with_repeated_keys() {
    let tree = FastTree::new(&[2, 2, 2, 5, 5]).unwrap();
    assert_eq!(tree.search(2), Some(2));
    assert_eq!(tree.search(4), Some(2));
    assert_eq!(tree.search(5), Some(4));
    assert_eq!(tree.lower_bound(2), 0);
    assert_eq!(tree.lower_bound(5), 3);
}

#[test]
fn end_to_end_five_keys() {
    let (keys, _) = generate(5, 0, 42).unwrap();
    assert_eq!(keys, vec![1, 4, 7, 10, 13]);
    let foreign = ForeignAdapter::new(&keys).unwrap();
    let map = MapAdapter::new(&keys).unwrap();
    assert_eq!(foreign.lookup(7), 2);
    assert_eq!(map.lookup(7), 2);
    assert!(foreign.lookup(0) < 0);
    assert!(map.lookup(0) < 0);
    assert_eq!(foreign.lookup(13), 4);
    assert_eq!(map.lookup(13), 4);
    assert_eq!(foreign.lookup(14), 4);
    assert_eq!(map.lookup(14), 4);
}

#[test]
fn adapters_agree() {
    let (keys, queries) = generate(200, 3000, 42).unwrap();
    let max_key = keys[keys.len() - 1];
    let foreign = ForeignAdapter::new(&keys).unwrap();
    let map = MapAdapter::new(&keys).unwrap();
    for q in queries.iter().chain([0, max_key, 4, 7, 298, -5, max_key + 1].iter()) {
        assert_eq!(foreign.lookup(*q), map.lookup(*q));
    }
    for k in keys.iter() {
        assert_eq!(foreign.lookup(*k), map.lookup(*k));
    }
}

#[test]
fn adapters_agree_on_repeated_keys() {
    let keys = vec![-3, -3, 0, 0, 0, 8, 9, 9];
    let foreign = ForeignAdapter::new(&keys).unwrap();
    let map = MapAdapter::new(&keys).unwrap();
    for q in -5..12 {
        assert_eq!(foreign.lookup(q), map.lookup(q));
    }
    assert_eq!(map.lookup(0), 4);
    assert_eq!(map.lookup(-3), 1);
}

#[test]
fn absent_below_first_key() {
    let (keys, _) = generate(50, 0, 42).unwrap();
    let foreign = ForeignAdapter::new(&keys).unwrap();
    let map = MapAdapter::new(&keys).unwrap();
    for q in [0, -1, i32::MIN] {
        assert_eq!(foreign.lookup(q), ABSENT);
        assert_eq!(map.lookup(q), ABSENT);
    }
    assert_eq!(ABSENT, -1);
}

#[test]
fn foreign_adapter_needs_keys() {
    assert!(matches!(ForeignAdapter::new(&[]), Err(EngineError::ConstructionFailure)));
}

#[test]
fn map_adapter_without_keys() {
    let map = MapAdapter::new(&[]).unwrap();
    assert_eq!(map.lookup(3), ABSENT);
}

#[test]
fn foreign_adapter_inspection() {
    let foreign = ForeignAdapter::new(&[1, 4, 7]).unwrap();
    assert_eq!(foreign.size(), 3);
    assert_eq!(foreign.key_at(1), 4);
}

#[test]
fn create_destroy_cycles() {
    let (keys, _) = generate(100, 0, 42).unwrap();
    for round in 0..50 {
        let adapter = ForeignAdapter::new(&keys).unwrap();
        assert_eq!(adapter.lookup(keys[round]), round as i64);
        adapter.destroy();
    }
}

#[test]
fn sortedness_is_told() {
    assert!(is_sorted(&[]));
    assert!(is_sorted(&[3]));
    assert!(is_sorted(&[1, 1, 2, 9]));
    assert!(!is_sorted(&[1, 3, 2]));
    assert!(!is_sorted(&[2, 1]));
}
