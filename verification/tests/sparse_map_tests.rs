use containers::SparseMap;

#[test]
fn sparse_map_test_new() {
    let sparse_set: SparseMap<u32> = SparseMap::new();
    assert!(sparse_set.is_empty());
    assert_eq!(sparse_set.len(), 0);
    assert!(sparse_set.keys().is_empty());
}

#[test]
fn sparse_map_test_insert() {
    let mut sparse_set: SparseMap<u32> = SparseMap::new();
    sparse_set.insert(0, 10);
    assert_eq!(sparse_set.len(), 1);
    assert_eq!(sparse_set.keys().len(), 1);
    assert_eq!(sparse_set.values()[0], 10);

    sparse_set.insert(1, 20);
    assert_eq!(sparse_set.len(), 2);
    assert_eq!(sparse_set.keys().len(), 2);
    assert_eq!(sparse_set.values()[1], 20);

    sparse_set.insert(0, 30);
    assert_eq!(sparse_set.len(), 2);
    assert_eq!(sparse_set.keys().len(), 2);
    assert_eq!(sparse_set.values()[0], 30);
}

#[test]
fn sparse_map_test_get() {
    let mut sparse_set: SparseMap<u32> = SparseMap::new();
    sparse_set.insert(0, 10);
    sparse_set.insert(2, 20);

    assert_eq!(sparse_set.get(0), Some(&10));
    assert_eq!(sparse_set.get(1), None);
    assert_eq!(sparse_set.get(2), Some(&20));
}

#[test]
fn sparse_map_test_get_mut() {
    let mut sparse_set: SparseMap<u32> = SparseMap::new();
    sparse_set.insert(0, 10);
    sparse_set.insert(2, 20);

    assert_eq!(sparse_set.get_mut(0), Some(&mut 10));
    assert_eq!(sparse_set.get_mut(1), None);
    assert_eq!(sparse_set.get_mut(2), Some(&mut 20));

    *sparse_set.get_mut(0).unwrap() = 30;
    assert_eq!(sparse_set.get(0), Some(&30));
}

#[test]
fn sparse_map_test_remove() {
    let mut sparse_set: SparseMap<u32> = SparseMap::new();
    sparse_set.insert(0, 10);
    sparse_set.insert(2, 20);
    sparse_set.insert(3, 30);

    assert_eq!(sparse_set.remove(1), None);

    let removed_item = sparse_set.remove(2);
    assert_eq!(removed_item, Some(20));
    assert_eq!(sparse_set.values(), &[10, 30]);
    assert_eq!(sparse_set.keys(), &[0, 3]);
}

#[test]
fn sparse_map_test_contains_key() {
    let mut sparse_set: SparseMap<u32> = SparseMap::new();
    sparse_set.insert(0, 10);
    sparse_set.insert(2, 20);

    assert_eq!(sparse_set.contains_key(0), true);
    assert_eq!(sparse_set.contains_key(1), false);
    assert_eq!(sparse_set.contains_key(2), true);
}

#[test]
fn sparse_map_remove_last_slot() {
    let mut sparse_set: SparseMap<u32> = SparseMap::new();
    sparse_set.insert(5, 50);
    assert_eq!(sparse_set.remove(5), Some(50));
    assert!(sparse_set.is_empty());
    assert!(!sparse_set.contains_key(5));
    assert_eq!(sparse_set.get(5), None);
}

#[test]
fn sparse_map_removed_key_is_gone() {
    let mut sparse_set: SparseMap<u32> = SparseMap::new();
    sparse_set.insert(0, 10);
    sparse_set.insert(2, 20);
    sparse_set.insert(3, 30);
    sparse_set.remove(2);
    assert!(!sparse_set.contains_key(2));
    assert_eq!(sparse_set.get(2), None);
    assert_eq!(sparse_set.get(3), Some(&30));
}

#[test]
fn sparse_map_clear_then_reuse() {
    let mut sparse_set: SparseMap<u32> = SparseMap::with_capacity(4);
    sparse_set.insert(1, 11);
    sparse_set.clear();
    assert!(sparse_set.is_empty());
    sparse_set.insert(0, 5);
    assert_eq!(sparse_set.get(0), Some(&5));
    assert_eq!(sparse_set.get(1), None);
}

#[test]
fn sparse_map_values_mut() {
    let mut sparse_set: SparseMap<u32> = SparseMap::new();
    sparse_set.insert(0, 10);
    sparse_set.insert(2, 20);
    for value in sparse_set.values_mut().iter_mut() {
        *value += 1;
    }
    assert_eq!(sparse_set.get(0), Some(&11));
    assert_eq!(sparse_set.get(2), Some(&21));
}

#[test]
fn slot_index_unwrap() {
    let slot = containers::SlotIndex::Used(7);
    assert_eq!(slot.unwrap(), 7);
}
