use containers::{Store, StoreKey};

#[test]
fn store_test_new() {
    let store: Store<u32> = Store::new();
    assert!(store.is_empty());
    assert_eq!(store.len(), 0);
}

#[test]
fn store_test_insert() {
    let mut store: Store<u32> = Store::new();
    let key = store.push(10);
    assert_eq!(store.len(), 1);
    assert_eq!(store.get(key), Some(&10));
    assert_eq!(key.index(), 0);
    assert_eq!(key.generation(), 0);
}

#[test]
fn store_test_get() {
    let mut store: Store<u32> = Store::new();
    let key = store.push(10);
    assert_eq!(store.get(key), Some(&10));
}

#[test]
fn store_test_get_mut() {
    let mut store: Store<u32> = Store::new();
    let key = store.push(10);
    assert_eq!(store.get_mut(key), Some(&mut 10));
}

#[test]
fn store_test_remove() {
    let mut store: Store<u32> = Store::new();
    let key = store.push(10);
    store.remove(key);
    // The slot stays allocated but the key has gone stale.
    assert_eq!(store.len(), 1);
    assert!(!store.contains_key(key));
    assert_eq!(store.get(key), None);
}

#[test]
fn store_test_contains_key() {
    let mut store: Store<u32> = Store::new();
    let key = store.push(10);
    assert!(store.contains_key(key));
}

/// Inserting an item, removing it, and then inserting another item reuses
/// the same slot under a fresh generation.
#[test]
fn test_insert_remove_insert() {
    let mut store: Store<u32> = Store::new();
    let key = store.push(10);
    store.remove(key);
    let key = store.push(20);
    assert_eq!(store.len(), 1);
    assert_eq!(store.get(key), Some(&20));
    assert_eq!(key.index(), 0);
    assert_eq!(key.generation(), 1);
}

#[test]
fn test_insert_insert_remove_remove() {
    let mut store: Store<u32> = Store::new();
    let key1 = store.push(10);
    let key2 = store.push(20);
    store.remove(key1);
    store.remove(key2);
    assert_eq!(store.len(), 2);
    assert!(!store.contains_key(key1));
    assert!(!store.contains_key(key2));
    // The first slot freed is the first one reused.
    let key3 = store.push(30);
    assert_eq!(key3.index(), 0);
    assert_eq!(key3.generation(), 1);
    let key4 = store.push(40);
    assert_eq!(key4.index(), 1);
    assert_eq!(key4.generation(), 1);
}

#[test]
fn store_key_packing() {
    let key: StoreKey<u32> = StoreKey::new(5, 3);
    assert_eq!(key.index(), 5);
    assert_eq!(key.generation(), 3);
    assert_eq!(key.id(), (3 << 22) | 5);
    let copy: StoreKey<u32> = StoreKey::from_key(key.id());
    assert_eq!(copy.index(), 5);
    assert_eq!(copy.generation(), 3);
    // Both parts truncate to their fields.
    let wrapped: StoreKey<u32> = StoreKey::new(0x40_0001, 0x401);
    assert_eq!(wrapped.index(), 1);
    assert_eq!(wrapped.generation(), 1);
}

#[test]
fn store_set_and_stale_set() {
    let mut store: Store<u32> = Store::new();
    let key = store.push(10);
    store.set(key, 11);
    assert_eq!(store.get(key), Some(&11));
    store.remove(key);
    store.set(key, 12);
    assert_eq!(store.get(key), None);
}

#[test]
fn store_iterators() {
    let mut store: Store<u32> = Store::new();
    let k1 = store.push(10);
    let k2 = store.push(20);

    let mut values = store.values();
    assert_eq!(values.next(), Some(&10));
    assert_eq!(values.next(), Some(&20));
    assert_eq!(values.next(), None);

    let mut iter = store.iter();
    let (key, item) = iter.next().unwrap();
    assert_eq!(key.index(), k1.index());
    assert_eq!(key.generation(), k1.generation());
    assert_eq!(item, &10);
    let (key, item) = iter.next().unwrap();
    assert_eq!(key.index(), k2.index());
    assert_eq!(item, &20);
    assert!(iter.next().is_none());
}

#[test]
fn store_clear() {
    let mut store: Store<u32> = Store::new();
    store.push(10);
    store.push(20);
    store.clear();
    assert!(store.is_empty());
    assert_eq!(store.len(), 0);
}

#[test]
fn store_values_mut() {
    let mut store: Store<u32> = Store::new();
    let k1 = store.push(10);
    let k2 = store.push(20);
    for value in store.values_mut().iter_mut() {
        *value *= 2;
    }
    assert_eq!(store.get(k1), Some(&20));
    assert_eq!(store.get(k2), Some(&40));
}
