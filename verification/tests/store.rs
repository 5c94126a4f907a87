use lru_store::LRUStrategy;
use lru_store::Store;

#[test]
fn simple_discard() {
    let mut store = Store::new(LRUStrategy::with_capacity(2));
    store.set(2, 3);
    store.set(3, 3);
    store.set(4, 3);
    store.set(5, 3);
    assert_eq!(None, store.get(&2));
    assert_eq!(Some(&3), store.get(&3));
    assert_eq!(Some(&3), store.get(&4));
    assert_eq!(Some(&3), store.get(&5));
}

#[test]
fn simple() {
    let mut store = Store::new(LRUStrategy::new());
    store.set(2, 3);
    store.set(3, 3);
    store.set(4, 3);
    store.set(5, 3);
    assert_eq!(Some(&3), store.get(&2));
    assert_eq!(Some(&3), store.get(&3));
    assert_eq!(Some(&3), store.get(&4));
    assert_eq!(Some(&3), store.get(&5));
}

#[test]
fn simple2() {
    let mut store = Store::new(LRUStrategy::new());
    store.set(2, 3);
    store.set(3, 3);
    store.set(4, 3);
    store.set(5, 3);
    assert_eq!(Some(&3), store.get(&2));
    assert_eq!(Some(&3), store.get(&3));
    assert_eq!(Some(&3), store.get(&4));
    assert_eq!(Some(&3), store.get(&5));
}

#[test]
fn empty_store_holds_nothing() {
    let mut store: Store<i32, i32> = Store::new(LRUStrategy::with_capacity(2));
    assert_eq!(0, store.size());
    assert_eq!(None, store.get(&1));
    assert_eq!(None, store.delete(&1));
    assert_eq!(0, store.size());
}

#[test]
fn set_always_succeeds() {
    let mut store = Store::new(LRUStrategy::with_capacity(1));
    assert!(store.set(1, 10));
    assert!(store.set(1, 11));
    assert!(store.set(2, 20));
    assert!(store.set(3, 30));
    assert!(store.set(4, 40));
}

#[test]
fn size_counts_the_keys_that_get_finds() {
    let mut store = Store::new(LRUStrategy::with_capacity(3));
    for key in 0..10 {
        store.set(key, key * 2);
    }
    store.delete(&9);
    store.set(7, 0);
    let mut found = 0;
    for key in 0..10 {
        if store.get(&key).is_some() {
            found += 1;
        }
    }
    assert_eq!(3, found);
    assert_eq!(3, store.size());
}

#[test]
fn bounded_store_settles_one_above_capacity() {
    let mut store = Store::new(LRUStrategy::with_capacity(3));
    let mut sizes = Vec::new();
    for key in 0..8 {
        store.set(key, ());
        sizes.push(store.size());
    }
    assert_eq!(vec![1, 2, 3, 4, 4, 4, 4, 4], sizes);
}

#[test]
fn delete_hands_back_the_value() {
    let mut store = Store::new(LRUStrategy::new());
    store.set(1, String::from("one"));
    store.set(2, String::from("two"));
    assert_eq!(2, store.size());
    assert_eq!(Some(String::from("one")), store.delete(&1));
    assert_eq!(None, store.get(&1));
    assert_eq!(1, store.size());
    assert_eq!(Some(&String::from("two")), store.get(&2));
}

#[test]
fn delete_of_an_absent_key_changes_nothing() {
    let mut store = Store::new(LRUStrategy::new());
    store.set(1, 10);
    store.set(2, 20);
    assert_eq!(None, store.delete(&3));
    assert_eq!(2, store.size());
    assert_eq!(Some(&10), store.get(&1));
    assert_eq!(Some(&20), store.get(&2));
}

#[test]
fn deleted_key_can_be_set_again() {
    let mut store = Store::new(LRUStrategy::with_capacity(2));
    store.set(1, 10);
    assert_eq!(Some(10), store.delete(&1));
    assert_eq!(None, store.delete(&1));
    store.set(1, 11);
    assert_eq!(Some(&11), store.get(&1));
    assert_eq!(1, store.size());
}

#[test]
fn keys_need_not_be_integers() {
    let mut store = Store::new(LRUStrategy::with_capacity(1));
    store.set('a', 1);
    store.set('b', 2);
    store.set('c', 3);
    assert_eq!(None, store.get(&'a'));
    assert_eq!(Some(&2), store.get(&'b'));
    assert_eq!(Some(&3), store.get(&'c'));
}
