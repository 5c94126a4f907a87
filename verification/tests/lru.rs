use lru_store::LRUStrategy;
use lru_store::Strategy;

#[test]
fn new_strategy_is_empty_and_unbounded() {
    let mut lru: LRUStrategy<u32, u32> = LRUStrategy::new();
    assert_eq!(0, lru.size());
    for key in 0..100 {
        assert!(lru.set(key, key + 1));
    }
    assert_eq!(100, lru.size());
    for key in 0..100 {
        assert_eq!(Some(&(key + 1)), lru.get(&key));
    }
}

#[test]
fn default_strategy_is_unbounded() {
    let mut lru: LRUStrategy<u8, u8> = Default::default();
    assert_eq!(0, lru.size());
    lru.set(1, 1);
    lru.set(2, 2);
    lru.set(3, 3);
    assert_eq!(3, lru.size());
    assert_eq!(Some(&1), lru.get(&1));
}

#[test]
fn capacity_zero_never_evicts() {
    let mut lru = LRUStrategy::with_capacity(0);
    for key in 0..1000u64 {
        lru.set(key, key);
        assert_eq!(key as usize + 1, lru.size());
    }
    for key in 0..1000u64 {
        assert_eq!(Some(&key), lru.get(&key));
    }
}

#[test]
fn capacity_one_holds_two_entries() {
    let mut lru = LRUStrategy::with_capacity(1);
    lru.set(1, 'a');
    lru.set(2, 'b');
    assert_eq!(2, lru.size());
    lru.set(3, 'c');
    assert_eq!(2, lru.size());
    assert_eq!(None, lru.get(&1));
    assert_eq!(Some(&'b'), lru.get(&2));
    assert_eq!(Some(&'c'), lru.get(&3));
}

#[test]
fn get_promotes_the_key() {
    let mut lru = LRUStrategy::with_capacity(2);
    lru.set(1, 10);
    lru.set(2, 20);
    lru.set(3, 30);
    assert_eq!(Some(&10), lru.get(&1));
    lru.set(4, 40);
    assert_eq!(None, lru.get(&2));
    lru.set(5, 50);
    assert_eq!(None, lru.get(&3));
    assert_eq!(Some(&10), lru.get(&1));
    assert_eq!(Some(&40), lru.get(&4));
    assert_eq!(Some(&50), lru.get(&5));
}

#[test]
fn overwrite_promotes_the_key() {
    let mut lru = LRUStrategy::with_capacity(2);
    lru.set(1, 10);
    lru.set(2, 20);
    lru.set(3, 30);
    lru.set(1, 11);
    lru.set(4, 40);
    assert_eq!(None, lru.get(&2));
    assert_eq!(Some(&11), lru.get(&1));
    assert_eq!(Some(&30), lru.get(&3));
    assert_eq!(Some(&40), lru.get(&4));
}

#[test]
fn overwrite_never_evicts() {
    let mut lru = LRUStrategy::with_capacity(1);
    lru.set(1, 10);
    lru.set(2, 20);
    lru.set(1, 11);
    lru.set(2, 21);
    lru.set(1, 12);
    assert_eq!(2, lru.size());
    assert_eq!(Some(&12), lru.get(&1));
    assert_eq!(Some(&21), lru.get(&2));
}

#[test]
fn miss_does_not_touch_the_order() {
    let mut lru = LRUStrategy::with_capacity(1);
    lru.set(1, 10);
    lru.set(2, 20);
    assert_eq!(None, lru.get(&9));
    assert_eq!(2, lru.size());
    lru.set(3, 30);
    assert_eq!(None, lru.get(&1));
    assert_eq!(None, lru.get(&9));
    assert_eq!(Some(&20), lru.get(&2));
}

#[test]
fn pop_keeps_the_order_of_the_rest() {
    let mut lru = LRUStrategy::with_capacity(3);
    lru.set(1, 10);
    lru.set(2, 20);
    lru.set(3, 30);
    lru.set(4, 40);
    assert_eq!(Some(30), lru.pop(&3));
    assert_eq!(3, lru.size());
    lru.set(5, 50);
    assert_eq!(4, lru.size());
    lru.set(6, 60);
    assert_eq!(None, lru.get(&1));
    lru.set(7, 70);
    assert_eq!(None, lru.get(&2));
    assert_eq!(Some(&40), lru.get(&4));
}

#[test]
fn pop_of_an_absent_key_returns_nothing() {
    let mut lru: LRUStrategy<i64, i64> = LRUStrategy::with_capacity(4);
    assert_eq!(None, lru.pop(&1));
    lru.set(1, 1);
    assert_eq!(None, lru.pop(&2));
    assert_eq!(1, lru.size());
    assert_eq!(Some(1), lru.pop(&1));
    assert_eq!(None, lru.pop(&1));
    assert_eq!(0, lru.size());
}

#[test]
fn eviction_takes_exactly_one_entry() {
    let mut lru = LRUStrategy::with_capacity(2);
    lru.set(1, 1);
    lru.set(2, 2);
    lru.set(3, 3);
    lru.set(4, 4);
    assert_eq!(3, lru.size());
    assert_eq!(None, lru.get(&1));
    assert_eq!(Some(&2), lru.get(&2));
    assert_eq!(Some(&3), lru.get(&3));
    assert_eq!(Some(&4), lru.get(&4));
}
