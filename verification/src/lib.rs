//! A key-value store in front of an eviction strategy.
//!
//! The store owns one [`Strategy`] and hands every operation to it. The
//! strategy of this crate is [`LRUStrategy`], which gives up the entry that
//! was used least recently once it holds more entries than its capacity.

pub mod laws;
pub mod model;
pub mod order;
pub mod store;

use std::marker::PhantomData;
use vstd::prelude::*;
use crate::model::lookup;
pub use crate::store::LRUStrategy;
pub use crate::store::Strategy;

verus! {

/// A store that owns one strategy and forwards every operation to it
/// unchanged: what an operation returns and the state it leaves are the
/// strategy's.
pub struct Store<Key, Value, S = LRUStrategy<Key, Value>> {
    strategy: S,
    marker: PhantomData<(Key, Value)>,
}

impl<Key, Value, S: Strategy<Key, Value>> View for Store<Key, Value, S> {
    type V = S::V;

    /// The state of the strategy.
    open spec fn view(&self) -> S::V {
        self.strategy()@
    }
}

impl<Key, Value, S: Strategy<Key, Value>> Store<Key, Value, S> {
    /// The strategy that the store owns.
    pub closed spec fn strategy(&self) -> S {
        self.strategy
    }

    /// What the strategy requires of its state and of the key type.
    pub open spec fn inv(&self) -> bool {
        self.strategy().inv()
    }

    /// The store over `strategy`.
    pub fn new(strategy: S) -> (store: Self)
        ensures
            store.strategy() == strategy,
    {
        Store { strategy, marker: PhantomData }
    }

    /// Stores `value` under `key` if the strategy takes the pair, and says
    /// whether it did.
    pub fn set(&mut self, key: Key, value: Value) -> (accepted: bool)
        requires
            old(self).inv(),
        ensures
            final(self).inv(),
            accepted == S::accepts(old(self)@, key, value),
            final(self)@ == S::after_set(old(self)@, key, value),
            accepted ==> lookup(S::entries(final(self)@), key) == Some(value),
            forall|k: Key|
                k != key && #[trigger] S::entries(final(self)@).contains_key(k) ==> lookup(
                    S::entries(old(self)@),
                    k,
                ) == Some(S::entries(final(self)@)[k]),
    {
        self.strategy.set(key, value)
    }

    /// The value stored under `key`, if there is one. The entries stay as they
    /// are; the strategy takes note of the read.
    pub fn get(&mut self, key: &Key) -> (found: Option<&Value>)
        requires
            old(self).inv(),
        ensures
            final(self).inv(),
            final(self)@ == S::after_get(old(self)@, *key),
            S::entries(final(self)@) == S::entries(old(self)@),
            match found {
                Some(value) => lookup(S::entries(old(self)@), *key) == Some(*value),
                None => lookup(S::entries(old(self)@), *key).is_none(),
            },
    {
        self.strategy.get(key)
    }

    /// Removes `key` and hands back the value it had, if it had one.
    pub fn delete(&mut self, key: &Key) -> (removed: Option<Value>)
        requires
            old(self).inv(),
        ensures
            final(self).inv(),
            final(self)@ == S::after_pop(old(self)@, *key),
            S::entries(final(self)@) == S::entries(old(self)@).remove(*key),
            removed == lookup(S::entries(old(self)@), *key),
    {
        self.strategy.pop(key)
    }

    /// The number of entries.
    pub fn size(&self) -> (n: usize)
        requires
            self.inv(),
        ensures
            n == S::entries(self@).dom().len(),
    {
        self.strategy.size()
    }
}

} // verus!
