//! Eviction strategies: the contract that every caching policy meets, and the
//! least-recently-used policy.

use std::collections::HashMap;
use std::hash::Hash;
use vstd::laws_eq::obeys_concrete_eq;
use vstd::prelude::*;
use vstd::std_specs::hash::obeys_key_model;
use crate::laws::lemma_get_keeps_wf;
use crate::laws::lemma_set_keeps_wf;
use crate::laws::lemma_size_counts_entries;
use crate::model::lookup;
use crate::model::LruState;
use crate::order::lemma_without;
use crate::order::lemma_without_push;
use crate::order::promoted;
use crate::order::without;

verus! {

/// What a strategy needs of its key type: hashing is deterministic, and `==`
/// holds of two keys exactly when they are the same key. Every integer type
/// meets it.
pub open spec fn lawful_key<Key: PartialEq>() -> bool {
    obeys_key_model::<Key>() && obeys_concrete_eq::<Key>()
}

/// A caching policy: it owns the entries and whatever it remembers of their
/// use, and decides which entry leaves when room is needed.
///
/// The view of a strategy is its state as a mathematical value. A policy says
/// what it does by functions on such states: which entries a state holds,
/// which pairs it takes, and the state that each operation leaves. Every
/// operation is held to them; beside that, it promises of the entries what
/// holds of every policy.
pub trait Strategy<Key, Value>: View {
    /// What the policy requires of its own state and of the key type.
    spec fn inv(&self) -> bool;

    /// The entries that are stored in a state.
    spec fn entries(state: Self::V) -> Map<Key, Value>;

    /// The state that a read of `key` leaves.
    spec fn after_get(state: Self::V, key: Key) -> Self::V;

    /// Whether the policy takes the pair.
    spec fn accepts(state: Self::V, key: Key, value: Value) -> bool;

    /// The state that setting `key` to `value` leaves.
    spec fn after_set(state: Self::V, key: Key, value: Value) -> Self::V;

    /// The state that removing `key` leaves.
    spec fn after_pop(state: Self::V, key: Key) -> Self::V;

    /// Looks `key` up. The entries stay as they are; what the policy remembers
    /// of their use may change.
    fn get(&mut self, key: &Key) -> (found: Option<&Value>)
        requires
            old(self).inv(),
        ensures
            final(self).inv(),
            final(self)@ == Self::after_get(old(self)@, *key),
            Self::entries(final(self)@) == Self::entries(old(self)@),
            match found {
                Some(value) => lookup(Self::entries(old(self)@), *key) == Some(*value),
                None => lookup(Self::entries(old(self)@), *key).is_none(),
            },
    ;

    /// Stores `value` under `key` if the policy takes the pair, and says
    /// whether it did. No other key gains an entry or changes its value; other
    /// keys may lose theirs.
    fn set(&mut self, key: Key, value: Value) -> (accepted: bool)
        requires
            old(self).inv(),
        ensures
            final(self).inv(),
            accepted == Self::accepts(old(self)@, key, value),
            final(self)@ == Self::after_set(old(self)@, key, value),
            accepted ==> lookup(Self::entries(final(self)@), key) == Some(value),
            forall|k: Key|
                k != key && #[trigger] Self::entries(final(self)@).contains_key(k) ==> lookup(
                    Self::entries(old(self)@),
                    k,
                ) == Some(Self::entries(final(self)@)[k]),
    ;

    /// The number of entries.
    fn size(&self) -> (n: usize)
        requires
            self.inv(),
        ensures
            n == Self::entries(self@).dom().len(),
    ;

    /// Removes `key` and hands back the value it had. No other entry changes.
    fn pop(&mut self, key: &Key) -> (removed: Option<Value>)
        requires
            old(self).inv(),
        ensures
            final(self).inv(),
            final(self)@ == Self::after_pop(old(self)@, *key),
            Self::entries(final(self)@) == Self::entries(old(self)@).remove(*key),
            removed == lookup(Self::entries(old(self)@), *key),
    ;
}

/// The least-recently-used policy over a hash map and a vector of keys.
pub struct LRUStrategy<Key, Value> {
    cache: HashMap<Key, Value>,
    order: Vec<Key>,
    capacity: usize,
}

impl<Key, Value> View for LRUStrategy<Key, Value> {
    type V = LruState<Key, Value>;

    closed spec fn view(&self) -> LruState<Key, Value> {
        LruState { entries: self.cache@, recency: self.order@, capacity: self.capacity as nat }
    }
}

/// Takes every occurrence of `key` out of `order`, in place: the keys that
/// stay move to the front in their order, and the record is cut behind them.
fn remove_key<Key: Eq + Copy>(order: &mut Vec<Key>, key: &Key)
    requires
        obeys_concrete_eq::<Key>(),
    ensures
        final(order)@ == without(old(order)@, *key),
{
    let ghost before = order@;
    let mut kept: usize = 0;
    let mut i: usize = 0;
    while i < order.len()
        invariant
            obeys_concrete_eq::<Key>(),
            kept <= i <= order.len(),
            order.len() == before.len(),
            order@.take(kept as int) == without(before.take(i as int), *key),
            forall|j: int| i <= j < order.len() ==> order[j] == before[j],
        decreases order.len() - i,
    {
        let k = order[i];
        let ghost front = order@.take(kept as int);
        proof {
            reveal(obeys_concrete_eq);
            assert(before.take(i + 1) == before.take(i as int).push(k));
            lemma_without_push(before.take(i as int), k, *key);
        }
        if k != *key {
            order[kept] = k;
            kept += 1;
            proof {
                assert(order@.take(kept as int) == front.push(k));
            }
        }
        i += 1;
    }
    order.truncate(kept);
    proof {
        assert(before.take(i as int) == before);
    }
}

impl<Key: Eq + Hash + Copy, Value> LRUStrategy<Key, Value> {
    /// Makes `key` the most recently used key of the record.
    fn increment_key(&mut self, key: &Key)
        requires
            obeys_concrete_eq::<Key>(),
        ensures
            final(self)@ == old(self)@.promote(*key),
    {
        remove_key(&mut self.order, key);
        self.order.insert(0, *key);
        proof {
            assert(self.order@ == promoted(old(self).order@, *key));
        }
    }

    /// An empty cache that holds up to `size` entries and one more, or any
    /// number if `size` is zero.
    pub fn with_capacity(size: usize) -> (strategy: LRUStrategy<Key, Value>)
        ensures
            strategy@ == LruState::<Key, Value>::empty(size as nat),
            lawful_key::<Key>() ==> strategy.inv(),
    {
        LRUStrategy { cache: HashMap::new(), order: Vec::new(), capacity: size }
    }

    /// An empty cache without a bound.
    pub fn new() -> (strategy: Self)
        ensures
            strategy@ == LruState::<Key, Value>::empty(0),
            lawful_key::<Key>() ==> strategy.inv(),
    {
        Default::default()
    }
}

impl<Key: Eq + Hash + Copy, Value> Default for LRUStrategy<Key, Value> {
    /// An empty cache without a bound.
    fn default() -> (strategy: Self)
        ensures
            strategy@ == LruState::<Key, Value>::empty(0),
            lawful_key::<Key>() ==> strategy.inv(),
    {
        LRUStrategy { cache: HashMap::new(), order: Vec::new(), capacity: 0 }
    }
}

impl<Key: Eq + Hash + Copy, Value> Strategy<Key, Value> for LRUStrategy<Key, Value> {
    /// The key type is lawful and the state is well formed.
    open spec fn inv(&self) -> bool {
        lawful_key::<Key>() && self@.wf()
    }

    open spec fn entries(state: LruState<Key, Value>) -> Map<Key, Value> {
        state.entries
    }

    open spec fn after_get(state: LruState<Key, Value>, key: Key) -> LruState<Key, Value> {
        state.get(key)
    }

    /// This policy takes every pair.
    open spec fn accepts(state: LruState<Key, Value>, key: Key, value: Value) -> bool {
        true
    }

    open spec fn after_set(state: LruState<Key, Value>, key: Key, value: Value) -> LruState<
        Key,
        Value,
    > {
        state.set(key, value)
    }

    open spec fn after_pop(state: LruState<Key, Value>, key: Key) -> LruState<Key, Value> {
        state.pop(key)
    }

    /// A hit makes `key` the most recently used key; a miss changes nothing.
    fn get(&mut self, key: &Key) -> (found: Option<&Value>)
        ensures
            found.is_some() ==> final(self)@.recency.first() == *key,
            found.is_none() ==> final(self)@ == old(self)@,
    {
        proof {
            lemma_get_keeps_wf(self@, *key);
        }
        if self.cache.contains_key(key) {
            self.increment_key(key);
            self.cache.get(key)
        } else {
            None
        }
    }

    /// Always accepts. An overwrite never evicts; a new key evicts the least
    /// recently used entry if the cache overflows. The key ends up the most
    /// recently used.
    fn set(&mut self, key: Key, value: Value) -> (accepted: bool)
        ensures
            accepted,
            final(self)@.recency.first() == key,
    {
        proof {
            lemma_set_keeps_wf(self@, key, value);
        }
        if self.cache.contains_key(&key) {
            self.increment_key(&key);
            self.cache.insert(key, value);
        } else {
            if self.capacity != 0 && self.order.len() > self.capacity {
                let last_accessed = self.order.pop().unwrap();
                self.cache.remove(&last_accessed);
            }
            self.cache.insert(key, value);
            self.increment_key(&key);
        }
        true
    }

    /// The length of the recency record.
    fn size(&self) -> (n: usize)
        ensures
            n == self@.size(),
    {
        proof {
            lemma_size_counts_entries(self@);
        }
        self.order.len()
    }

    /// The keys that stay keep their order in the recency record; a miss
    /// changes nothing.
    fn pop(&mut self, key: &Key) -> (removed: Option<Value>)
        ensures
            final(self)@.recency == without(old(self)@.recency, *key),
            removed.is_none() ==> final(self)@ == old(self)@,
    {
        proof {
            lemma_without(self@.recency, *key);
        }
        let result = self.cache.remove(key);
        if result.is_some() {
            remove_key(&mut self.order, key);
            result
        } else {
            proof {
                assert(self.cache@ == old(self).cache@);
            }
            None
        }
    }
}

} // verus!
