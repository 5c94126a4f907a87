//! The least-recently-used policy as mathematics: a cache is a map of entries,
//! a record of the keys in order of use, and a capacity. Every contract of the
//! executable strategy is stated over the functions of this module.

use vstd::prelude::*;
use crate::order::promoted;
use crate::order::without;

verus! {

/// The value that `entries` holds for `key`, if it holds one.
pub open spec fn lookup<Key, Value>(entries: Map<Key, Value>, key: Key) -> Option<Value> {
    if entries.contains_key(key) {
        Some(entries[key])
    } else {
        None
    }
}

/// No two of the pairs have the same key.
pub open spec fn distinct_keys<Key, Value>(pairs: Seq<(Key, Value)>) -> bool {
    forall|i: int, j: int|
        #![trigger pairs[i], pairs[j]]
        0 <= i < j < pairs.len() ==> pairs[i].0 != pairs[j].0
}

/// None of the pairs' keys is stored in `entries`.
pub open spec fn new_keys<Key, Value>(entries: Map<Key, Value>, pairs: Seq<(Key, Value)>) -> bool {
    forall|i: int| 0 <= i < pairs.len() ==> !entries.contains_key(#[trigger] pairs[i].0)
}

/// One operation on a cache.
pub enum Operation<Key, Value> {
    /// A read of the key.
    Read(Key),
    /// The key is set to the value.
    Write(Key, Value),
    /// The key is removed.
    Remove(Key),
}

/// The state of a least-recently-used cache.
#[verifier::reject_recursive_types(Key)]
pub struct LruState<Key, Value> {
    /// The stored pairs.
    pub entries: Map<Key, Value>,
    /// The stored keys, the most recently used first.
    pub recency: Seq<Key>,
    /// The bound on the number of entries; zero stands for no bound.
    pub capacity: nat,
}

impl<Key, Value> LruState<Key, Value> {
    /// The cache that holds nothing.
    pub open spec fn empty(capacity: nat) -> Self {
        LruState { entries: Map::empty(), recency: Seq::empty(), capacity }
    }

    /// Storage and recency record hold the same keys, no key is recorded twice,
    /// and a bounded cache holds at most one entry more than its capacity.
    pub open spec fn wf(self) -> bool {
        &&& self.recency.no_duplicates()
        &&& forall|k: Key|
            #![trigger self.recency.contains(k)]
            #![trigger self.entries.contains_key(k)]
            self.recency.contains(k) <==> self.entries.contains_key(k)
        &&& self.capacity != 0 ==> self.recency.len() <= self.capacity + 1
    }

    /// The number of entries.
    pub open spec fn size(self) -> nat {
        self.recency.len()
    }

    /// The value stored under `key`, if there is one.
    pub open spec fn lookup(self, key: Key) -> Option<Value> {
        lookup(self.entries, key)
    }

    /// The state in which `key` is the most recently used key.
    pub open spec fn promote(self, key: Key) -> Self {
        LruState { recency: promoted(self.recency, key), ..self }
    }

    /// Whether a new key has to push an entry out: the cache is bounded and
    /// already holds more entries than its capacity.
    pub open spec fn overflows(self) -> bool {
        self.capacity != 0 && self.recency.len() > self.capacity
    }

    /// The state without its least recently used entry.
    pub open spec fn evict(self) -> Self {
        LruState {
            entries: self.entries.remove(self.recency.last()),
            recency: self.recency.drop_last(),
            ..self
        }
    }

    /// The state after a read of `key`: a hit promotes the key, a miss changes
    /// nothing.
    pub open spec fn get(self, key: Key) -> Self {
        if self.entries.contains_key(key) {
            self.promote(key)
        } else {
            self
        }
    }

    /// The state after `key` is set to `value`. A new key that finds the cache
    /// overflowing first pushes out the least recently used entry; the pair is
    /// then stored and the key promoted.
    pub open spec fn set(self, key: Key, value: Value) -> Self {
        let room = if !self.entries.contains_key(key) && self.overflows() {
            self.evict()
        } else {
            self
        };
        LruState { entries: room.entries.insert(key, value), ..room }.promote(key)
    }

    /// The state after `key` is removed: a stored key leaves storage and the
    /// recency record, a key that is not stored changes nothing.
    pub open spec fn pop(self, key: Key) -> Self {
        if self.entries.contains_key(key) {
            LruState {
                entries: self.entries.remove(key),
                recency: without(self.recency, key),
                ..self
            }
        } else {
            self
        }
    }

    /// The state after one operation.
    pub open spec fn apply(self, operation: Operation<Key, Value>) -> Self {
        match operation {
            Operation::Read(key) => self.get(key),
            Operation::Write(key, value) => self.set(key, value),
            Operation::Remove(key) => self.pop(key),
        }
    }

    /// The state after the operations, the first first.
    pub open spec fn run(self, operations: Seq<Operation<Key, Value>>) -> Self
        decreases operations.len(),
    {
        if operations.len() == 0 {
            self
        } else {
            self.run(operations.drop_last()).apply(operations.last())
        }
    }

    /// The state after the pairs are set one after the other, the first first.
    pub open spec fn set_all(self, pairs: Seq<(Key, Value)>) -> Self
        decreases pairs.len(),
    {
        if pairs.len() == 0 {
            self
        } else {
            self.set_all(pairs.drop_last()).set(pairs.last().0, pairs.last().1)
        }
    }
}

} // verus!
