//! What holds of the least-recently-used policy in every state and over runs
//! of operations.

use vstd::prelude::*;
use crate::model::distinct_keys;
use crate::model::new_keys;
use crate::model::LruState;
use crate::model::Operation;
use crate::order::lemma_drop_last;
use crate::order::lemma_promoted;
use crate::order::lemma_without;
use crate::order::lemma_without_concat;
use crate::order::without;

verus! {

/// A read keeps a well-formed state well formed.
pub proof fn lemma_get_keeps_wf<Key, Value>(state: LruState<Key, Value>, key: Key)
    requires
        state.wf(),
    ensures
        state.get(key).wf(),
{
    lemma_promoted(state.recency, key);
}

/// Setting a key keeps a well-formed state well formed.
pub proof fn lemma_set_keeps_wf<Key, Value>(state: LruState<Key, Value>, key: Key, value: Value)
    requires
        state.wf(),
    ensures
        state.set(key, value).wf(),
{
    let room = if !state.entries.contains_key(key) && state.overflows() {
        state.evict()
    } else {
        state
    };
    if !state.entries.contains_key(key) && state.overflows() {
        lemma_drop_last(state.recency);
    }
    lemma_promoted(room.recency, key);
}

/// Removing a key keeps a well-formed state well formed.
pub proof fn lemma_pop_keeps_wf<Key, Value>(state: LruState<Key, Value>, key: Key)
    requires
        state.wf(),
    ensures
        state.pop(key).wf(),
{
    lemma_without(state.recency, key);
}

/// No run of operations leaves the well-formed states.
pub proof fn lemma_run_keeps_wf<Key, Value>(
    state: LruState<Key, Value>,
    operations: Seq<Operation<Key, Value>>,
)
    requires
        state.wf(),
    ensures
        state.run(operations).wf(),
    decreases operations.len(),
{
    if operations.len() > 0 {
        let before = state.run(operations.drop_last());
        lemma_run_keeps_wf(state, operations.drop_last());
        match operations.last() {
            Operation::Read(key) => lemma_get_keeps_wf(before, key),
            Operation::Write(key, value) => lemma_set_keeps_wf(before, key, value),
            Operation::Remove(key) => lemma_pop_keeps_wf(before, key),
        }
    }
}

/// Every state that operations reach from an empty cache is well formed.
pub proof fn lemma_reachable_wf<Key, Value>(
    capacity: nat,
    operations: Seq<Operation<Key, Value>>,
)
    ensures
        LruState::<Key, Value>::empty(capacity).run(operations).wf(),
{
    lemma_run_keeps_wf(LruState::<Key, Value>::empty(capacity), operations);
}

/// In a well-formed state the size is the number of stored keys, which is the
/// number of keys that a read finds, and the length of the recency record.
pub proof fn lemma_size_counts_entries<Key, Value>(state: LruState<Key, Value>)
    requires
        state.wf(),
    ensures
        state.entries.dom().finite(),
        state.size() == state.entries.dom().len(),
        state.size() == state.recency.len(),
        forall|k: Key| state.lookup(k).is_some() <==> state.recency.contains(k),
{
    state.recency.unique_seq_to_set();
    assert(state.recency.to_set() =~= state.entries.dom());
}

/// After a key is set, and after a read finds it, it is the most recently
/// used key.
pub proof fn lemma_promotion<Key, Value>(state: LruState<Key, Value>, key: Key, value: Value)
    ensures
        state.set(key, value).recency.first() == key,
        state.lookup(key).is_some() ==> state.get(key).recency.first() == key,
{
}

/// Setting a new key puts it in front of the recency record and stores the
/// pair; if the cache overflows, the last key of the record and its entry go
/// first.
pub proof fn lemma_set_new_key<Key, Value>(state: LruState<Key, Value>, key: Key, value: Value)
    requires
        state.wf(),
        !state.entries.contains_key(key),
    ensures
        state.overflows() ==> state.set(key, value).recency == seq![key]
            + state.recency.drop_last() && state.set(key, value).entries == state.entries.remove(
            state.recency.last(),
        ).insert(key, value),
        !state.overflows() ==> state.set(key, value).recency == seq![key] + state.recency
            && state.set(key, value).entries == state.entries.insert(key, value),
{
    if state.overflows() {
        lemma_promoted(state.recency.drop_last(), key);
    } else {
        lemma_promoted(state.recency, key);
    }
}

/// Setting a key twice in a row leaves the size that the first setting left,
/// and a read then finds the second value.
pub proof fn lemma_overwrite<Key, Value>(
    state: LruState<Key, Value>,
    key: Key,
    first: Value,
    second: Value,
)
    requires
        state.wf(),
    ensures
        state.set(key, first).set(key, second).size() == state.set(key, first).size(),
        state.set(key, first).set(key, second).recency == state.set(key, first).recency,
        state.set(key, first).set(key, second).lookup(key) == Some(second),
{
    let once = state.set(key, first);
    let others = once.recency.skip(1);
    lemma_set_keeps_wf(state, key, first);
    assert(once.recency == seq![key] + others);
    assert(!others.contains(key)) by {
        if others.contains(key) {
            let i = choose|i: int| 0 <= i < others.len() && others[i] == key;
            assert(once.recency[i + 1] == once.recency[0]);
        }
    }
    lemma_without_concat(seq![key], others, key);
    lemma_without(seq![key], key);
    lemma_without(others, key);
}

/// Removing a stored key makes it absent and the size one less; removing a key
/// that is not stored changes nothing.
pub proof fn lemma_deletion<Key, Value>(state: LruState<Key, Value>, key: Key)
    requires
        state.wf(),
    ensures
        state.pop(key).lookup(key).is_none(),
        state.lookup(key).is_some() ==> state.pop(key).size() + 1 == state.size(),
        state.lookup(key).is_none() ==> state.pop(key) == state,
        forall|k: Key| k != key ==> state.pop(key).lookup(k) == state.lookup(k),
{
    lemma_without(state.recency, key);
}

/// Without a bound nothing is ever pushed out: after any run of settings every
/// entry that was stored is still stored, and so is every key that was set.
/// Each new key makes the cache one larger.
pub proof fn lemma_unbounded<Key, Value>(state: LruState<Key, Value>, pairs: Seq<(Key, Value)>)
    requires
        state.wf(),
        state.capacity == 0,
    ensures
        state.set_all(pairs).wf(),
        state.set_all(pairs).capacity == 0,
        forall|k: Key| #[trigger]
            state.entries.contains_key(k) ==> state.set_all(pairs).entries.contains_key(k),
        forall|i: int|
            0 <= i < pairs.len() ==> state.set_all(pairs).entries.contains_key(
                #[trigger] pairs[i].0,
            ),
        distinct_keys(pairs) && new_keys(state.entries, pairs) ==> state.set_all(pairs).size()
            == state.size() + pairs.len(),
    decreases pairs.len(),
{
    if pairs.len() > 0 {
        let before = state.set_all(pairs.drop_last());
        let (key, value) = pairs.last();
        lemma_unbounded(state, pairs.drop_last());
        lemma_set_keeps_wf(before, key, value);
        let after = state.set_all(pairs);
        assert forall|i: int| 0 <= i < pairs.len() implies after.entries.contains_key(
            #[trigger] pairs[i].0,
        ) by {
            if i < pairs.len() - 1 {
                assert(pairs.drop_last()[i] == pairs[i]);
            }
        }
        if distinct_keys(pairs) && new_keys(state.entries, pairs) {
            assert(!before.entries.contains_key(key)) by {
                if before.entries.contains_key(key) {
                    lemma_unbounded_keys(state, pairs.drop_last(), key);
                }
            }
            lemma_set_new_key(before, key, value);
        }
    }
}

/// Without a bound a run of settings stores no key but those that were stored
/// and those that were set.
pub proof fn lemma_unbounded_keys<Key, Value>(
    state: LruState<Key, Value>,
    pairs: Seq<(Key, Value)>,
    key: Key,
)
    requires
        state.capacity == 0,
        state.set_all(pairs).entries.contains_key(key),
    ensures
        state.entries.contains_key(key) || exists|i: int| 0 <= i < pairs.len() && pairs[i].0 == key,
    decreases pairs.len(),
{
    if pairs.len() > 0 && pairs.last().0 != key {
        lemma_set_all_capacity(state, pairs.drop_last());
        lemma_unbounded_keys(state, pairs.drop_last(), key);
        if !state.entries.contains_key(key) {
            let earlier = pairs.drop_last();
            let i = choose|i: int| 0 <= i < earlier.len() && earlier[i].0 == key;
            assert(pairs[i].0 == key);
        }
    }
}

/// A run of settings leaves the capacity as it was.
pub proof fn lemma_set_all_capacity<Key, Value>(
    state: LruState<Key, Value>,
    pairs: Seq<(Key, Value)>,
)
    ensures
        state.set_all(pairs).capacity == state.capacity,
    decreases pairs.len(),
{
    if pairs.len() > 0 {
        lemma_set_all_capacity(state, pairs.drop_last());
    }
}

/// Setting distinct new keys, no more than the capacity and one, pushes none
/// of them out: they head the recency record, the last set first, behind them
/// stand keys that were stored before, and each has its value.
pub proof fn lemma_fill<Key, Value>(state: LruState<Key, Value>, pairs: Seq<(Key, Value)>)
    requires
        state.wf(),
        state.capacity > 0,
        pairs.len() <= state.capacity + 1,
        distinct_keys(pairs),
        new_keys(state.entries, pairs),
    ensures
        state.set_all(pairs).wf(),
        state.set_all(pairs).capacity == state.capacity,
        state.set_all(pairs).recency.len() >= pairs.len(),
        forall|j: int|
            0 <= j < pairs.len() ==> #[trigger] state.set_all(pairs).recency[j] == pairs[pairs.len()
                - 1 - j].0,
        forall|j: int|
            pairs.len() <= j < state.set_all(pairs).recency.len() ==> state.entries.contains_key(
                #[trigger] state.set_all(pairs).recency[j],
            ),
        forall|i: int|
            0 <= i < pairs.len() ==> state.set_all(pairs).lookup(#[trigger] pairs[i].0) == Some(
                pairs[i].1,
            ),
    decreases pairs.len(),
{
    if pairs.len() > 0 {
        let earlier = pairs.drop_last();
        let before = state.set_all(earlier);
        let after = state.set_all(pairs);
        let (key, value) = pairs.last();
        lemma_fill(state, earlier);
        lemma_set_keeps_wf(before, key, value);
        assert(!before.recency.contains(key)) by {
            if before.recency.contains(key) {
                let j = choose|j: int| 0 <= j < before.recency.len() && before.recency[j] == key;
                if j < earlier.len() {
                    assert(earlier[earlier.len() - 1 - j] == pairs[earlier.len() - 1 - j]);
                }
            }
        }
        lemma_set_new_key(before, key, value);
        assert forall|i: int| 0 <= i < pairs.len() implies after.lookup(#[trigger] pairs[i].0)
            == Some(pairs[i].1) by {
            if i < earlier.len() {
                assert(before.lookup(earlier[i].0) == Some(earlier[i].1));
            }
        }
    }
}

/// In a cache of capacity N, not zero, setting N + 2 distinct new keys pushes
/// out the first of them, and does so with the last setting: before it all of
/// the first N + 1 are stored, after it all but the first are, each with its
/// value.
pub proof fn lemma_eviction<Key, Value>(state: LruState<Key, Value>, pairs: Seq<(Key, Value)>)
    requires
        state.wf(),
        state.capacity > 0,
        pairs.len() == state.capacity + 2,
        distinct_keys(pairs),
        new_keys(state.entries, pairs),
    ensures
        forall|i: int|
            0 <= i < pairs.len() - 1 ==> state.set_all(pairs.drop_last()).lookup(
                #[trigger] pairs[i].0,
            ) == Some(pairs[i].1),
        state.set_all(pairs).lookup(pairs[0].0).is_none(),
        forall|i: int|
            1 <= i < pairs.len() ==> state.set_all(pairs).lookup(#[trigger] pairs[i].0) == Some(
                pairs[i].1,
            ),
        state.set_all(pairs).size() == state.capacity + 1,
{
    let earlier = pairs.drop_last();
    let before = state.set_all(earlier);
    let after = state.set_all(pairs);
    let (key, value) = pairs.last();
    lemma_fill(state, earlier);
    assert forall|i: int| 0 <= i < pairs.len() - 1 implies before.lookup(#[trigger] pairs[i].0)
        == Some(pairs[i].1) by {
        assert(earlier[i] == pairs[i]);
    }
    assert(before.overflows() && before.recency.last() == pairs[0].0) by {
        assert(before.recency[earlier.len() - 1] == earlier[0].0);
    }
    assert(!before.entries.contains_key(key)) by {
        if before.recency.contains(key) {
            let j = choose|j: int| 0 <= j < before.recency.len() && before.recency[j] == key;
            assert(earlier[earlier.len() - 1 - j] == pairs[earlier.len() - 1 - j]);
        }
    }
    lemma_set_new_key(before, key, value);
}

/// Setting keys that were not stored pushes stored keys out from the back of
/// the recency record only: what is left of the old record is a front part of
/// it, `kept` keys long, at the end of the new record, and before it stand new
/// keys only. No stored value changes.
pub proof fn lemma_pressure<Key, Value>(
    state: LruState<Key, Value>,
    pairs: Seq<(Key, Value)>,
) -> (kept: nat)
    requires
        state.wf(),
        new_keys(state.entries, pairs),
    ensures
        state.set_all(pairs).wf(),
        kept <= state.recency.len(),
        kept <= state.set_all(pairs).recency.len(),
        state.set_all(pairs).recency.skip(state.set_all(pairs).recency.len() - kept)
            == state.recency.take(kept as int),
        forall|j: int|
            0 <= j < state.set_all(pairs).recency.len() - kept ==> !state.entries.contains_key(
                #[trigger] state.set_all(pairs).recency[j],
            ),
        forall|k: Key|
            state.entries.contains_key(k) && #[trigger] state.set_all(pairs).entries.contains_key(k)
                ==> state.set_all(pairs).entries[k] == state.entries[k],
    decreases pairs.len(),
{
    if pairs.len() == 0 {
        state.recency.len()
    } else {
        let earlier = pairs.drop_last();
        let before = state.set_all(earlier);
        let after = state.set_all(pairs);
        let (key, value) = pairs.last();
        let kept_before = lemma_pressure(state, earlier);
        lemma_set_keeps_wf(before, key, value);
        let split = before.recency.len() - kept_before;
        let front = before.recency.take(split);
        let back = before.recency.skip(split);
        assert(before.recency == front + back);
        if before.entries.contains_key(key) {
            // The key is one of the new ones: it moves within the front part.
            lemma_without_concat(front, back, key);
            lemma_without(front, key);
            lemma_without(back, key);
            assert(after.recency == seq![key] + without(front, key) + back);
            assert forall|j: int|
                0 <= j < after.recency.len() - kept_before implies !state.entries.contains_key(
                #[trigger] after.recency[j],
            ) by {
                if j > 0 {
                    assert(without(front, key).contains(without(front, key)[j - 1]));
                    let i = choose|i: int| 0 <= i < front.len() && front[i] == after.recency[j];
                    assert(before.recency[i] == after.recency[j]);
                }
            }
            kept_before
        } else {
            // The key joins the front part; what overflows leaves from the back.
            lemma_set_new_key(before, key, value);
            if before.overflows() && kept_before > 0 {
                (kept_before - 1) as nat
            } else {
                kept_before
            }
        }
    }
}

/// The most recently used key is the last of the stored keys to be pushed out
/// by settings of keys that were not stored: as long as any key that was
/// stored is still stored, so is the one that was used last.
pub proof fn lemma_most_recent_leaves_last<Key, Value>(
    state: LruState<Key, Value>,
    pairs: Seq<(Key, Value)>,
    key: Key,
)
    requires
        state.wf(),
        new_keys(state.entries, pairs),
        state.entries.contains_key(key),
        state.set_all(pairs).entries.contains_key(key),
    ensures
        state.set_all(pairs).entries.contains_key(state.recency.first()),
{
    let after = state.set_all(pairs);
    let kept = lemma_pressure(state, pairs);
    let back = after.recency.skip(after.recency.len() - kept);
    // The key stands in the part that is left of the old record, which
    // therefore is not empty and begins with the old record's first key.
    let j = choose|j: int| 0 <= j < after.recency.len() && after.recency[j] == key;
    assert(j >= after.recency.len() - kept);
    assert(back[0] == state.recency.take(kept as int)[0]);
    assert(after.recency.contains(state.recency.first()));
}

} // verus!
