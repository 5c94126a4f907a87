//! Removing a key from a record of keys, and what the removal keeps.

use vstd::prelude::*;

verus! {

/// The keys of `order` other than `key`, in the order they had.
pub open spec fn without<Key>(order: Seq<Key>, key: Key) -> Seq<Key> {
    order.filter(|k: Key| k != key)
}

/// Removing `key` from a record that ends in `last` removes it from the rest
/// and keeps `last` at the end unless `last` is the key.
pub proof fn lemma_without_push<Key>(order: Seq<Key>, last: Key, key: Key)
    ensures
        without(order.push(last), key) == if last != key {
            without(order, key).push(last)
        } else {
            without(order, key)
        },
{
    reveal(Seq::filter);
    assert(order.push(last).drop_last() == order);
}

/// Removing `key` from two records laid end to end removes it from each.
pub proof fn lemma_without_concat<Key>(front: Seq<Key>, back: Seq<Key>, key: Key)
    ensures
        without(front + back, key) == without(front, key) + without(back, key),
{
    Seq::filter_distributes_over_add(front, back, |k: Key| k != key);
}

/// What `without` keeps: every key but `key`, and no other. A record without
/// duplicates stays without them and loses one key if it held `key`; a record
/// that did not hold `key` stays as it is.
pub proof fn lemma_without<Key>(order: Seq<Key>, key: Key)
    ensures
        forall|k: Key|
            #![trigger without(order, key).contains(k)]
            #![trigger order.contains(k)]
            without(order, key).contains(k) <==> order.contains(k) && k != key,
        without(order, key).len() <= order.len(),
        order.no_duplicates() ==> without(order, key).no_duplicates(),
        !order.contains(key) ==> without(order, key) == order,
        order.no_duplicates() && order.contains(key) ==> without(order, key).len() + 1
            == order.len(),
    decreases order.len(),
{
    reveal(Seq::filter);
    if order.len() > 0 {
        let rest = order.drop_last();
        let last = order.last();
        lemma_without(rest, key);
        assert forall|k: Key| order.contains(k) <==> rest.contains(k) || k == last by {
            if order.contains(k) {
                let i = choose|i: int| 0 <= i < order.len() && order[i] == k;
                if i < rest.len() {
                    assert(rest[i] == k);
                }
            }
        }
        if order.no_duplicates() {
            assert(!rest.contains(last)) by {
                if rest.contains(last) {
                    let i = choose|i: int| 0 <= i < rest.len() && rest[i] == last;
                    assert(order[i] == order[order.len() - 1]);
                }
            }
        }
    }
}

/// The record in which `key` is the most recently used key: `key` first, then
/// the other keys in the order they had.
pub open spec fn promoted<Key>(order: Seq<Key>, key: Key) -> Seq<Key> {
    seq![key] + without(order, key)
}

/// Promotion puts `key` first, keeps every other key, and lengthens the record
/// by one exactly when `key` is new to it.
pub proof fn lemma_promoted<Key>(order: Seq<Key>, key: Key)
    ensures
        promoted(order, key).first() == key,
        forall|k: Key|
            #![trigger promoted(order, key).contains(k)]
            #![trigger order.contains(k)]
            promoted(order, key).contains(k) <==> order.contains(k) || k == key,
        order.no_duplicates() ==> promoted(order, key).no_duplicates(),
        !order.contains(key) ==> promoted(order, key) == seq![key] + order,
        order.no_duplicates() && order.contains(key) ==> promoted(order, key).len()
            == order.len(),
{
    let rest = without(order, key);
    let all = promoted(order, key);
    lemma_without(order, key);
    assert forall|k: Key| all.contains(k) <==> rest.contains(k) || k == key by {
        if rest.contains(k) {
            let i = choose|i: int| 0 <= i < rest.len() && rest[i] == k;
            assert(all[i + 1] == k);
        }
        if k == key {
            assert(all[0] == k);
        }
    }
}

/// Dropping the last key of a record without duplicates removes that key and
/// no other.
pub proof fn lemma_drop_last<Key>(order: Seq<Key>)
    requires
        order.no_duplicates(),
        order.len() > 0,
    ensures
        order.drop_last().no_duplicates(),
        forall|k: Key|
            #![trigger order.drop_last().contains(k)]
            #![trigger order.contains(k)]
            order.drop_last().contains(k) <==> order.contains(k) && k != order.last(),
{
    let rest = order.drop_last();
    assert forall|k: Key| rest.contains(k) <==> order.contains(k) && k != order.last() by {
        if order.contains(k) && k != order.last() {
            let i = choose|i: int| 0 <= i < order.len() && order[i] == k;
            assert(rest[i] == k);
        }
    }
}

} // verus!
