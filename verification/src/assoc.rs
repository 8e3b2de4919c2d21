//! Association lists: ordered pairs of a key and a value, read by key.

use vstd::prelude::*;

verus! {

/// The value of the first pair whose key is `key`.
pub open spec fn first_value<K, V>(list: Seq<(K, V)>, key: K) -> Option<V>
    decreases list.len(),
{
    if list.len() == 0 {
        None
    } else {
        match first_value(list.drop_last(), key) {
            Some(value) => Some(value),
            None => if list.last().0 == key {
                Some(list.last().1)
            } else {
                None
            },
        }
    }
}

/// The list without the pairs whose key is `key`; the others keep their order.
pub open spec fn without<K, V>(list: Seq<(K, V)>, key: K) -> Seq<(K, V)>
    decreases list.len(),
{
    if list.len() == 0 {
        list
    } else if list.last().0 == key {
        without(list.drop_last(), key)
    } else {
        without(list.drop_last(), key).push(list.last())
    }
}

/// The list in which `key` has the one value `value`: earlier pairs of that key are
/// removed, and the new one stands at the end.
pub open spec fn with_entry<K, V>(list: Seq<(K, V)>, key: K, value: V) -> Seq<(K, V)> {
    without(list, key).push((key, value))
}

/// `base` with every pair of `extra` set in it, in the order of `extra`.
pub open spec fn merged<K, V>(base: Seq<(K, V)>, extra: Seq<(K, V)>) -> Seq<(K, V)>
    decreases extra.len(),
{
    if extra.len() == 0 {
        base
    } else {
        with_entry(merged(base, extra.drop_last()), extra.last().0, extra.last().1)
    }
}

/// No key occurs twice in the list.
pub open spec fn distinct_keys<K, V>(list: Seq<(K, V)>) -> bool {
    forall|i: int, j: int|
        0 <= i < j < list.len() ==> (#[trigger] list[i]).0 != (#[trigger] list[j]).0
}

/// A key found in a prefix of the list has the value that it has there.
pub proof fn lemma_first_value_extends<K, V>(list: Seq<(K, V)>, key: K, k: int)
    requires
        0 <= k <= list.len(),
        first_value(list.take(k), key) is Some,
    ensures
        first_value(list, key) == first_value(list.take(k), key),
    decreases list.len() - k,
{
    if k < list.len() {
        assert(list.take(k + 1).drop_last() == list.take(k));
        lemma_first_value_extends(list, key, k + 1);
    } else {
        assert(list.take(k) == list);
    }
}

/// Removing a key removes it, and touches no other key.
pub proof fn lemma_without<K, V>(list: Seq<(K, V)>, key: K, other: K)
    ensures
        first_value(without(list, key), key) is None,
        other != key ==> first_value(without(list, key), other) == first_value(list, other),
    decreases list.len(),
{
    if list.len() > 0 {
        lemma_without(list.drop_last(), key, other);
        if list.last().0 != key {
            let kept = without(list.drop_last(), key);
            assert(kept.push(list.last()).drop_last() == kept);
        }
    }
}

/// Removing a key that the list does not hold leaves the list as it is.
pub proof fn lemma_without_absent<K, V>(list: Seq<(K, V)>, key: K)
    requires
        forall|i: int| 0 <= i < list.len() ==> (#[trigger] list[i]).0 != key,
    ensures
        without(list, key) == list,
    decreases list.len(),
{
    if list.len() > 0 {
        let before = list.drop_last();
        assert forall|i: int| 0 <= i < before.len() implies (#[trigger] before[i]).0 != key by {
            assert(before[i] == list[i]);
        }
        lemma_without_absent(before, key);
        assert(list.last() == list[list.len() - 1]);
        assert(before.push(list.last()) == list);
    }
}

/// Setting a key gives it that value, and touches no other key.
pub proof fn lemma_with_entry<K, V>(list: Seq<(K, V)>, key: K, value: V, other: K)
    ensures
        first_value(with_entry(list, key, value), key) == Some(value),
        other != key ==> first_value(with_entry(list, key, value), other) == first_value(
            list,
            other,
        ),
{
    lemma_without(list, key, other);
    let kept = without(list, key);
    assert(kept.push((key, value)).drop_last() == kept);
}

/// After a merge, every pair of `extra` is in the result with its value, provided
/// that `extra` holds no key twice.
pub proof fn lemma_merged_has_extra<K, V>(base: Seq<(K, V)>, extra: Seq<(K, V)>, i: int)
    requires
        distinct_keys(extra),
        0 <= i < extra.len(),
    ensures
        first_value(merged(base, extra), extra[i].0) == Some(extra[i].1),
    decreases extra.len(),
{
    let before = extra.drop_last();
    let last = extra.last();
    lemma_with_entry(merged(base, before), last.0, last.1, extra[i].0);
    if i < extra.len() - 1 {
        assert(before[i] == extra[i]);
        assert(distinct_keys(before)) by {
            assert forall|a: int, b: int| 0 <= a < b < before.len() implies (
            #[trigger] before[a]).0 != (#[trigger] before[b]).0 by {
                assert(before[a] == extra[a] && before[b] == extra[b]);
            }
        }
        lemma_merged_has_extra(base, before, i);
        assert(extra[i].0 != last.0);
    }
}

/// A merge touches no key that `extra` does not hold.
pub proof fn lemma_merged_keeps_others<K, V>(base: Seq<(K, V)>, extra: Seq<(K, V)>, other: K)
    requires
        forall|i: int| 0 <= i < extra.len() ==> (#[trigger] extra[i]).0 != other,
    ensures
        first_value(merged(base, extra), other) == first_value(base, other),
    decreases extra.len(),
{
    if extra.len() > 0 {
        let before = extra.drop_last();
        let last = extra.last();
        assert forall|i: int| 0 <= i < before.len() implies (#[trigger] before[i]).0 != other by {
            assert(before[i] == extra[i]);
        }
        lemma_merged_keeps_others(base, before, other);
        assert(last == extra[extra.len() - 1]);
        lemma_with_entry(merged(base, before), last.0, last.1, other);
    }
}

/// Merging the same pairs a second time changes no key's value.
pub proof fn lemma_merged_twice<K, V>(base: Seq<(K, V)>, extra: Seq<(K, V)>, key: K)
    requires
        distinct_keys(extra),
    ensures
        first_value(merged(merged(base, extra), extra), key) == first_value(
            merged(base, extra),
            key,
        ),
{
    let once = merged(base, extra);
    if exists|i: int| 0 <= i < extra.len() && (#[trigger] extra[i]).0 == key {
        let i = choose|i: int| 0 <= i < extra.len() && (#[trigger] extra[i]).0 == key;
        lemma_merged_has_extra(base, extra, i);
        lemma_merged_has_extra(once, extra, i);
    } else {
        lemma_merged_keeps_others(once, extra, key);
    }
}

} // verus!
