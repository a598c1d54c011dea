//! Grouping of a sequence by a key, keeping the order of the sequence
//! inside every group.

use std::collections::BTreeMap;
use vstd::prelude::*;
use vstd::laws_cmp::obeys_cmp;
use vstd::std_specs::btree::{increasing_seq, spec_keys_iter};
use vstd::std_specs::iter::IteratorSpec;

verus! {

/// The items whose key is `key`, in the order of `items`. `keys` holds
/// the key of each item, position by position.
pub open spec fn members<T, K>(items: Seq<T>, keys: Seq<K>, key: K) -> Seq<T>
    recommends
        keys.len() == items.len(),
    decreases items.len(),
{
    if items.len() == 0 || keys.len() == 0 {
        Seq::empty()
    } else if keys.last() == key {
        members(items.drop_last(), keys.drop_last(), key).push(items.last())
    } else {
        members(items.drop_last(), keys.drop_last(), key)
    }
}

/// The grouping of `items` by `keys`: every key that occurs maps to the
/// items that carry it, in the order of `items`.
pub open spec fn grouped<T, K>(items: Seq<T>, keys: Seq<K>) -> Map<K, Seq<T>>
    recommends
        keys.len() == items.len(),
{
    Map::new(|key: K| keys.contains(key), |key: K| members(items, keys, key))
}

/// The contents of the groups of a map of vectors.
pub open spec fn sequences<T, K>(groups: Map<K, Vec<T>>) -> Map<K, Seq<T>> {
    groups.map_values(|group: Vec<T>| group@)
}

/// Whether `keys` holds, position by position, a key that `extract`
/// may return for the item at that position.
pub open spec fn keyed_by<T, K, F: Fn(&T) -> K>(extract: F, items: Seq<T>, keys: Seq<K>) -> bool {
    &&& keys.len() == items.len()
    &&& forall|i: int| 0 <= i < items.len() ==> call_ensures(extract, (&items[i],), #[trigger] keys[i])
}

/// Grouping one more item: its group gains it at the end, the other
/// groups stay as they are.
pub proof fn lemma_grouped_push<T, K>(items: Seq<T>, keys: Seq<K>, item: T, key: K)
    requires
        keys.len() == items.len(),
    ensures
        grouped(items.push(item), keys.push(key)) == grouped(items, keys).insert(
            key,
            members(items, keys, key).push(item),
        ),
        !keys.contains(key) ==> members(items, keys, key) == Seq::<T>::empty(),
{
    let more_items = items.push(item);
    let more_keys = keys.push(key);
    assert(more_items.drop_last() == items);
    assert(more_keys.drop_last() == keys);
    assert forall|k: K| more_keys.contains(k) <==> (k == key || keys.contains(k)) by {
        if more_keys.contains(k) {
            let i = choose|i: int| 0 <= i < more_keys.len() && more_keys[i] == k;
            if i < keys.len() {
                assert(keys[i] == k);
            }
        }
        if keys.contains(k) {
            let i = choose|i: int| 0 <= i < keys.len() && keys[i] == k;
            assert(more_keys[i] == k);
        }
        if k == key {
            assert(more_keys[keys.len() as int] == k);
        }
    }
    assert(grouped(more_items, more_keys) =~= grouped(items, keys).insert(
        key,
        members(items, keys, key).push(item),
    ));
    lemma_members_of_absent_key(items, keys, key);
}

/// A key that does not occur has no members.
pub proof fn lemma_members_of_absent_key<T, K>(items: Seq<T>, keys: Seq<K>, key: K)
    requires
        keys.len() == items.len(),
    ensures
        !keys.contains(key) ==> members(items, keys, key) == Seq::<T>::empty(),
    decreases items.len(),
{
    if items.len() > 0 && !keys.contains(key) {
        assert(keys[keys.len() - 1] != key);
        assert forall|i: int| 0 <= i < keys.drop_last().len() implies keys.drop_last()[i]
            != key by {
            assert(keys[i] != key);
        }
        lemma_members_of_absent_key(items.drop_last(), keys.drop_last(), key);
    }
}

/// The positions of `keys` that hold `key`, in ascending order.
pub open spec fn positions<K>(keys: Seq<K>, key: K) -> Seq<int>
    decreases keys.len(),
{
    if keys.len() == 0 {
        Seq::empty()
    } else if keys.last() == key {
        positions(keys.drop_last(), key).push(keys.len() - 1)
    } else {
        positions(keys.drop_last(), key)
    }
}

/// Grouping partitions the input and keeps its order. The group of a
/// key holds exactly the items at the positions that carry the key:
/// one member for each such position, in ascending order of position.
/// So every item of the input is in the group of its key exactly once,
/// no group holds anything else, and each group is a subsequence of the
/// input.
pub proof fn lemma_groups_partition_input<T, K>(items: Seq<T>, keys: Seq<K>, key: K)
    requires
        keys.len() == items.len(),
    ensures
        members(items, keys, key).len() == positions(keys, key).len(),
        forall|p: int|
            0 <= p < positions(keys, key).len() ==> {
                let at = #[trigger] positions(keys, key)[p];
                &&& 0 <= at < items.len()
                &&& keys[at] == key
                &&& members(items, keys, key)[p] == items[at]
            },
        forall|p: int, q: int|
            0 <= p < q < positions(keys, key).len() ==> #[trigger] positions(keys, key)[p]
                < #[trigger] positions(keys, key)[q],
        forall|i: int|
            0 <= i < keys.len() && #[trigger] keys[i] == key ==> positions(keys, key).contains(i),
    decreases items.len(),
{
    if items.len() > 0 {
        let fewer_items = items.drop_last();
        let fewer_keys = keys.drop_last();
        let earlier = positions(fewer_keys, key);
        let now = positions(keys, key);
        lemma_groups_partition_input(fewer_items, fewer_keys, key);
        assert forall|p: int| 0 <= p < earlier.len() implies {
            &&& 0 <= #[trigger] earlier[p] < fewer_keys.len()
            &&& now[p] == earlier[p]
        } by {}
        assert forall|i: int| 0 <= i < keys.len() && #[trigger] keys[i] == key implies now.contains(
            i,
        ) by {
            if i < fewer_keys.len() {
                assert(fewer_keys[i] == key);
                let p = choose|p: int| 0 <= p < earlier.len() && earlier[p] == i;
                assert(now[p] == i);
            } else {
                assert(now[now.len() - 1] == i);
            }
        }
    }
}

/// Taking as many items as there are takes them all.
proof fn lemma_take_all<T>(items: Seq<T>)
    ensures
        items.take(items.len() as int) == items,
{
}

/// Groups `items` by the key that `key_extractor` gives for each of
/// them. Every item lands in the group of its key, and inside a group
/// the items keep the order they had in `items`. Walking the keys of
/// the result visits them in ascending order. The extractor is asked
/// once for each item, in the order of `items`.
///
/// The key type must order its values as a total order that the
/// verifier knows of, as integers, tuples and options of them do.
pub fn group_by<T, K, F>(items: Vec<T>, key_extractor: F) -> (groups: BTreeMap<K, Vec<T>>) where
    K: Ord,
    F: Fn(&T) -> K,

    requires
        obeys_cmp::<K>(),
        forall|i: int| 0 <= i < items@.len() ==> call_requires(key_extractor, (&items@[i],)),
    ensures
        exists|keys: Seq<K>|
            keyed_by(key_extractor, items@, keys) && sequences(groups@) == grouped(items@, keys),
        items@.len() == 0 ==> groups@ == Map::<K, Vec<T>>::empty(),
        increasing_seq(spec_keys_iter(&groups).remaining()),
{
    let mut groups: BTreeMap<K, Vec<T>> = BTreeMap::new();
    let ghost mut keys: Seq<K> = Seq::empty();
    proof {
        assert(sequences(groups@) =~= grouped(items@.take(0), keys));
    }
    for item in it: items.into_iter()
        invariant
            obeys_cmp::<K>(),
            it.seq() == items@,
            forall|i: int| 0 <= i < items@.len() ==> call_requires(key_extractor, (&items@[i],)),
            keyed_by(key_extractor, items@.take(it.index()), keys),
            sequences(groups@) == grouped(items@.take(it.index()), keys),
    {
        let ghost seen = items@.take(it.index());
        let ghost before = groups@;
        let key: K = key_extractor(&item);
        let mut group: Vec<T> = match groups.remove(&key) {
            Some(found) => found,
            None => Vec::new(),
        };
        proof {
            lemma_grouped_push(seen, keys, item, key);
            assert(group@ == members(seen, keys, key)) by {
                if before.contains_key(key) {
                    assert(sequences(before)[key] == before[key]@);
                } else {
                    assert(!sequences(before).contains_key(key));
                }
            }
        }
        group.push(item);
        groups.insert(key, group);
        proof {
            assert(items@.take(it.index() + 1) == seen.push(item));
            assert(sequences(groups@) =~= sequences(before).insert(key, group@));
            keys = keys.push(key);
        }
    }
    proof {
        lemma_take_all(items@);
        if items@.len() == 0 {
            assert(sequences(groups@).dom() =~= Set::<K>::empty());
            assert(groups@ =~= Map::<K, Vec<T>>::empty());
        }
    }
    groups
}

} // verus!
