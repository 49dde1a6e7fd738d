//! Keyed lists: a list of keys without repetition, and beside it the list of their values, read
//! as the map from each key to its value.

use vstd::prelude::*;

verus! {

/// The map that takes each of `keys` to the value at its place in `values`.
pub open spec fn keyed<K, V>(keys: Seq<K>, values: Seq<V>) -> Map<K, V> {
    Map::new(|k: K| keys.contains(k), |k: K| values[keys.index_of(k)])
}

/// Whether `keys` and `values` make a keyed list: as many values as keys, and no key twice.
pub open spec fn well_keyed<K, V>(keys: Seq<K>, values: Seq<V>) -> bool {
    keys.len() == values.len() && keys.no_duplicates()
}

/// The key at a place is taken to the value at that place.
pub proof fn lemma_keyed_at<K, V>(keys: Seq<K>, values: Seq<V>, i: int)
    requires
        well_keyed(keys, values),
        0 <= i < keys.len(),
    ensures
        keyed(keys, values).dom().contains(keys[i]),
        keyed(keys, values)[keys[i]] == values[i],
        keys.index_of(keys[i]) == i,
{
    assert(keys.contains(keys[i]));
}

/// A key of the map has a place in the list.
pub proof fn lemma_keyed_place<K, V>(keys: Seq<K>, values: Seq<V>, key: K)
    requires
        well_keyed(keys, values),
        keyed(keys, values).dom().contains(key),
    ensures
        0 <= keys.index_of(key) < keys.len(),
        keys[keys.index_of(key)] == key,
        keyed(keys, values)[key] == values[keys.index_of(key)],
{
}

/// The empty list stands for the empty map.
pub proof fn lemma_keyed_empty<K, V>()
    ensures
        keyed(Seq::<K>::empty(), Seq::<V>::empty()) == Map::<K, V>::empty(),
        well_keyed(Seq::<K>::empty(), Seq::<V>::empty()),
{
    assert(keyed(Seq::<K>::empty(), Seq::<V>::empty()) =~= Map::<K, V>::empty());
}

/// Appending a new key with its value inserts it into the map.
pub proof fn lemma_keyed_push<K, V>(keys: Seq<K>, values: Seq<V>, key: K, value: V)
    requires
        well_keyed(keys, values),
        !keys.contains(key),
    ensures
        well_keyed(keys.push(key), values.push(value)),
        keyed(keys.push(key), values.push(value)) == keyed(keys, values).insert(key, value),
{
    let keys2 = keys.push(key);
    let values2 = values.push(value);
    assert(keys2.no_duplicates()) by {
        assert forall|i: int, j: int|
            0 <= i < keys2.len() && 0 <= j < keys2.len() && i != j implies keys2[i] != keys2[j] by {
            if i < keys.len() {
                assert(keys.contains(keys[i]));
            }
            if j < keys.len() {
                assert(keys.contains(keys[j]));
            }
        }
    }
    assert forall|k: K| keys2.contains(k) <==> (keys.contains(k) || k == key) by {
        if keys.contains(k) {
            let i = keys.index_of(k);
            assert(keys2[i] == k);
        }
        if k == key {
            assert(keys2[keys.len() as int] == k);
        }
        if keys2.contains(k) {
            let i = keys2.index_of(k);
            if i < keys.len() {
                assert(keys[i] == k);
            }
        }
    }
    assert forall|k: K| #[trigger] keys2.contains(k) implies values2[keys2.index_of(k)] == (if k
        == key {
        value
    } else {
        values[keys.index_of(k)]
    }) by {
        let i = keys2.index_of(k);
        if k == key {
            if i < keys.len() {
                assert(keys.contains(keys[i]));
            }
        } else {
            assert(keys[i] == k);
            lemma_keyed_at(keys, values, i);
        }
    }
    assert(keyed(keys2, values2) =~= keyed(keys, values).insert(key, value));
}

/// Replacing the value at a place replaces the value of its key in the map.
pub proof fn lemma_keyed_update<K, V>(keys: Seq<K>, values: Seq<V>, i: int, value: V)
    requires
        well_keyed(keys, values),
        0 <= i < keys.len(),
    ensures
        well_keyed(keys, values.update(i, value)),
        keyed(keys, values.update(i, value)) == keyed(keys, values).insert(keys[i], value),
{
    assert(keys.contains(keys[i]));
    let updated = values.update(i, value);
    assert forall|k: K| #[trigger] keys.contains(k) implies updated[keys.index_of(k)] == (if k
        == keys[i] {
        value
    } else {
        values[keys.index_of(k)]
    }) by {
        let j = keys.index_of(k);
    }
    assert(keyed(keys, values.update(i, value)) =~= keyed(keys, values).insert(keys[i], value));
}

/// Removing a place removes its key from the map.
pub proof fn lemma_keyed_remove<K, V>(keys: Seq<K>, values: Seq<V>, i: int)
    requires
        well_keyed(keys, values),
        0 <= i < keys.len(),
    ensures
        well_keyed(keys.remove(i), values.remove(i)),
        keyed(keys.remove(i), values.remove(i)) == keyed(keys, values).remove(keys[i]),
{
    let keys2 = keys.remove(i);
    let values2 = values.remove(i);
    assert forall|a: int, b: int|
        0 <= a < keys2.len() && 0 <= b < keys2.len() && a != b implies keys2[a] != keys2[b] by {
        let a1 = if a < i { a } else { a + 1 };
        let b1 = if b < i { b } else { b + 1 };
        assert(keys2[a] == keys[a1]);
        assert(keys2[b] == keys[b1]);
    }
    assert forall|k: K| keys2.contains(k) <==> (keys.contains(k) && k != keys[i]) by {
        if keys.contains(k) && k != keys[i] {
            let j = keys.index_of(k);
            let j2 = if j < i { j } else { j - 1 };
            assert(keys2[j2] == k);
        }
        if keys2.contains(k) {
            let j2 = keys2.index_of(k);
            let j = if j2 < i { j2 } else { j2 + 1 };
            assert(keys[j] == k);
        }
    }
    assert forall|k: K| #[trigger] keys2.contains(k) implies values2[keys2.index_of(k)]
        == values[keys.index_of(k)] by {
        let j2 = keys2.index_of(k);
        let j = if j2 < i { j2 } else { j2 + 1 };
        assert(keys[j] == k);
        lemma_keyed_at(keys, values, j);
    }
    assert(keyed(keys2, values2) =~= keyed(keys, values).remove(keys[i]));
}

} // verus!
