//! Lists of entries that are found by a key.
//!
//! A list stands for a map from keys to values: a key is found at its first
//! entry, and a list that is well formed holds each key once.

use vstd::prelude::*;

verus! {

/// The keys of a list of keyed entries, in order.
pub open spec fn keys_of<V>(entries: Seq<(String, V)>) -> Seq<Seq<char>> {
    entries.map_values(|e: (String, V)| e.0@)
}

/// Whether `i` is the first place of `key` among `keys`.
pub open spec fn first_at<K>(keys: Seq<K>, key: K, i: int) -> bool {
    &&& 0 <= i < keys.len()
    &&& keys[i] == key
    &&& forall|j: int| 0 <= j < i ==> keys[j] != key
}

/// Whether `key` is not among `keys`.
pub open spec fn absent<K>(keys: Seq<K>, key: K) -> bool {
    forall|j: int| 0 <= j < keys.len() ==> keys[j] != key
}

/// The first place of `key` among `keys`, if it is there.
pub open spec fn position<K>(keys: Seq<K>, key: K) -> Option<int> {
    if exists|i: int| first_at(keys, key, i) {
        Some(choose|i: int| first_at(keys, key, i))
    } else {
        None
    }
}

/// Whether no key occurs twice.
pub open spec fn distinct<K>(keys: Seq<K>) -> bool {
    forall|i: int, j: int| 0 <= i < j < keys.len() ==> keys[i] != keys[j]
}

/// A key that is first at `i` has position `i`.
pub proof fn lemma_position_found<K>(keys: Seq<K>, key: K, i: int)
    requires
        first_at(keys, key, i),
    ensures
        position(keys, key) == Some(i),
{
    let k = choose|k: int| first_at(keys, key, k);
    assert(first_at(keys, key, k));
    if k < i {
        assert(keys[k] != key);
    } else if i < k {
        assert(keys[i] != key);
    }
}

/// A key that is absent has no position.
pub proof fn lemma_position_absent<K>(keys: Seq<K>, key: K)
    requires
        absent(keys, key),
    ensures
        position(keys, key) is None,
{
    if exists|i: int| first_at(keys, key, i) {
        let k = choose|k: int| first_at(keys, key, k);
        assert(keys[k] != key);
    }
}

/// A position, where there is one, is the first place of the key.
pub proof fn lemma_position_is_first<K>(keys: Seq<K>, key: K)
    ensures
        match position(keys, key) {
            Some(i) => first_at(keys, key, i),
            None => absent(keys, key),
        },
{
    if exists|i: int| first_at(keys, key, i) {
    } else {
        assert forall|j: int| 0 <= j < keys.len() implies keys[j] != key by {
            if keys[j] == key {
                lemma_some_first(keys, key, j);
            }
        }
    }
}

/// A key that occurs at `j` has a first place.
pub proof fn lemma_some_first<K>(keys: Seq<K>, key: K, j: int)
    requires
        0 <= j < keys.len(),
        keys[j] == key,
    ensures
        exists|i: int| first_at(keys, key, i),
    decreases j,
{
    if forall|k: int| 0 <= k < j ==> keys[k] != key {
        assert(first_at(keys, key, j));
    } else {
        let k = choose|k: int| 0 <= k < j && keys[k] == key;
        lemma_some_first(keys, key, k);
    }
}

/// The place of the first entry with key `key`.
pub fn find_key<V>(entries: &Vec<(String, V)>, key: &String) -> (r: Option<usize>)
    ensures
        match r {
            Some(i) => position(keys_of(entries@), key@) == Some(i as int) && i < entries.len(),
            None => position(keys_of(entries@), key@) is None,
        },
{
    let mut i: usize = 0;
    while i < entries.len()
        invariant
            i <= entries.len(),
            forall|j: int| 0 <= j < i ==> keys_of(entries@)[j] != key@,
        decreases entries.len() - i,
    {
        if entries[i].0 == *key {
            proof {
                assert(keys_of(entries@)[i as int] == key@);
                lemma_position_found(keys_of(entries@), key@, i as int);
            }
            return Some(i);
        }
        assert(keys_of(entries@)[i as int] != key@);
        i += 1;
    }
    proof {
        lemma_position_absent(keys_of(entries@), key@);
    }
    None
}

} // verus!
