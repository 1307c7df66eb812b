//! Comparison of texts, and maps that are keyed by a text.

use vstd::prelude::*;
use vstd::string::*;
use vstd::utf8::*;

verus! {

/// Decides whether two texts hold the same characters.
pub fn str_eq(a: &str, b: &str) -> (same: bool)
    ensures
        same == (a@ == b@),
{
    let left = a.as_bytes();
    let right = b.as_bytes();
    if left.len() != right.len() {
        return false;
    }
    let mut i: usize = 0;
    while i < left.len()
        invariant
            i <= left.len(),
            left.len() == right.len(),
            left@ == encode_utf8(a@),
            right@ == encode_utf8(b@),
            forall|k: int| 0 <= k < i ==> left@[k] == right@[k],
        decreases left.len() - i,
    {
        if left[i] != right[i] {
            return false;
        }
        i = i + 1;
    }
    proof {
        assert(left@ =~= right@);
        encode_utf8_decode_utf8(a@);
        encode_utf8_decode_utf8(b@);
    }
    true
}

/// No key occurs at two positions.
pub open spec fn distinct_keys(keys: Seq<Seq<char>>) -> bool {
    forall|i: int, j: int| 0 <= i < j < keys.len() ==> keys[i] != keys[j]
}

/// The map that sends the key at each position to the value at the same
/// position.
pub open spec fn keyed<V>(keys: Seq<Seq<char>>, values: Seq<V>) -> Map<Seq<char>, V> {
    Map::new(|k: Seq<char>| keys.contains(k), |k: Seq<char>| values[keys.index_of(k)])
}

/// Where the keys are distinct, each key is mapped to the value beside it.
pub proof fn lemma_keyed_at<V>(keys: Seq<Seq<char>>, values: Seq<V>, i: int)
    requires
        distinct_keys(keys),
        0 <= i < keys.len(),
    ensures
        keyed(keys, values).contains_key(keys[i]),
        keyed(keys, values)[keys[i]] == values[i],
{
    assert(keys.contains(keys[i]));
    let j = keys.index_of(keys[i]);
    assert(0 <= j < keys.len() && keys[j] == keys[i]);
    if j < i {
        assert(keys[j] != keys[i]);
    } else if i < j {
        assert(keys[i] != keys[j]);
    }
}

/// A key that is in none of the positions is not in the map.
pub proof fn lemma_keyed_absent<V>(keys: Seq<Seq<char>>, values: Seq<V>, key: Seq<char>)
    requires
        forall|i: int| 0 <= i < keys.len() ==> keys[i] != key,
    ensures
        !keyed(keys, values).contains_key(key),
{
}

/// Appending a pair with a new key adds that pair to the map.
pub proof fn lemma_keyed_push<V>(keys: Seq<Seq<char>>, values: Seq<V>, key: Seq<char>, value: V)
    requires
        distinct_keys(keys),
        keys.len() == values.len(),
        forall|i: int| 0 <= i < keys.len() ==> keys[i] != key,
    ensures
        distinct_keys(keys.push(key)),
        keyed(keys.push(key), values.push(value)) == keyed(keys, values).insert(key, value),
{
    let keys2 = keys.push(key);
    let values2 = values.push(value);
    assert(distinct_keys(keys2));
    assert forall|k: Seq<char>| keyed(keys2, values2).contains_key(k) == keyed(keys, values).insert(
        key,
        value,
    ).contains_key(k) by {
        if keys2.contains(k) {
            let i = choose|i: int| 0 <= i < keys2.len() && keys2[i] == k;
            if i < keys.len() {
                assert(keys[i] == k);
            }
        }
        if keys.contains(k) {
            let i = choose|i: int| 0 <= i < keys.len() && keys[i] == k;
            assert(keys2[i] == k);
        }
        if k == key {
            assert(keys2[keys.len() as int] == k);
        }
    }
    assert forall|k: Seq<char>| keyed(keys2, values2).contains_key(k) implies keyed(
        keys2,
        values2,
    )[k] == keyed(keys, values).insert(key, value)[k] by {
        let i = choose|i: int| 0 <= i < keys2.len() && keys2[i] == k;
        lemma_keyed_at(keys2, values2, i);
        if i < keys.len() {
            lemma_keyed_at(keys, values, i);
        }
    }
    assert(keyed(keys2, values2) =~= keyed(keys, values).insert(key, value));
}

/// Replacing the value beside a key replaces what the map holds for it.
pub proof fn lemma_keyed_update<V>(keys: Seq<Seq<char>>, values: Seq<V>, at: int, value: V)
    requires
        distinct_keys(keys),
        keys.len() == values.len(),
        0 <= at < keys.len(),
    ensures
        keyed(keys, values.update(at, value)) == keyed(keys, values).insert(keys[at], value),
{
    let values2 = values.update(at, value);
    assert forall|k: Seq<char>| keyed(keys, values2).contains_key(k) == keyed(keys, values).insert(
        keys[at],
        value,
    ).contains_key(k) by {
        if k == keys[at] {
            assert(keys.contains(k));
        }
    }
    assert forall|k: Seq<char>| keyed(keys, values2).contains_key(k) implies keyed(
        keys,
        values2,
    )[k] == keyed(keys, values).insert(keys[at], value)[k] by {
        let i = choose|i: int| 0 <= i < keys.len() && keys[i] == k;
        lemma_keyed_at(keys, values2, i);
        lemma_keyed_at(keys, values, i);
        if i < at {
            assert(keys[i] != keys[at]);
        } else if at < i {
            assert(keys[at] != keys[i]);
        }
    }
    assert(keyed(keys, values2) =~= keyed(keys, values).insert(keys[at], value));
}

} // verus!
