//! Lists of records with unique keys, read as maps from key to record.
use vstd::prelude::*;

verus! {

/// No two records of `s` share a key.
pub open spec fn keys_unique<T, K>(s: Seq<T>, key: spec_fn(T) -> K) -> bool {
    forall|i: int, j: int|
        0 <= i < s.len() && 0 <= j < s.len() && key(#[trigger] s[i]) == key(#[trigger] s[j]) ==> i
            == j
}

/// Some record of `s` has key `k`.
pub open spec fn has_key<T, K>(s: Seq<T>, key: spec_fn(T) -> K, k: K) -> bool {
    exists|i: int| 0 <= i < s.len() && key(#[trigger] s[i]) == k
}

/// Position of a record of `s` with key `k`.
pub open spec fn index_of<T, K>(s: Seq<T>, key: spec_fn(T) -> K, k: K) -> int {
    choose|i: int| 0 <= i < s.len() && key(#[trigger] s[i]) == k
}

/// The records of `s` by key.
pub open spec fn keyed_map<T, K>(s: Seq<T>, key: spec_fn(T) -> K) -> Map<K, T> {
    Map::new(|k: K| has_key(s, key, k), |k: K| s[index_of(s, key, k)])
}

pub proof fn lemma_keyed_at<T, K>(s: Seq<T>, key: spec_fn(T) -> K, i: int)
    requires
        keys_unique(s, key),
        0 <= i < s.len(),
    ensures
        keyed_map(s, key).contains_key(key(s[i])),
        keyed_map(s, key)[key(s[i])] == s[i],
        index_of(s, key, key(s[i])) == i,
{
    assert(has_key(s, key, key(s[i])));
}

pub proof fn lemma_keyed_empty<T, K>(s: Seq<T>, key: spec_fn(T) -> K)
    requires
        s.len() == 0,
    ensures
        keys_unique(s, key),
        keyed_map(s, key) == Map::<K, T>::empty(),
{
    assert(keyed_map(s, key) =~= Map::<K, T>::empty());
}

/// Replacing a record by one with the same key replaces that key's entry.
pub proof fn lemma_keyed_update<T, K>(s: Seq<T>, key: spec_fn(T) -> K, i: int, t: T)
    requires
        keys_unique(s, key),
        0 <= i < s.len(),
        key(t) == key(s[i]),
    ensures
        keys_unique(s.update(i, t), key),
        keyed_map(s.update(i, t), key) == keyed_map(s, key).insert(key(t), t),
{
    let u = s.update(i, t);
    assert forall|a: int, b: int|
        0 <= a < u.len() && 0 <= b < u.len() && key(#[trigger] u[a]) == key(#[trigger] u[b]) implies a
        == b by {
        assert(key(u[a]) == key(s[a]));
        assert(key(u[b]) == key(s[b]));
    }
    assert forall|k: K| #[trigger] keyed_map(u, key).contains_key(k) <==> keyed_map(s, key).insert(
        key(t),
        t,
    ).contains_key(k) by {
        if has_key(u, key, k) {
            let j = choose|j: int| 0 <= j < u.len() && key(#[trigger] u[j]) == k;
            assert(key(s[j]) == k);
        }
        if has_key(s, key, k) {
            let j = choose|j: int| 0 <= j < s.len() && key(#[trigger] s[j]) == k;
            assert(key(u[j]) == k);
        }
        if k == key(t) {
            assert(key(u[i]) == k);
        }
    }
    assert forall|k: K| #[trigger] keyed_map(u, key).contains_key(k) implies keyed_map(u, key)[k]
        == keyed_map(s, key).insert(key(t), t)[k] by {
        let j = choose|j: int| 0 <= j < u.len() && key(#[trigger] u[j]) == k;
        lemma_keyed_at(u, key, j);
        if j != i {
            assert(key(s[j]) == key(u[j]));
            lemma_keyed_at(s, key, j);
        }
    }
    assert(keyed_map(u, key) =~= keyed_map(s, key).insert(key(t), t));
}

/// Appending a record with a new key adds that key's entry.
pub proof fn lemma_keyed_push<T, K>(s: Seq<T>, key: spec_fn(T) -> K, t: T)
    requires
        keys_unique(s, key),
        !keyed_map(s, key).contains_key(key(t)),
    ensures
        keys_unique(s.push(t), key),
        keyed_map(s.push(t), key) == keyed_map(s, key).insert(key(t), t),
{
    let u = s.push(t);
    assert forall|j: int| 0 <= j < s.len() implies key(#[trigger] s[j]) != key(t) by {
        if key(s[j]) == key(t) {
            assert(has_key(s, key, key(t)));
        }
    }
    assert forall|a: int, b: int|
        0 <= a < u.len() && 0 <= b < u.len() && key(#[trigger] u[a]) == key(#[trigger] u[b]) implies a
        == b by {
        if a < s.len() && b < s.len() {
            assert(u[a] == s[a]);
            assert(u[b] == s[b]);
        } else if a < s.len() {
            assert(u[a] == s[a]);
        } else if b < s.len() {
            assert(u[b] == s[b]);
        }
    }
    assert forall|k: K| #[trigger] keyed_map(u, key).contains_key(k) <==> keyed_map(s, key).insert(
        key(t),
        t,
    ).contains_key(k) by {
        if has_key(u, key, k) {
            let j = choose|j: int| 0 <= j < u.len() && key(#[trigger] u[j]) == k;
            if j < s.len() {
                assert(u[j] == s[j]);
            }
        }
        if has_key(s, key, k) {
            let j = choose|j: int| 0 <= j < s.len() && key(#[trigger] s[j]) == k;
            assert(u[j] == s[j]);
        }
        if k == key(t) {
            assert(key(u[s.len() as int]) == k);
        }
    }
    assert forall|k: K| #[trigger] keyed_map(u, key).contains_key(k) implies keyed_map(u, key)[k]
        == keyed_map(s, key).insert(key(t), t)[k] by {
        let j = choose|j: int| 0 <= j < u.len() && key(#[trigger] u[j]) == k;
        lemma_keyed_at(u, key, j);
        if j < s.len() {
            assert(u[j] == s[j]);
            lemma_keyed_at(s, key, j);
        }
    }
    assert(keyed_map(u, key) =~= keyed_map(s, key).insert(key(t), t));
}

} // verus!
