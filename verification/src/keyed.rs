//! A vector of entries with distinct keys, read as a map from key to entry.
//! The index of the server keeps each kind of entity this way.

use vstd::prelude::*;

verus! {

/// No two entries of `v` share a key.
pub open spec fn keys_unique<T, K>(v: Seq<T>, key: spec_fn(T) -> K) -> bool {
    forall|i: int, j: int|
        0 <= i < v.len() && 0 <= j < v.len() && #[trigger] key(v[i]) == #[trigger] key(v[j])
            ==> i == j
}

/// Some entry of `v` has key `k`.
pub open spec fn has_key<T, K>(v: Seq<T>, key: spec_fn(T) -> K, k: K) -> bool {
    exists|i: int| 0 <= i < v.len() && key(v[i]) == k
}

/// `v` read as a map: each key present in `v` maps to the entry that has it.
pub open spec fn keyed_map<T, K>(v: Seq<T>, key: spec_fn(T) -> K) -> Map<K, T> {
    Map::new(
        |k: K| has_key(v, key, k),
        |k: K| v[choose|i: int| 0 <= i < v.len() && key(v[i]) == k],
    )
}

/// With distinct keys, the entry at `i` is what the map holds for its key.
pub proof fn lemma_keyed_map_at<T, K>(v: Seq<T>, key: spec_fn(T) -> K, i: int)
    requires
        keys_unique(v, key),
        0 <= i < v.len(),
    ensures
        keyed_map(v, key).contains_key(key(v[i])),
        keyed_map(v, key)[key(v[i])] == v[i],
{
    let k = key(v[i]);
    assert(has_key(v, key, k));
    let j = choose|j: int| 0 <= j < v.len() && key(v[j]) == k;
    assert(key(v[j]) == key(v[i]));
}

/// Appending an entry with a new key inserts it into the map.
pub proof fn lemma_keyed_map_push<T, K>(v: Seq<T>, key: spec_fn(T) -> K, e: T)
    requires
        keys_unique(v, key),
        !has_key(v, key, key(e)),
    ensures
        keys_unique(v.push(e), key),
        keyed_map(v.push(e), key) == keyed_map(v, key).insert(key(e), e),
{
    let w = v.push(e);
    assert forall|i: int, j: int|
        0 <= i < w.len() && 0 <= j < w.len() && #[trigger] key(w[i]) == #[trigger] key(w[j]) implies i
        == j by {
        if i < v.len() && j < v.len() {
            assert(w[i] == v[i] && w[j] == v[j]);
        } else if i < v.len() {
            assert(w[i] == v[i]);
            assert(key(v[i]) == key(e));
        } else if j < v.len() {
            assert(w[j] == v[j]);
            assert(key(v[j]) == key(e));
        }
    }
    let m1 = keyed_map(w, key);
    let m2 = keyed_map(v, key).insert(key(e), e);
    assert forall|k: K| m1.contains_key(k) <==> m2.contains_key(k) by {
        if has_key(w, key, k) {
            let i = choose|i: int| 0 <= i < w.len() && key(w[i]) == k;
            if i < v.len() {
                assert(w[i] == v[i]);
                assert(has_key(v, key, k));
            }
        }
        if has_key(v, key, k) {
            let i = choose|i: int| 0 <= i < v.len() && key(v[i]) == k;
            assert(w[i] == v[i]);
            assert(has_key(w, key, k));
        }
        if k == key(e) {
            assert(w[v.len() as int] == e);
            assert(has_key(w, key, k));
        }
    }
    assert forall|k: K| #[trigger] m1.contains_key(k) implies m1[k] == m2[k] by {
        let i = choose|i: int| 0 <= i < w.len() && key(w[i]) == k;
        lemma_keyed_map_at(w, key, i);
        if i < v.len() {
            assert(w[i] == v[i]);
            lemma_keyed_map_at(v, key, i);
        } else {
            assert(w[i] == e);
        }
    }
    assert(m1 =~= m2);
}

/// Replacing an entry by one with the same key updates the map there.
pub proof fn lemma_keyed_map_update<T, K>(v: Seq<T>, key: spec_fn(T) -> K, i: int, e: T)
    requires
        keys_unique(v, key),
        0 <= i < v.len(),
        key(e) == key(v[i]),
    ensures
        keys_unique(v.update(i, e), key),
        keyed_map(v.update(i, e), key) == keyed_map(v, key).insert(key(e), e),
{
    let w = v.update(i, e);
    assert forall|a: int, b: int|
        0 <= a < w.len() && 0 <= b < w.len() && #[trigger] key(w[a]) == #[trigger] key(w[b]) implies a
        == b by {
        assert(key(w[a]) == key(v[a]));
        assert(key(w[b]) == key(v[b]));
    }
    let m1 = keyed_map(w, key);
    let m2 = keyed_map(v, key).insert(key(e), e);
    assert forall|k: K| m1.contains_key(k) <==> m2.contains_key(k) by {
        if has_key(w, key, k) {
            let a = choose|a: int| 0 <= a < w.len() && key(w[a]) == k;
            assert(key(v[a]) == k);
            assert(has_key(v, key, k));
        }
        if has_key(v, key, k) {
            let a = choose|a: int| 0 <= a < v.len() && key(v[a]) == k;
            assert(key(w[a]) == k);
            assert(has_key(w, key, k));
        }
        if k == key(e) {
            assert(key(w[i]) == k);
            assert(has_key(w, key, k));
        }
    }
    assert forall|k: K| #[trigger] m1.contains_key(k) implies m1[k] == m2[k] by {
        let a = choose|a: int| 0 <= a < w.len() && key(w[a]) == k;
        lemma_keyed_map_at(w, key, a);
        if a != i {
            assert(w[a] == v[a]);
            lemma_keyed_map_at(v, key, a);
        }
    }
    assert(m1 =~= m2);
}

/// With distinct keys, the map has one key per entry.
pub proof fn lemma_keyed_map_len<T, K>(v: Seq<T>, key: spec_fn(T) -> K)
    requires
        keys_unique(v, key),
    ensures
        keyed_map(v, key).dom().finite(),
        keyed_map(v, key).dom().len() == v.len(),
    decreases v.len(),
{
    if v.len() == 0 {
        assert(keyed_map(v, key).dom() =~= Set::<K>::empty());
    } else {
        let w = v.drop_last();
        let e = v.last();
        assert(v =~= w.push(e));
        assert forall|i: int, j: int|
            0 <= i < w.len() && 0 <= j < w.len() && #[trigger] key(w[i]) == #[trigger] key(w[j])
                implies i == j by {
            assert(w[i] == v[i] && w[j] == v[j]);
        }
        if has_key(w, key, key(e)) {
            let i = choose|i: int| 0 <= i < w.len() && key(w[i]) == key(e);
            assert(w[i] == v[i]);
            assert(key(v[i]) == key(v[v.len() - 1]));
        }
        lemma_keyed_map_len(w, key);
        lemma_keyed_map_push(w, key, e);
        assert(keyed_map(v, key).dom() =~= keyed_map(w, key).dom().insert(key(e)));
    }
}

} // verus!
