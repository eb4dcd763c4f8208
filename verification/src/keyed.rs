//! Lookup by key in a sequence of entries, where the last entry with a key is the one that counts.
use vstd::prelude::*;

verus! {

/// The position of the last entry of `es` whose key is `key`.
pub open spec fn key_index<E, K>(es: Seq<E>, key_of: spec_fn(E) -> K, key: K) -> Option<int>
    decreases es.len(),
{
    if es.len() == 0 {
        None
    } else if key_of(es.last()) == key {
        Some(es.len() - 1)
    } else {
        key_index(es.drop_last(), key_of, key)
    }
}

/// The map from each key to the value of its last entry.
pub open spec fn keyed_map<E, K, V>(es: Seq<E>, key_of: spec_fn(E) -> K, value_of: spec_fn(E) -> V) -> Map<
    K,
    V,
> {
    Map::new(
        |k: K| key_index(es, key_of, k) is Some,
        |k: K| value_of(es[key_index(es, key_of, k)->0]),
    )
}

pub proof fn lemma_key_index_bounds<E, K>(es: Seq<E>, key_of: spec_fn(E) -> K, key: K)
    ensures
        match key_index(es, key_of, key) {
            Some(i) => 0 <= i < es.len() && key_of(es[i]) == key,
            None => forall|j: int| 0 <= j < es.len() ==> key_of(#[trigger] es[j]) != key,
        },
    decreases es.len(),
{
    if es.len() > 0 {
        lemma_key_index_bounds(es.drop_last(), key_of, key);
        if key_of(es.last()) != key {
            assert forall|j: int| 0 <= j < es.len() - 1 implies es.drop_last()[j] == es[j] by {}
        }
    }
}

/// One step of a backward search for a key.
pub proof fn lemma_key_index_take<E, K>(es: Seq<E>, key_of: spec_fn(E) -> K, key: K, i: int)
    requires
        0 < i <= es.len(),
    ensures
        key_index(es.take(i), key_of, key) == if key_of(es[i - 1]) == key {
            Some(i - 1)
        } else {
            key_index(es.take(i - 1), key_of, key)
        },
{
    assert(es.take(i).drop_last() =~= es.take(i - 1));
    assert(es.take(i).last() == es[i - 1]);
}

pub proof fn lemma_key_index_push<E, K>(es: Seq<E>, key_of: spec_fn(E) -> K, e: E, key: K)
    ensures
        key_index(es.push(e), key_of, key) == if key_of(e) == key {
            Some(es.len() as int)
        } else {
            key_index(es, key_of, key)
        },
{
    assert(es.push(e).drop_last() =~= es);
}

pub proof fn lemma_key_index_update<E, K>(
    es: Seq<E>,
    key_of: spec_fn(E) -> K,
    j: int,
    e: E,
    key: K,
)
    requires
        0 <= j < es.len(),
        key_of(e) == key_of(es[j]),
    ensures
        key_index(es.update(j, e), key_of, key) == key_index(es, key_of, key),
    decreases es.len(),
{
    if j == es.len() - 1 {
        assert(es.update(j, e).drop_last() =~= es.drop_last());
    } else {
        assert(es.update(j, e).drop_last() =~= es.drop_last().update(j, e));
        lemma_key_index_update(es.drop_last(), key_of, j, e, key);
    }
}

/// Pushing an entry maps its key to its value and leaves the other keys alone.
pub proof fn lemma_keyed_map_push<E, K, V>(
    es: Seq<E>,
    key_of: spec_fn(E) -> K,
    value_of: spec_fn(E) -> V,
    e: E,
)
    ensures
        keyed_map(es.push(e), key_of, value_of) == keyed_map(es, key_of, value_of).insert(
            key_of(e),
            value_of(e),
        ),
{
    let m1 = keyed_map(es.push(e), key_of, value_of);
    let m2 = keyed_map(es, key_of, value_of).insert(key_of(e), value_of(e));
    assert forall|k: K| #[trigger] m1.contains_key(k) <==> m2.contains_key(k) by {
        lemma_key_index_push(es, key_of, e, k);
    }
    assert forall|k: K| m1.contains_key(k) implies #[trigger] m1[k] == m2[k] by {
        lemma_key_index_push(es, key_of, e, k);
        if key_of(e) != k {
            lemma_key_index_bounds(es, key_of, k);
            let i: int = key_index(es, key_of, k)->0;
            assert(es.push(e)[i] == es[i]);
        }
    }
    assert(m1 =~= m2);
}

/// Replacing the entry at the last position of its key maps that key to the new value.
pub proof fn lemma_keyed_map_update<E, K, V>(
    es: Seq<E>,
    key_of: spec_fn(E) -> K,
    value_of: spec_fn(E) -> V,
    j: int,
    e: E,
)
    requires
        0 <= j < es.len(),
        key_index(es, key_of, key_of(e)) == Some(j),
    ensures
        keyed_map(es.update(j, e), key_of, value_of) == keyed_map(es, key_of, value_of).insert(
            key_of(e),
            value_of(e),
        ),
{
    lemma_key_index_bounds(es, key_of, key_of(e));
    let m1 = keyed_map(es.update(j, e), key_of, value_of);
    let m2 = keyed_map(es, key_of, value_of).insert(key_of(e), value_of(e));
    assert forall|k: K| #[trigger] m1.contains_key(k) <==> m2.contains_key(k) by {
        lemma_key_index_update(es, key_of, j, e, k);
    }
    assert forall|k: K| m1.contains_key(k) implies #[trigger] m1[k] == m2[k] by {
        lemma_key_index_update(es, key_of, j, e, k);
        if key_of(e) != k {
            lemma_key_index_bounds(es, key_of, k);
            let i: int = key_index(es, key_of, k)->0;
            assert(i != j);
        }
    }
    assert(m1 =~= m2);
}

} // verus!
