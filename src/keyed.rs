//! A table of records held in a `Vec`, seen as a map from each record's key to
//! the record. Keys are kept unique, so each key names at most one slot.

use vstd::prelude::*;

verus! {

/// No two slots hold records with the same key.
pub open spec fn unique_keys<V>(s: Seq<V>, key: spec_fn(V) -> Seq<char>) -> bool {
    forall|i: int, j: int|
        0 <= i < s.len() && 0 <= j < s.len() && i != j ==> key(#[trigger] s[i]) != key(
            #[trigger] s[j],
        )
}

/// The map from key to record that a table stands for.
pub open spec fn table_map<V>(s: Seq<V>, key: spec_fn(V) -> Seq<char>) -> Map<Seq<char>, V>
    decreases s.len(),
{
    if s.len() == 0 {
        Map::empty()
    } else {
        table_map(s.drop_last(), key).insert(key(s.last()), s.last())
    }
}

/// A key is in the map exactly when some slot holds it.
pub proof fn lemma_table_has<V>(s: Seq<V>, key: spec_fn(V) -> Seq<char>, k: Seq<char>)
    ensures
        table_map(s, key).contains_key(k) <==> exists|i: int| 0 <= i < s.len() && key(s[i]) == k,
    decreases s.len(),
{
    if s.len() > 0 {
        lemma_table_has(s.drop_last(), key, k);
        if table_map(s.drop_last(), key).contains_key(k) {
            let i = choose|i: int| 0 <= i < s.drop_last().len() && key(s.drop_last()[i]) == k;
            assert(key(s[i]) == k);
        }
        if exists|i: int| 0 <= i < s.len() && key(s[i]) == k {
            let i = choose|i: int| 0 <= i < s.len() && key(s[i]) == k;
            if i < s.len() - 1 {
                assert(key(s.drop_last()[i]) == k);
            }
        }
    }
}

/// With unique keys, the map sends the key of each slot to that slot's record.
pub proof fn lemma_table_get<V>(s: Seq<V>, key: spec_fn(V) -> Seq<char>, i: int)
    requires
        unique_keys(s, key),
        0 <= i < s.len(),
    ensures
        table_map(s, key).contains_key(key(s[i])),
        table_map(s, key)[key(s[i])] == s[i],
    decreases s.len(),
{
    if i < s.len() - 1 {
        let t = s.drop_last();
        assert(unique_keys(t, key)) by {
            assert forall|a: int, b: int|
                0 <= a < t.len() && 0 <= b < t.len() && a != b implies key(#[trigger] t[a]) != key(
                #[trigger] t[b],
            ) by {
                assert(t[a] == s[a] && t[b] == s[b]);
            }
        }
        assert(t[i] == s[i]);
        lemma_table_get(t, key, i);
        assert(key(s[i]) != key(s[s.len() - 1]));
    }
}

/// Appending a record under a new key adds that key to the map.
pub proof fn lemma_table_push<V>(s: Seq<V>, key: spec_fn(V) -> Seq<char>, v: V)
    requires
        unique_keys(s, key),
        !table_map(s, key).contains_key(key(v)),
    ensures
        unique_keys(s.push(v), key),
        table_map(s.push(v), key) == table_map(s, key).insert(key(v), v),
{
    lemma_table_has(s, key, key(v));
    assert(s.push(v).drop_last() == s);
    let t = s.push(v);
    assert forall|a: int, b: int|
        0 <= a < t.len() && 0 <= b < t.len() && a != b implies key(#[trigger] t[a]) != key(
        #[trigger] t[b],
    ) by {
        if a < s.len() && b < s.len() {
            assert(t[a] == s[a] && t[b] == s[b]);
        } else if a < s.len() {
            assert(t[a] == s[a]);
        } else {
            assert(t[b] == s[b]);
        }
    }
}

/// Replacing the record in a slot by one with the same key replaces that key's
/// entry in the map.
pub proof fn lemma_table_update<V>(s: Seq<V>, key: spec_fn(V) -> Seq<char>, i: int, v: V)
    requires
        unique_keys(s, key),
        0 <= i < s.len(),
        key(v) == key(s[i]),
    ensures
        unique_keys(s.update(i, v), key),
        table_map(s.update(i, v), key) == table_map(s, key).insert(key(v), v),
    decreases s.len(),
{
    let t = s.update(i, v);
    assert forall|a: int, b: int|
        0 <= a < t.len() && 0 <= b < t.len() && a != b implies key(#[trigger] t[a]) != key(
        #[trigger] t[b],
    ) by {
        assert(key(t[a]) == key(s[a]));
        assert(key(t[b]) == key(s[b]));
    }
    if i == s.len() - 1 {
        assert(t.drop_last() == s.drop_last());
        lemma_table_has(s.drop_last(), key, key(v));
        assert(table_map(t, key) =~= table_map(s, key).insert(key(v), v));
    } else {
        let u = s.drop_last();
        assert(unique_keys(u, key)) by {
            assert forall|a: int, b: int|
                0 <= a < u.len() && 0 <= b < u.len() && a != b implies key(#[trigger] u[a]) != key(
                #[trigger] u[b],
            ) by {
                assert(u[a] == s[a] && u[b] == s[b]);
            }
        }
        lemma_table_update(u, key, i, v);
        assert(t.drop_last() == u.update(i, v));
        assert(key(s.last()) != key(v));
        assert(table_map(t, key) =~= table_map(s, key).insert(key(v), v));
    }
}

} // verus!
