//! Lists of keyed entries read as maps: the last entry with a key gives its value.
use vstd::prelude::*;

verus! {

/// The last entry of `entries` whose key is `k`.
pub open spec fn last_with_key<T>(entries: Seq<T>, key: spec_fn(T) -> Seq<char>, k: Seq<char>) -> Option<T>
    decreases entries.len(),
{
    if entries.len() == 0 {
        None
    } else if key(entries.last()) == k {
        Some(entries.last())
    } else {
        last_with_key(entries.drop_last(), key, k)
    }
}

/// The map that a keyed list stands for.
pub open spec fn keyed_map<T>(entries: Seq<T>, key: spec_fn(T) -> Seq<char>) -> Map<Seq<char>, T> {
    Map::new(
        |k: Seq<char>| last_with_key(entries, key, k) is Some,
        |k: Seq<char>| last_with_key(entries, key, k)->Some_0,
    )
}

/// Overwriting the last entry with a key by a new entry with that key sets the key's value.
pub proof fn lemma_keyed_map_update<T>(entries: Seq<T>, key: spec_fn(T) -> Seq<char>, j: int, new: T)
    requires
        0 <= j < entries.len(),
        key(entries[j]) == key(new),
        forall|t: int| j < t < entries.len() ==> key(#[trigger] entries[t]) != key(new),
    ensures
        keyed_map(entries.update(j, new), key) == keyed_map(entries, key).insert(key(new), new),
{
    assert forall|k: Seq<char>| true implies last_with_key(entries.update(j, new), key, k) == (if k
        == key(new) {
        Some(new)
    } else {
        last_with_key(entries, key, k)
    }) by {
        lemma_last_with_key_update(entries, key, j, new, k);
    }
    assert(keyed_map(entries.update(j, new), key) =~= keyed_map(entries, key).insert(key(new), new));
}

proof fn lemma_last_with_key_update<T>(entries: Seq<T>, key: spec_fn(T) -> Seq<char>, j: int, new: T, k: Seq<char>)
    requires
        0 <= j < entries.len(),
        key(entries[j]) == key(new),
        forall|t: int| j < t < entries.len() ==> key(#[trigger] entries[t]) != key(new),
    ensures
        last_with_key(entries.update(j, new), key, k) == (if k == key(new) {
            Some(new)
        } else {
            last_with_key(entries, key, k)
        }),
    decreases entries.len(),
{
    let updated = entries.update(j, new);
    if j == entries.len() - 1 {
        assert(updated.drop_last() =~= entries.drop_last());
    } else {
        assert(updated.drop_last() =~= entries.drop_last().update(j, new));
        assert(key(entries[entries.len() - 1]) != key(new));
        lemma_last_with_key_update(entries.drop_last(), key, j, new, k);
    }
}

/// Appending an entry sets its key's value.
pub proof fn lemma_keyed_map_push<T>(entries: Seq<T>, key: spec_fn(T) -> Seq<char>, new: T)
    ensures
        keyed_map(entries.push(new), key) == keyed_map(entries, key).insert(key(new), new),
{
    assert(entries.push(new).drop_last() =~= entries);
    assert(keyed_map(entries.push(new), key) =~= keyed_map(entries, key).insert(key(new), new));
}

/// Reading from the end: once the entries after `i` lack key `k`, the answer lies in the first `i`.
pub proof fn lemma_last_with_key_prefix<T>(entries: Seq<T>, key: spec_fn(T) -> Seq<char>, i: int, k: Seq<char>)
    requires
        0 < i <= entries.len(),
        key(entries[i - 1]) != k,
    ensures
        last_with_key(entries.subrange(0, i), key, k) == last_with_key(entries.subrange(0, i - 1), key, k),
{
    assert(entries.subrange(0, i).drop_last() =~= entries.subrange(0, i - 1));
}

} // verus!
