//! Mathematical model shared by the keyed stores (registries and the ledger):
//! each store is a vector of key/value entries with pairwise-distinct keys,
//! viewed in specifications as a `Map` from keys to values.

use vstd::prelude::*;

verus! {

/// The contents of an entry list as a map: a later entry shadows an earlier
/// one, though a well-formed store never holds the same key twice.
pub open spec fn assoc_map<K, V>(entries: Seq<(K, V)>) -> Map<K, V>
    decreases entries.len(),
{
    if entries.len() == 0 {
        Map::empty()
    } else {
        assoc_map(entries.drop_last()).insert(entries.last().0, entries.last().1)
    }
}

/// No key occurs in two entries.
pub open spec fn distinct_keys<K, V>(entries: Seq<(K, V)>) -> bool {
    forall|i: int, j: int|
        0 <= i < j < entries.len() ==> (#[trigger] entries[i]).0 != (#[trigger] entries[j]).0
}

/// A key is in the contents exactly when some entry carries it.
pub proof fn lemma_assoc_map_dom<K, V>(entries: Seq<(K, V)>, k: K)
    ensures
        assoc_map(entries).contains_key(k) <==> exists|i: int|
            0 <= i < entries.len() && (#[trigger] entries[i]).0 == k,
    decreases entries.len(),
{
    if entries.len() > 0 {
        let prefix = entries.drop_last();
        lemma_assoc_map_dom(prefix, k);
        if entries.last().0 == k {
            assert(entries[entries.len() - 1].0 == k);
        } else if exists|i: int| 0 <= i < prefix.len() && (#[trigger] prefix[i]).0 == k {
            let i = choose|i: int| 0 <= i < prefix.len() && (#[trigger] prefix[i]).0 == k;
            assert(entries[i].0 == k);
        } else if exists|i: int| 0 <= i < entries.len() && (#[trigger] entries[i]).0 == k {
            let i = choose|i: int| 0 <= i < entries.len() && (#[trigger] entries[i]).0 == k;
            assert(i < entries.len() - 1 ==> prefix[i].0 == k);
        }
    }
}

/// Dropping the last entry keeps the keys distinct.
pub proof fn lemma_distinct_drop_last<K, V>(entries: Seq<(K, V)>)
    requires
        distinct_keys(entries),
        entries.len() > 0,
    ensures
        distinct_keys(entries.drop_last()),
{
    let prefix = entries.drop_last();
    assert forall|i: int, j: int| 0 <= i < j < prefix.len() implies (#[trigger] prefix[i]).0 != (
    #[trigger] prefix[j]).0 by {
        assert(entries[i].0 != entries[j].0);
    }
}

/// With distinct keys, entry `i` gives the value the contents hold under its
/// key.
pub proof fn lemma_assoc_map_index<K, V>(entries: Seq<(K, V)>, i: int)
    requires
        distinct_keys(entries),
        0 <= i < entries.len(),
    ensures
        assoc_map(entries).contains_key(entries[i].0),
        assoc_map(entries)[entries[i].0] == entries[i].1,
    decreases entries.len(),
{
    if i < entries.len() - 1 {
        lemma_distinct_drop_last(entries);
        lemma_assoc_map_index(entries.drop_last(), i);
        assert(entries[entries.len() - 1].0 != entries[i].0);
    }
}

/// Replacing the value of entry `i` updates the contents at its key alone.
pub proof fn lemma_assoc_map_update<K, V>(entries: Seq<(K, V)>, i: int, v: V)
    requires
        distinct_keys(entries),
        0 <= i < entries.len(),
    ensures
        distinct_keys(entries.update(i, (entries[i].0, v))),
        assoc_map(entries.update(i, (entries[i].0, v))) == assoc_map(entries).insert(
            entries[i].0,
            v,
        ),
    decreases entries.len(),
{
    let k = entries[i].0;
    let updated = entries.update(i, (k, v));
    assert forall|x: int, y: int| 0 <= x < y < updated.len() implies (#[trigger] updated[x]).0 != (
    #[trigger] updated[y]).0 by {
        assert(entries[x].0 != entries[y].0);
    }
    if i == entries.len() - 1 {
        assert(updated.drop_last() =~= entries.drop_last());
        assert(assoc_map(updated) =~= assoc_map(entries).insert(k, v));
    } else {
        lemma_distinct_drop_last(entries);
        lemma_assoc_map_update(entries.drop_last(), i, v);
        assert(updated.drop_last() =~= entries.drop_last().update(i, (k, v)));
        assert(entries[entries.len() - 1].0 != k);
        assert(assoc_map(updated) =~= assoc_map(entries).insert(k, v));
    }
}

/// Appending an entry under a fresh key inserts that key into the contents.
pub proof fn lemma_assoc_map_push<K, V>(entries: Seq<(K, V)>, k: K, v: V)
    requires
        distinct_keys(entries),
        forall|i: int| 0 <= i < entries.len() ==> (#[trigger] entries[i]).0 != k,
    ensures
        distinct_keys(entries.push((k, v))),
        assoc_map(entries.push((k, v))) == assoc_map(entries).insert(k, v),
{
    let pushed = entries.push((k, v));
    assert forall|x: int, y: int| 0 <= x < y < pushed.len() implies (#[trigger] pushed[x]).0 != (
    #[trigger] pushed[y]).0 by {
        if y < entries.len() {
            assert(entries[x].0 != entries[y].0);
        } else {
            assert(entries[x].0 != k);
        }
    }
    assert(pushed.drop_last() =~= entries);
}

} // verus!
