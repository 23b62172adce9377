//! Association sequences viewed as maps.
//!
//! The process-wide tables in this library are keyed collections with few
//! entries (one per signal number, one per shutdown kind). They are stored
//! as vectors of key/value pairs with distinct keys, and specified through
//! the finite map such a sequence denotes. This module defines that
//! denotation and the lemmas that connect the usual sequence edits (push,
//! update, remove) to map operations.

use vstd::prelude::*;

verus! {

/// The map denoted by an association sequence. A later entry would win over
/// an earlier one with the same key; under [`keys_unique`] the order of
/// entries is irrelevant.
pub open spec fn assoc_map<K, V>(es: Seq<(K, V)>) -> Map<K, V>
    decreases es.len(),
{
    if es.len() == 0 {
        Map::empty()
    } else {
        assoc_map(es.drop_last()).insert(es.last().0, es.last().1)
    }
}

/// All keys of the association sequence are distinct.
pub open spec fn keys_unique<K, V>(es: Seq<(K, V)>) -> bool {
    forall|i: int, j: int| 0 <= i < j < es.len() ==> (#[trigger] es[i]).0 != (#[trigger] es[j]).0
}

/// A key is in the denoted map exactly when some entry carries it.
pub proof fn lemma_assoc_map_dom<K, V>(es: Seq<(K, V)>)
    ensures
        forall|k: K| #[trigger] assoc_map(es).dom().contains(k)
            <==> exists|i: int| 0 <= i < es.len() && (#[trigger] es[i]).0 == k,
    decreases es.len(),
{
    if es.len() > 0 {
        lemma_assoc_map_dom(es.drop_last());
        assert forall|k: K| #[trigger] assoc_map(es).dom().contains(k)
            implies exists|i: int| 0 <= i < es.len() && (#[trigger] es[i]).0 == k by {
            if k == es.last().0 {
                assert(es[es.len() - 1].0 == k);
            } else {
                assert(assoc_map(es.drop_last()).dom().contains(k));
                let i = choose|i: int| 0 <= i < es.drop_last().len()
                    && (#[trigger] es.drop_last()[i]).0 == k;
                assert(es.drop_last()[i] == es[i]);
                assert(es[i].0 == k);
            }
        }
        assert forall|k: K|
            exists|i: int| 0 <= i < es.len() && (#[trigger] es[i]).0 == k
            implies #[trigger] assoc_map(es).dom().contains(k) by {
            let i = choose|i: int| 0 <= i < es.len() && (#[trigger] es[i]).0 == k;
            assert(assoc_map(es) == assoc_map(es.drop_last()).insert(es.last().0, es.last().1));
            if i < es.len() - 1 {
                assert(es.drop_last()[i] == es[i]);
                assert(es.drop_last()[i].0 == k);
                assert(assoc_map(es.drop_last()).dom().contains(k));
            }
        }
    }
}

/// Under distinct keys, the entry at any index gives the map's value at its
/// key.
pub proof fn lemma_assoc_map_get<K, V>(es: Seq<(K, V)>, i: int)
    requires
        keys_unique(es),
        0 <= i < es.len(),
    ensures
        assoc_map(es).dom().contains(es[i].0),
        assoc_map(es)[es[i].0] == es[i].1,
    decreases es.len(),
{
    if i < es.len() - 1 {
        assert(es.drop_last()[i] == es[i]);
        lemma_assoc_map_get(es.drop_last(), i);
        assert(es.last().0 != es[i].0);
    }
}

/// Replacing the value at an index, keeping its key, denotes a map insert at
/// that key.
pub proof fn lemma_assoc_map_update<K, V>(es: Seq<(K, V)>, i: int, v: V)
    requires
        keys_unique(es),
        0 <= i < es.len(),
    ensures
        assoc_map(es.update(i, (es[i].0, v))) =~= assoc_map(es).insert(es[i].0, v),
    decreases es.len(),
{
    let es2 = es.update(i, (es[i].0, v));
    if i == es.len() - 1 {
        assert(es2.drop_last() =~= es.drop_last());
    } else {
        assert(es2.drop_last() =~= es.drop_last().update(i, (es[i].0, v)));
        assert(es.drop_last()[i] == es[i]);
        lemma_assoc_map_update(es.drop_last(), i, v);
        assert(es.last().0 != es[i].0);
        assert(es2.last() == es.last());
    }
}

/// Appending an entry denotes a map insert at its key.
pub proof fn lemma_assoc_map_push<K, V>(es: Seq<(K, V)>, k: K, v: V)
    ensures
        assoc_map(es.push((k, v))) =~= assoc_map(es).insert(k, v),
{
    assert(es.push((k, v)).drop_last() =~= es);
}

/// Under distinct keys, removing the entry at an index denotes a map remove
/// of its key.
pub proof fn lemma_assoc_map_remove<K, V>(es: Seq<(K, V)>, i: int)
    requires
        keys_unique(es),
        0 <= i < es.len(),
    ensures
        assoc_map(es.remove(i)) =~= assoc_map(es).remove(es[i].0),
    decreases es.len(),
{
    if i == es.len() - 1 {
        assert(es.remove(i) =~= es.drop_last());
        lemma_assoc_map_dom(es.drop_last());
        assert forall|j: int| 0 <= j < es.drop_last().len()
            implies (#[trigger] es.drop_last()[j]).0 != es[i].0 by {
            assert(es[j] == es.drop_last()[j]);
        }
        assert(!assoc_map(es.drop_last()).dom().contains(es[i].0));
        assert(assoc_map(es.drop_last()).remove(es[i].0) =~= assoc_map(es.drop_last()));
    } else {
        assert(es.remove(i).drop_last() =~= es.drop_last().remove(i));
        assert(es.drop_last()[i] == es[i]);
        lemma_assoc_map_remove(es.drop_last(), i);
        assert(es.remove(i).last() == es.last());
        assert(es.last().0 != es[i].0);
    }
}

/// Distinct keys survive replacing a value (the key at the index is kept).
pub proof fn lemma_keys_unique_update<K, V>(es: Seq<(K, V)>, i: int, v: V)
    requires
        keys_unique(es),
        0 <= i < es.len(),
    ensures
        keys_unique(es.update(i, (es[i].0, v))),
{
}

/// Distinct keys survive appending an entry whose key no entry carries.
pub proof fn lemma_keys_unique_push<K, V>(es: Seq<(K, V)>, k: K, v: V)
    requires
        keys_unique(es),
        forall|i: int| 0 <= i < es.len() ==> (#[trigger] es[i]).0 != k,
    ensures
        keys_unique(es.push((k, v))),
{
}

/// What a one-longer prefix of a sequence contains: the shorter prefix's
/// elements plus the element at the boundary. Shared by the loops that walk
/// a list of keys while growing a table.
pub proof fn lemma_take_succ_contains<A>(s: Seq<A>, k: int)
    requires
        0 <= k < s.len(),
    ensures
        forall|x: A| s.take(k + 1).contains(x) <==> (s.take(k).contains(x) || x == s[k]),
{
    let t = s.take(k + 1);
    let h = s.take(k);
    assert(t =~= h.push(s[k]));
    assert forall|x: A| t.contains(x) implies (h.contains(x) || x == s[k]) by {
        let i = choose|i: int| 0 <= i < t.len() && t[i] == x;
        if i < k {
            assert(h[i] == x);
        }
    }
    assert forall|x: A| h.contains(x) || x == s[k] implies #[trigger] t.contains(x) by {
        if h.contains(x) {
            let i = choose|i: int| 0 <= i < h.len() && h[i] == x;
            assert(t[i] == x);
        } else {
            assert(t[k] == x);
        }
    }
}

/// Distinct keys survive removing an entry.
pub proof fn lemma_keys_unique_remove<K, V>(es: Seq<(K, V)>, i: int)
    requires
        keys_unique(es),
        0 <= i < es.len(),
    ensures
        keys_unique(es.remove(i)),
{
    assert forall|a: int, b: int| 0 <= a < b < es.remove(i).len()
        implies (#[trigger] es.remove(i)[a]).0 != (#[trigger] es.remove(i)[b]).0 by {
        let a0: int = if a < i { a } else { a + 1 };
        let b0: int = if b < i { b } else { b + 1 };
        assert(es.remove(i)[a] == es[a0]);
        assert(es.remove(i)[b] == es[b0]);
    }
}

} // verus!
