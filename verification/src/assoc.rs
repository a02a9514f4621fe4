//! A finite map abstraction for association sequences.
//!
//! The registrar keeps its indexes as vectors of key/value pairs so that every
//! operation on them can be reasoned about directly.  This module interprets
//! such a sequence as a `Map` and proves how the map changes under the vector
//! operations the registrar performs: appending a pair, rewriting the pair at
//! an index, and removing the pair at an index.

use vstd::prelude::*;

verus! {

/// The map an association sequence denotes; a later pair wins over an
/// earlier one with the same key.
pub open spec fn assoc_map<K, V>(s: Seq<(K, V)>) -> Map<K, V>
    decreases s.len(),
{
    if s.len() == 0 {
        Map::empty()
    } else {
        assoc_map(s.drop_last()).insert(s.last().0, s.last().1)
    }
}

/// No key occurs twice in the sequence.
pub open spec fn keys_distinct<K, V>(s: Seq<(K, V)>) -> bool {
    forall|i: int, j: int| 0 <= i < j < s.len() ==> (#[trigger] s[i]).0 != (#[trigger] s[j]).0
}

/// The map holds a key exactly when some pair carries it.
pub proof fn lemma_assoc_contains<K, V>(s: Seq<(K, V)>, k: K)
    ensures
        assoc_map(s).contains_key(k) <==> exists|i: int| 0 <= i < s.len() && (#[trigger] s[i]).0 == k,
    decreases s.len(),
{
    if s.len() > 0 {
        lemma_assoc_contains(s.drop_last(), k);
        if s.last().0 == k {
            assert(s[s.len() - 1].0 == k);
        } else if assoc_map(s).contains_key(k) {
            let i = choose|i: int| 0 <= i < s.drop_last().len() && (#[trigger] s.drop_last()[i]).0 == k;
            assert(s[i].0 == k);
        } else if exists|i: int| 0 <= i < s.len() && (#[trigger] s[i]).0 == k {
            let i = choose|i: int| 0 <= i < s.len() && (#[trigger] s[i]).0 == k;
            assert(s.drop_last()[i].0 == k);
        }
    }
}

/// With distinct keys, the pair at an index gives the map's value at its key.
pub proof fn lemma_assoc_get<K, V>(s: Seq<(K, V)>, i: int)
    requires
        keys_distinct(s),
        0 <= i < s.len(),
    ensures
        assoc_map(s).contains_key(s[i].0),
        assoc_map(s)[s[i].0] == s[i].1,
    decreases s.len(),
{
    lemma_assoc_contains(s, s[i].0);
    if i < s.len() - 1 {
        assert(s.drop_last()[i] == s[i]);
        lemma_assoc_get(s.drop_last(), i);
        assert(s.last().0 != s[i].0);
    }
}

/// Appending a pair inserts its key.
pub proof fn lemma_assoc_push<K, V>(s: Seq<(K, V)>, p: (K, V))
    ensures
        assoc_map(s.push(p)) == assoc_map(s).insert(p.0, p.1),
{
    assert(s.push(p).drop_last() =~= s);
    assert(s.push(p).last() == p);
}

/// Rewriting the pair at an index, keeping its key, updates the key's value.
pub proof fn lemma_assoc_update<K, V>(s: Seq<(K, V)>, i: int, p: (K, V))
    requires
        keys_distinct(s),
        0 <= i < s.len(),
        p.0 == s[i].0,
    ensures
        assoc_map(s.update(i, p)) =~= assoc_map(s).insert(p.0, p.1),
    decreases s.len(),
{
    if i == s.len() - 1 {
        assert(s.update(i, p).drop_last() =~= s.drop_last());
        assert(s.update(i, p).last() == p);
    } else {
        assert(s.update(i, p).drop_last() =~= s.drop_last().update(i, p));
        assert(s.update(i, p).last() == s.last());
        lemma_assoc_update(s.drop_last(), i, p);
        assert(s.last().0 != p.0);
    }
}

/// Appending a pair with a fresh key keeps the keys distinct.
pub proof fn lemma_distinct_push<K, V>(s: Seq<(K, V)>, p: (K, V))
    requires
        keys_distinct(s),
        forall|i: int| 0 <= i < s.len() ==> (#[trigger] s[i]).0 != p.0,
    ensures
        keys_distinct(s.push(p)),
{
    assert forall|i: int, j: int| 0 <= i < j < s.push(p).len()
        implies (#[trigger] s.push(p)[i]).0 != (#[trigger] s.push(p)[j]).0 by {
        if j == s.len() {
            assert(s.push(p)[i] == s[i]);
        } else {
            assert(s.push(p)[i] == s[i]);
            assert(s.push(p)[j] == s[j]);
        }
    }
}

/// Removing a pair keeps the keys distinct.
pub proof fn lemma_distinct_remove<K, V>(s: Seq<(K, V)>, i: int)
    requires
        keys_distinct(s),
        0 <= i < s.len(),
    ensures
        keys_distinct(s.remove(i)),
{
    assert forall|a: int, b: int| 0 <= a < b < s.remove(i).len()
        implies (#[trigger] s.remove(i)[a]).0 != (#[trigger] s.remove(i)[b]).0 by {
        let a0: int = if a < i { a } else { a + 1 };
        let b0: int = if b < i { b } else { b + 1 };
        assert(s.remove(i)[a] == s[a0]);
        assert(s.remove(i)[b] == s[b0]);
    }
}

/// Removing the pair at an index removes its key from the map.
pub proof fn lemma_assoc_remove<K, V>(s: Seq<(K, V)>, i: int)
    requires
        keys_distinct(s),
        0 <= i < s.len(),
    ensures
        assoc_map(s.remove(i)) =~= assoc_map(s).remove(s[i].0),
    decreases s.len(),
{
    if i == s.len() - 1 {
        assert(s.remove(i) =~= s.drop_last());
        lemma_assoc_contains(s.drop_last(), s[i].0);
        assert(forall|j: int| 0 <= j < s.drop_last().len() ==> (#[trigger] s.drop_last()[j]).0 != s[i].0);
        assert(!assoc_map(s.drop_last()).contains_key(s[i].0));
    } else {
        assert(s.remove(i).drop_last() =~= s.drop_last().remove(i));
        assert(s.remove(i).last() == s.last());
        lemma_assoc_remove(s.drop_last(), i);
        assert(s.drop_last()[i] == s[i]);
        assert(s.last().0 != s[i].0);
    }
}

} // verus!
