//! A sequence of key/record pairs with pairwise distinct keys, read as a map
//! from key to record. The in-memory backend stores its records in vectors
//! and states its contracts over the maps these functions derive from them.

use vstd::prelude::*;

verus! {

/// The map that a sequence of key/record pairs denotes; a later pair with
/// the same key overrides an earlier one.
pub open spec fn map_of<K, V>(s: Seq<(K, V)>) -> Map<K, V>
    decreases s.len(),
{
    if s.len() == 0 {
        Map::empty()
    } else {
        map_of(s.drop_last()).insert(s.last().0, s.last().1)
    }
}

/// No two pairs of the sequence share a key.
pub open spec fn keys_distinct<K, V>(s: Seq<(K, V)>) -> bool {
    forall|i: int, j: int| 0 <= i < j < s.len() ==> s[i].0 != s[j].0
}

/// The derived map has a finite domain.
pub proof fn lemma_map_of_finite<K, V>(s: Seq<(K, V)>)
    ensures
        map_of(s).dom().finite(),
    decreases s.len(),
{
    if s.len() > 0 {
        lemma_map_of_finite(s.drop_last());
    }
}

/// A key is in the derived map exactly when some pair of the sequence
/// carries it.
pub proof fn lemma_map_of_contains<K, V>(s: Seq<(K, V)>, k: K)
    ensures
        map_of(s).contains_key(k) <==> exists|i: int| 0 <= i < s.len() && s[i].0 == k,
    decreases s.len(),
{
    if s.len() > 0 {
        lemma_map_of_contains(s.drop_last(), k);
        if s.last().0 == k {
            assert(s[s.len() - 1].0 == k);
        } else if map_of(s).contains_key(k) {
            let i = choose|i: int| 0 <= i < s.drop_last().len() && s.drop_last()[i].0 == k;
            assert(s[i].0 == k);
        } else {
            assert forall|i: int| 0 <= i < s.len() implies s[i].0 != k by {
                if i < s.len() - 1 {
                    assert(s.drop_last()[i] == s[i]);
                }
            }
        }
    }
}

/// Under distinct keys, looking a pair's key up in the derived map gives its
/// record.
pub proof fn lemma_map_of_index<K, V>(s: Seq<(K, V)>, i: int)
    requires
        keys_distinct(s),
        0 <= i < s.len(),
    ensures
        map_of(s).contains_key(s[i].0),
        map_of(s)[s[i].0] == s[i].1,
    decreases s.len(),
{
    if i == s.len() - 1 {
    } else {
        assert(forall|p: int, q: int|
            0 <= p < q < s.drop_last().len() ==> s.drop_last()[p].0 != s.drop_last()[q].0);
        lemma_map_of_index(s.drop_last(), i);
        assert(s.drop_last()[i] == s[i]);
        assert(s[i].0 != s.last().0);
    }
}

/// Replacing the pair at one index by one with the same key turns the
/// derived map into an insert under that key.
pub proof fn lemma_map_of_update<K, V>(s: Seq<(K, V)>, i: int, p: (K, V))
    requires
        keys_distinct(s),
        0 <= i < s.len(),
        p.0 == s[i].0,
    ensures
        map_of(s.update(i, p)) == map_of(s).insert(p.0, p.1),
        keys_distinct(s.update(i, p)),
    decreases s.len(),
{
    let t = s.update(i, p);
    assert(t.len() == s.len());
    if i == s.len() - 1 {
        assert(t.drop_last() =~= s.drop_last());
        assert(t.last() == p);
        assert(map_of(t) == map_of(s.drop_last()).insert(p.0, p.1));
        assert(map_of(s).insert(p.0, p.1) =~= map_of(s.drop_last()).insert(p.0, p.1));
    } else {
        assert(forall|a: int, b: int|
            0 <= a < b < s.drop_last().len() ==> s.drop_last()[a].0 != s.drop_last()[b].0);
        assert(s.drop_last()[i] == s[i]);
        lemma_map_of_update(s.drop_last(), i, p);
        assert(t.drop_last() =~= s.drop_last().update(i, p));
        assert(t.last() == s.last());
        assert(p.0 != s.last().0);
        assert(map_of(t) =~= map_of(s).insert(p.0, p.1));
    }
    assert forall|a: int, b: int| 0 <= a < b < t.len() implies t[a].0 != t[b].0 by {
        if a != i && b != i {
            assert(t[a] == s[a] && t[b] == s[b]);
        }
    }
}

/// Appending a pair with a fresh key turns the derived map into an insert
/// under that key.
pub proof fn lemma_map_of_push<K, V>(s: Seq<(K, V)>, p: (K, V))
    requires
        keys_distinct(s),
        forall|i: int| 0 <= i < s.len() ==> s[i].0 != p.0,
    ensures
        map_of(s.push(p)) == map_of(s).insert(p.0, p.1),
        keys_distinct(s.push(p)),
{
    let t = s.push(p);
    assert(t.drop_last() =~= s);
    assert(t.last() == p);
    assert forall|a: int, b: int| 0 <= a < b < t.len() implies t[a].0 != t[b].0 by {
        if b < t.len() - 1 {
            assert(t[a] == s[a] && t[b] == s[b]);
        } else {
            assert(t[a] == s[a] && t[b] == p);
        }
    }
}

/// Removing the pair at one index removes its key from the derived map.
pub proof fn lemma_map_of_remove<K, V>(s: Seq<(K, V)>, i: int)
    requires
        keys_distinct(s),
        0 <= i < s.len(),
    ensures
        map_of(s.remove(i)) == map_of(s).remove(s[i].0),
        keys_distinct(s.remove(i)),
    decreases s.len(),
{
    let t = s.remove(i);
    assert(t.len() == s.len() - 1);
    assert(forall|a: int, b: int|
        0 <= a < b < s.drop_last().len() ==> s.drop_last()[a].0 != s.drop_last()[b].0);
    if i == s.len() - 1 {
        assert(t =~= s.drop_last());
        lemma_map_of_contains(s.drop_last(), s.last().0);
        assert forall|j: int| 0 <= j < s.drop_last().len() implies s.drop_last()[j].0
            != s.last().0 by {
            assert(s.drop_last()[j] == s[j]);
        }
        assert(map_of(t) =~= map_of(s.drop_last()).insert(s.last().0, s.last().1).remove(
            s.last().0,
        ));
    } else {
        assert(s.drop_last()[i] == s[i]);
        lemma_map_of_remove(s.drop_last(), i);
        assert(t.drop_last() =~= s.drop_last().remove(i));
        assert(t.last() == s.last());
        assert(s[i].0 != s.last().0);
        assert(map_of(t) =~= map_of(s).remove(s[i].0));
    }
    assert forall|a: int, b: int| 0 <= a < b < t.len() implies t[a].0 != t[b].0 by {
        let sa: int = if a < i {
            a
        } else {
            a + 1
        };
        let sb: int = if b < i {
            b
        } else {
            b + 1
        };
        assert(t[a] == s[sa] && t[b] == s[sb]);
    }
}

} // verus!
