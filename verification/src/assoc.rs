//! Association sequences: sequences of key/value pairs keyed by character
//! sequences, together with the finite map each one denotes. The aggregator,
//! the function table and the hook registry all store their entries in a
//! `Vec` and state their contracts over the map denoted by that `Vec`.

use vstd::prelude::*;

verus! {

/// The keys of an association sequence, in order.
pub open spec fn assoc_keys<V>(s: Seq<(Seq<char>, V)>) -> Seq<Seq<char>> {
    s.map_values(|p: (Seq<char>, V)| p.0)
}

/// No key occurs twice.
pub open spec fn unique_keys<V>(s: Seq<(Seq<char>, V)>) -> bool {
    forall|i: int, j: int| 0 <= i < j < s.len() ==> s[i].0 != s[j].0
}

/// The finite map denoted by an association sequence; a later pair under the
/// same key wins.
pub open spec fn assoc_map<V>(s: Seq<(Seq<char>, V)>) -> Map<Seq<char>, V>
    decreases s.len(),
{
    if s.len() == 0 {
        Map::empty()
    } else {
        assoc_map(s.drop_last()).insert(s.last().0, s.last().1)
    }
}

/// The first index holding `k`, or `-1` when no pair does.
pub open spec fn key_idx<V>(s: Seq<(Seq<char>, V)>, k: Seq<char>) -> int
    decreases s.len(),
{
    if s.len() == 0 {
        -1
    } else if s[0].0 == k {
        0
    } else {
        let r = key_idx(s.skip(1), k);
        if r < 0 {
            -1
        } else {
            r + 1
        }
    }
}

pub proof fn lemma_key_idx<V>(s: Seq<(Seq<char>, V)>, k: Seq<char>)
    ensures
        key_idx(s, k) >= 0 ==> {
            &&& key_idx(s, k) < s.len()
            &&& s[key_idx(s, k)].0 == k
            &&& forall|j: int| 0 <= j < key_idx(s, k) ==> s[j].0 != k
        },
        key_idx(s, k) < 0 ==> forall|j: int| 0 <= j < s.len() ==> s[j].0 != k,
    decreases s.len(),
{
    if s.len() > 0 && s[0].0 != k {
        lemma_key_idx(s.skip(1), k);
        assert forall|j: int| 1 <= j < s.len() implies s[j] == s.skip(1)[j - 1] by {}
    }
}

/// The key of any pair is in the denoted map's domain.
pub proof fn lemma_assoc_dom_contains<V>(s: Seq<(Seq<char>, V)>, i: int)
    requires
        0 <= i < s.len(),
    ensures
        assoc_map(s).dom().contains(s[i].0),
    decreases s.len(),
{
    if i < s.len() - 1 {
        lemma_assoc_dom_contains(s.drop_last(), i);
        assert(s.drop_last()[i] == s[i]);
    }
}

/// A key held by no pair is outside the denoted map's domain.
pub proof fn lemma_assoc_dom_absent<V>(s: Seq<(Seq<char>, V)>, k: Seq<char>)
    requires
        forall|j: int| 0 <= j < s.len() ==> s[j].0 != k,
    ensures
        !assoc_map(s).dom().contains(k),
    decreases s.len(),
{
    if s.len() > 0 {
        assert(forall|j: int|
            0 <= j < s.drop_last().len() ==> #[trigger] s.drop_last()[j].0 != k);
        lemma_assoc_dom_absent(s.drop_last(), k);
        assert(s.last().0 != k);
    }
}

/// Under unique keys, the denoted map sends each key to its pair's value.
pub proof fn lemma_assoc_index<V>(s: Seq<(Seq<char>, V)>, i: int)
    requires
        unique_keys(s),
        0 <= i < s.len(),
    ensures
        assoc_map(s).dom().contains(s[i].0),
        assoc_map(s)[s[i].0] == s[i].1,
    decreases s.len(),
{
    if i == s.len() - 1 {
    } else {
        assert(forall|x: int, y: int|
            0 <= x < y < s.drop_last().len() ==> s.drop_last()[x].0 != s.drop_last()[y].0);
        lemma_assoc_index(s.drop_last(), i);
        assert(s[i].0 != s.last().0);
    }
}

/// Under unique keys, the denoted map has one entry per pair.
pub proof fn lemma_assoc_len<V>(s: Seq<(Seq<char>, V)>)
    requires
        unique_keys(s),
    ensures
        assoc_map(s).dom().finite(),
        assoc_map(s).dom().len() == s.len(),
    decreases s.len(),
{
    if s.len() > 0 {
        assert(forall|x: int, y: int|
            0 <= x < y < s.drop_last().len() ==> s.drop_last()[x].0 != s.drop_last()[y].0);
        lemma_assoc_len(s.drop_last());
        assert(forall|j: int|
            0 <= j < s.drop_last().len() ==> #[trigger] s.drop_last()[j].0 != s.last().0);
        lemma_assoc_dom_absent(s.drop_last(), s.last().0);
    }
}

/// Replacing the pair at `i` by one under the same key updates the denoted
/// map at that key.
pub proof fn lemma_assoc_update<V>(s: Seq<(Seq<char>, V)>, i: int, v: V)
    requires
        unique_keys(s),
        0 <= i < s.len(),
    ensures
        assoc_map(s.update(i, (s[i].0, v))) == assoc_map(s).insert(s[i].0, v),
        unique_keys(s.update(i, (s[i].0, v))),
    decreases s.len(),
{
    let s2 = s.update(i, (s[i].0, v));
    assert(assoc_keys(s2) =~= assoc_keys(s));
    if i == s.len() - 1 {
        assert(s2.drop_last() =~= s.drop_last());
        assert(assoc_map(s2) =~= assoc_map(s).insert(s[i].0, v));
    } else {
        assert(forall|x: int, y: int|
            0 <= x < y < s.drop_last().len() ==> s.drop_last()[x].0 != s.drop_last()[y].0);
        lemma_assoc_update(s.drop_last(), i, v);
        assert(s2.drop_last() =~= s.drop_last().update(i, (s[i].0, v)));
        assert(s2.last() == s.last());
        assert(s[i].0 != s.last().0);
        assert(assoc_map(s2) =~= assoc_map(s).insert(s[i].0, v));
    }
}

/// Inserting a pair under a fresh key, at any position, inserts into the
/// denoted map.
pub proof fn lemma_assoc_insert<V>(s: Seq<(Seq<char>, V)>, i: int, k: Seq<char>, v: V)
    requires
        0 <= i <= s.len(),
        forall|j: int| 0 <= j < s.len() ==> s[j].0 != k,
    ensures
        assoc_map(s.insert(i, (k, v))) == assoc_map(s).insert(k, v),
    decreases s.len(),
{
    let s2 = s.insert(i, (k, v));
    if i == s.len() {
        assert(s2.drop_last() =~= s);
        assert(s2.last() == (k, v));
    } else {
        assert(s2.last() == s.last());
        assert(s2.drop_last() =~= s.drop_last().insert(i, (k, v)));
        lemma_assoc_insert(s.drop_last(), i, k, v);
        assert(k != s.last().0);
        assert(assoc_map(s2) =~= assoc_map(s).insert(k, v));
    }
}

/// Removing the pair at `i` removes its key from the denoted map.
pub proof fn lemma_assoc_remove<V>(s: Seq<(Seq<char>, V)>, i: int)
    requires
        unique_keys(s),
        0 <= i < s.len(),
    ensures
        assoc_map(s.remove(i)) == assoc_map(s).remove(s[i].0),
        unique_keys(s.remove(i)),
    decreases s.len(),
{
    let s2 = s.remove(i);
    assert forall|x: int, y: int| 0 <= x < y < s2.len() implies s2[x].0 != s2[y].0 by {}
    if i == s.len() - 1 {
        assert(s2 =~= s.drop_last());
        assert(forall|j: int| 0 <= j < s2.len() ==> #[trigger] s2[j].0 != s[i].0);
        lemma_assoc_dom_absent(s2, s[i].0);
        assert(assoc_map(s2) =~= assoc_map(s).remove(s[i].0));
    } else {
        assert(forall|x: int, y: int|
            0 <= x < y < s.drop_last().len() ==> s.drop_last()[x].0 != s.drop_last()[y].0);
        lemma_assoc_remove(s.drop_last(), i);
        assert(s2.drop_last() =~= s.drop_last().remove(i));
        assert(s2.last() == s.last());
        assert(s[i].0 != s.last().0);
        assert(assoc_map(s2) =~= assoc_map(s).remove(s[i].0));
    }
}

} // verus!
