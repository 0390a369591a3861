//! The mirror's mappings are stored as vectors of key/value entries with
//! pairwise-distinct keys. This module gives such an entry sequence its
//! meaning as a `Map` and proves how the map moves under the edits the
//! adapters perform: appending an entry, replacing the value at an index,
//! and removing an index.

use vstd::prelude::*;

verus! {

/// No two entries share a key.
pub open spec fn keys_distinct<K, V>(s: Seq<(K, V)>) -> bool {
    forall|i: int, j: int| 0 <= i < j < s.len() ==> s[i].0 != s[j].0
}

/// Some entry has key `k`.
pub open spec fn has_key<K, V>(s: Seq<(K, V)>, k: K) -> bool {
    exists|i: int| 0 <= i < s.len() && s[i].0 == k
}

/// The mapping an entry sequence denotes; later entries win, which is
/// immaterial once keys are distinct.
pub open spec fn as_map<K, V>(s: Seq<(K, V)>) -> Map<K, V>
    decreases s.len(),
{
    if s.len() == 0 {
        Map::empty()
    } else {
        as_map(s.drop_last()).insert(s.last().0, s.last().1)
    }
}

pub proof fn lemma_as_map_contains<K, V>(s: Seq<(K, V)>)
    ensures
        forall|k: K| as_map(s).contains_key(k) <==> has_key(s, k),
    decreases s.len(),
{
    if s.len() > 0 {
        let dl = s.drop_last();
        lemma_as_map_contains(dl);
        assert(as_map(s) == as_map(dl).insert(s.last().0, s.last().1));
        assert forall|k: K| as_map(s).contains_key(k) <==> has_key(s, k) by {
            if as_map(s).contains_key(k) {
                if k == s.last().0 {
                    assert(0 <= s.len() - 1 < s.len() && s[s.len() - 1].0 == k);
                    assert(has_key(s, k));
                } else {
                    assert(as_map(dl).contains_key(k));
                    assert(has_key(dl, k));
                    let i = choose|i: int| 0 <= i < dl.len() && dl[i].0 == k;
                    assert(dl[i] == s[i]);
                    assert(0 <= i < s.len() && s[i].0 == k);
                    assert(has_key(s, k));
                }
            }
            if has_key(s, k) {
                let i = choose|i: int| 0 <= i < s.len() && s[i].0 == k;
                if i < s.len() - 1 {
                    assert(dl[i] == s[i]);
                    assert(0 <= i < dl.len() && dl[i].0 == k);
                    assert(has_key(dl, k));
                } else {
                    assert(k == s.last().0);
                }
            }
        }
    }
}

pub proof fn lemma_as_map_index<K, V>(s: Seq<(K, V)>, i: int)
    requires
        keys_distinct(s),
        0 <= i < s.len(),
    ensures
        as_map(s).contains_key(s[i].0),
        as_map(s)[s[i].0] == s[i].1,
    decreases s.len(),
{
    let dl = s.drop_last();
    if i == s.len() - 1 {
        assert(as_map(s) == as_map(dl).insert(s.last().0, s.last().1));
    } else {
        assert(keys_distinct(dl)) by {
            assert(forall|x: int, y: int|
                0 <= x < y < dl.len() ==> dl[x] == s[x] && dl[y] == s[y]);
        }
        lemma_as_map_index(dl, i);
        assert(dl[i] == s[i]);
        assert(s[i].0 != s.last().0);
    }
}

pub proof fn lemma_as_map_push<K, V>(s: Seq<(K, V)>, k: K, v: V)
    ensures
        as_map(s.push((k, v))) == as_map(s).insert(k, v),
{
    let s2 = s.push((k, v));
    assert(s2.drop_last() =~= s);
    assert(s2.last() == (k, v));
}

pub proof fn lemma_as_map_update<K, V>(s: Seq<(K, V)>, i: int, v: V)
    requires
        keys_distinct(s),
        0 <= i < s.len(),
    ensures
        as_map(s.update(i, (s[i].0, v))) == as_map(s).insert(s[i].0, v),
    decreases s.len(),
{
    let k = s[i].0;
    let s2 = s.update(i, (k, v));
    let dl = s.drop_last();
    if i == s.len() - 1 {
        assert(s2.drop_last() =~= dl);
        assert(s2.last() == (k, v));
        assert(as_map(s2) == as_map(dl).insert(k, v));
        assert(as_map(s).insert(k, v) =~= as_map(dl).insert(k, v));
    } else {
        assert(keys_distinct(dl)) by {
            assert(forall|x: int, y: int|
                0 <= x < y < dl.len() ==> dl[x] == s[x] && dl[y] == s[y]);
        }
        assert(dl[i] == s[i]);
        lemma_as_map_update(dl, i, v);
        assert(s2.drop_last() =~= dl.update(i, (k, v)));
        assert(s2.last() == s.last());
        assert(as_map(s2) == as_map(dl).insert(k, v).insert(s.last().0, s.last().1));
        assert(k != s.last().0);
        assert(as_map(dl).insert(k, v).insert(s.last().0, s.last().1) =~= as_map(
            dl,
        ).insert(s.last().0, s.last().1).insert(k, v));
    }
}

pub proof fn lemma_as_map_remove<K, V>(s: Seq<(K, V)>, i: int)
    requires
        keys_distinct(s),
        0 <= i < s.len(),
    ensures
        as_map(s.remove(i)) == as_map(s).remove(s[i].0),
    decreases s.len(),
{
    let k = s[i].0;
    let s2 = s.remove(i);
    let dl = s.drop_last();
    assert(keys_distinct(dl)) by {
        assert(forall|x: int, y: int| 0 <= x < y < dl.len() ==> dl[x] == s[x] && dl[y] == s[y]);
    }
    if i == s.len() - 1 {
        assert(s2 =~= dl);
        lemma_as_map_contains(dl);
        assert(!has_key(dl, k)) by {
            assert(forall|j: int| 0 <= j < dl.len() ==> dl[j] == s[j]);
        }
        assert(as_map(s).remove(k) =~= as_map(dl));
    } else {
        assert(dl[i] == s[i]);
        lemma_as_map_remove(dl, i);
        assert(s2.len() == s.len() - 1);
        assert(s2.drop_last() =~= dl.remove(i));
        assert(s2.last() == s.last());
        assert(as_map(s2) == as_map(dl).remove(k).insert(s.last().0, s.last().1));
        assert(k != s.last().0);
        assert(as_map(dl).remove(k).insert(s.last().0, s.last().1) =~= as_map(
            dl,
        ).insert(s.last().0, s.last().1).remove(k));
    }
}

} // verus!
