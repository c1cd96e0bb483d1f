//! Lists of keys and values, read as maps.

use vstd::prelude::*;

verus! {

/// No key occurs twice.
pub open spec fn spec_unique<K, V>(s: Seq<(K, V)>) -> bool {
    forall|i: int, j: int| 0 <= i < j < s.len() ==> #[trigger] s[i].0 != #[trigger] s[j].0
}

/// The map that a list of keys and values stands for.
pub open spec fn spec_table<K, V>(s: Seq<(K, V)>) -> Map<K, V>
    decreases s.len(),
{
    if s.len() == 0 {
        Map::empty()
    } else {
        spec_table(s.drop_last()).insert(s.last().0, s.last().1)
    }
}

/// A key is in the map if and only if it is in the list.
pub proof fn lemma_table_contains<K, V>(s: Seq<(K, V)>, k: K)
    ensures
        spec_table(s).contains_key(k) <==> exists|i: int| 0 <= i < s.len() && #[trigger] s[i].0 == k,
    decreases s.len(),
{
    if s.len() > 0 {
        let front = s.drop_last();
        lemma_table_contains(front, k);
        if exists|i: int| 0 <= i < front.len() && #[trigger] front[i].0 == k {
            let i = choose|i: int| 0 <= i < front.len() && #[trigger] front[i].0 == k;
            assert(s[i].0 == k);
        }
        if exists|i: int| 0 <= i < s.len() && #[trigger] s[i].0 == k {
            let i = choose|i: int| 0 <= i < s.len() && #[trigger] s[i].0 == k;
            if i < front.len() {
                assert(front[i].0 == k);
            }
        }
        assert(s[s.len() - 1].0 == s.last().0);
    }
}

/// The map holds each entry of a list without repeated keys.
pub proof fn lemma_table_holds<K, V>(s: Seq<(K, V)>, i: int)
    requires
        spec_unique(s),
        0 <= i < s.len(),
    ensures
        spec_table(s).contains_key(s[i].0),
        spec_table(s)[s[i].0] == s[i].1,
    decreases s.len(),
{
    let front = s.drop_last();
    if i < front.len() {
        assert(spec_unique(front)) by {
            assert forall|a: int, b: int| 0 <= a < b < front.len() implies #[trigger] front[a].0
                != #[trigger] front[b].0 by {
                assert(s[a].0 != s[b].0);
            }
        }
        lemma_table_holds(front, i);
        assert(front[i] == s[i]);
        assert(s[i].0 != s[s.len() - 1].0);
    }
}

/// Adding an entry at the end adds it to the map.
pub proof fn lemma_table_push<K, V>(s: Seq<(K, V)>, k: K, v: V)
    ensures
        spec_table(s.push((k, v))) == spec_table(s).insert(k, v),
        spec_unique(s) && !spec_table(s).contains_key(k) ==> spec_unique(s.push((k, v))),
{
    let t = s.push((k, v));
    assert(t.drop_last() =~= s);
    if spec_unique(s) && !spec_table(s).contains_key(k) {
        lemma_table_contains(s, k);
        assert forall|a: int, b: int| 0 <= a < b < t.len() implies #[trigger] t[a].0
            != #[trigger] t[b].0 by {
            assert(s[a] == t[a]);
            if b < s.len() {
                assert(s[b] == t[b]);
            }
        }
    }
}

/// Changing the value of an entry changes it in the map.
pub proof fn lemma_table_update<K, V>(s: Seq<(K, V)>, i: int, v: V)
    requires
        spec_unique(s),
        0 <= i < s.len(),
    ensures
        spec_unique(s.update(i, (s[i].0, v))),
        spec_table(s.update(i, (s[i].0, v))) == spec_table(s).insert(s[i].0, v),
{
    let t = s.update(i, (s[i].0, v));
    assert(spec_unique(t)) by {
        assert forall|a: int, b: int| 0 <= a < b < t.len() implies #[trigger] t[a].0
            != #[trigger] t[b].0 by {
            assert(s[a].0 != s[b].0);
        }
    }
    let goal = spec_table(s).insert(s[i].0, v);
    assert forall|k: K| spec_table(t).contains_key(k) <==> goal.contains_key(k) by {
        lemma_table_contains(s, k);
        lemma_table_contains(t, k);
        if exists|j: int| 0 <= j < s.len() && #[trigger] s[j].0 == k {
            let j = choose|j: int| 0 <= j < s.len() && #[trigger] s[j].0 == k;
            assert(t[j].0 == k);
        }
        if exists|j: int| 0 <= j < t.len() && #[trigger] t[j].0 == k {
            let j = choose|j: int| 0 <= j < t.len() && #[trigger] t[j].0 == k;
            assert(s[j].0 == k);
        }
    }
    assert forall|k: K| spec_table(t).contains_key(k) implies spec_table(t)[k] == goal[k] by {
        lemma_table_contains(t, k);
        let j = choose|j: int| 0 <= j < t.len() && #[trigger] t[j].0 == k;
        lemma_table_holds(t, j);
        lemma_table_holds(s, j);
        if j != i {
            assert(s[j].0 != s[i].0);
        }
    }
    assert(spec_table(t) =~= goal);
}

} // verus!
