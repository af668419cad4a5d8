//! Keyed records kept in a vector: the abstraction from a sequence of
//! `(key, value)` pairs with distinct keys to the map it represents, and
//! how that map changes when the sequence does.

use vstd::prelude::*;

verus! {

/// No key occurs twice.
pub open spec fn distinct_keys<K, V>(s: Seq<(K, V)>) -> bool {
    forall|i: int, j: int| 0 <= i < s.len() && 0 <= j < s.len() && i != j ==> #[trigger] s[i].0 != #[trigger] s[j].0
}

/// The map a sequence of pairs represents (later pairs win).
pub open spec fn to_map<K, V>(s: Seq<(K, V)>) -> Map<K, V>
    decreases s.len(),
{
    if s.len() == 0 {
        Map::empty()
    } else {
        to_map(s.drop_last()).insert(s.last().0, s.last().1)
    }
}

pub proof fn lemma_to_map_dom<K, V>(s: Seq<(K, V)>, k: K)
    ensures
        to_map(s).contains_key(k) <==> exists|i: int| 0 <= i < s.len() && s[i].0 == k,
    decreases s.len(),
{
    if s.len() > 0 {
        lemma_to_map_dom(s.drop_last(), k);
        if to_map(s.drop_last()).contains_key(k) {
            let i = choose|i: int| 0 <= i < s.drop_last().len() && s.drop_last()[i].0 == k;
            assert(s[i].0 == k);
        }
        if exists|i: int| 0 <= i < s.len() && s[i].0 == k {
            let i = choose|i: int| 0 <= i < s.len() && s[i].0 == k;
            if i < s.len() - 1 {
                assert(s.drop_last()[i].0 == k);
            }
        }
    }
}

pub proof fn lemma_to_map_index<K, V>(s: Seq<(K, V)>, i: int)
    requires
        distinct_keys(s),
        0 <= i < s.len(),
    ensures
        to_map(s).contains_key(s[i].0),
        to_map(s)[s[i].0] == s[i].1,
    decreases s.len(),
{
    lemma_to_map_dom(s, s[i].0);
    if i < s.len() - 1 {
        let t = s.drop_last();
        assert(distinct_keys(t)) by {
            assert forall|a: int, b: int| 0 <= a < t.len() && 0 <= b < t.len() && a != b implies #[trigger] t[a].0 != #[trigger] t[b].0 by {
                assert(t[a] == s[a] && t[b] == s[b]);
            }
        }
        assert(t[i] == s[i]);
        lemma_to_map_index(t, i);
        assert(s[s.len() - 1].0 != s[i].0);
    }
}

/// A key absent from the sequence is absent from the map.
pub proof fn lemma_to_map_absent<K, V>(s: Seq<(K, V)>, k: K)
    requires
        forall|i: int| 0 <= i < s.len() ==> s[i].0 != k,
    ensures
        !to_map(s).contains_key(k),
{
    lemma_to_map_dom(s, k);
}

pub proof fn lemma_distinct_push<K, V>(s: Seq<(K, V)>, k: K, v: V)
    requires
        distinct_keys(s),
        !to_map(s).contains_key(k),
    ensures
        distinct_keys(s.push((k, v))),
        to_map(s.push((k, v))) == to_map(s).insert(k, v),
{
    lemma_to_map_dom(s, k);
    let t = s.push((k, v));
    assert(t.drop_last() =~= s);
    assert forall|a: int, b: int| 0 <= a < t.len() && 0 <= b < t.len() && a != b implies #[trigger] t[a].0 != #[trigger] t[b].0 by {
        if a == s.len() {
            assert(s[b].0 != k);
        } else if b == s.len() {
            assert(s[a].0 != k);
        } else {
            assert(t[a] == s[a] && t[b] == s[b]);
        }
    }
}

pub proof fn lemma_distinct_remove<K, V>(s: Seq<(K, V)>, i: int)
    requires
        distinct_keys(s),
        0 <= i < s.len(),
    ensures
        distinct_keys(s.remove(i)),
        to_map(s.remove(i)) == to_map(s).remove(s[i].0),
    decreases s.len(),
{
    let t = s.remove(i);
    assert forall|a: int, b: int| 0 <= a < t.len() && 0 <= b < t.len() && a != b implies #[trigger] t[a].0 != #[trigger] t[b].0 by {
        let sa = if a < i { a } else { a + 1 };
        let sb = if b < i { b } else { b + 1 };
        assert(t[a] == s[sa] && t[b] == s[sb]);
    }
    let k = s[i].0;
    assert forall|x: K| #[trigger] to_map(t).contains_key(x) <==> to_map(s).remove(k).contains_key(x) by {
        lemma_to_map_dom(t, x);
        lemma_to_map_dom(s, x);
        if to_map(t).contains_key(x) {
            let a = choose|a: int| 0 <= a < t.len() && t[a].0 == x;
            let sa = if a < i { a } else { a + 1 };
            assert(t[a] == s[sa]);
        }
        if to_map(s).remove(k).contains_key(x) {
            let a = choose|a: int| 0 <= a < s.len() && s[a].0 == x;
            assert(a != i);
            let ta = if a < i { a } else { a - 1 };
            assert(t[ta] == s[a]);
        }
    }
    assert forall|x: K| #[trigger] to_map(t).contains_key(x) implies to_map(t)[x] == to_map(s).remove(k)[x] by {
        lemma_to_map_dom(t, x);
        let a = choose|a: int| 0 <= a < t.len() && t[a].0 == x;
        let sa = if a < i { a } else { a + 1 };
        assert(t[a] == s[sa]);
        lemma_to_map_index(t, a);
        lemma_to_map_index(s, sa);
    }
    assert(to_map(t) =~= to_map(s).remove(k));
}

pub proof fn lemma_distinct_update<K, V>(s: Seq<(K, V)>, i: int, v: V)
    requires
        distinct_keys(s),
        0 <= i < s.len(),
    ensures
        distinct_keys(s.update(i, (s[i].0, v))),
        to_map(s.update(i, (s[i].0, v))) == to_map(s).insert(s[i].0, v),
{
    let t = s.update(i, (s[i].0, v));
    let k = s[i].0;
    assert forall|a: int, b: int| 0 <= a < t.len() && 0 <= b < t.len() && a != b implies #[trigger] t[a].0 != #[trigger] t[b].0 by {
        assert(t[a].0 == s[a].0 && t[b].0 == s[b].0);
    }
    assert forall|x: K| #[trigger] to_map(t).contains_key(x) <==> to_map(s).insert(k, v).contains_key(x) by {
        lemma_to_map_dom(t, x);
        lemma_to_map_dom(s, x);
        if to_map(t).contains_key(x) {
            let a = choose|a: int| 0 <= a < t.len() && t[a].0 == x;
            assert(t[a].0 == s[a].0);
        }
        if to_map(s).contains_key(x) {
            let a = choose|a: int| 0 <= a < s.len() && s[a].0 == x;
            assert(t[a].0 == s[a].0);
        }
        if x == k {
            assert(t[i].0 == k);
        }
    }
    assert forall|x: K| #[trigger] to_map(t).contains_key(x) implies to_map(t)[x] == to_map(s).insert(k, v)[x] by {
        lemma_to_map_dom(t, x);
        let a = choose|a: int| 0 <= a < t.len() && t[a].0 == x;
        lemma_to_map_index(t, a);
        if a != i {
            assert(t[a] == s[a]);
            lemma_to_map_index(s, a);
        }
    }
    assert(to_map(t) =~= to_map(s).insert(k, v));
}

} // verus!
