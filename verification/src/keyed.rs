//! Small keyed tables kept as sequences of pairs: the model of the maps the
//! telemetry loop keeps (by connection, by process, by name).
use vstd::prelude::*;

verus! {

/// The value stored under `k`: that of the last pair with key `k`.
pub open spec fn assoc_lookup<K, V>(s: Seq<(K, V)>, k: K) -> Option<V>
    decreases s.len(),
{
    if s.len() == 0 {
        None
    } else if s.last().0 == k {
        Some(s.last().1)
    } else {
        assoc_lookup(s.drop_last(), k)
    }
}

/// No key occurs twice.
pub open spec fn assoc_distinct<K, V>(s: Seq<(K, V)>) -> bool {
    forall|i: int, j: int| 0 <= i < j < s.len() ==> s[i].0 != s[j].0
}

/// The map that the pairs describe.
pub open spec fn assoc_map<K, V>(s: Seq<(K, V)>) -> Map<K, V> {
    Map::new(|k: K| assoc_lookup(s, k) is Some, |k: K| assoc_lookup(s, k)->0)
}

/// Whether some pair has key `k`.
pub open spec fn assoc_has<K, V>(s: Seq<(K, V)>, k: K) -> bool {
    exists|i: int| 0 <= i < s.len() && s[i].0 == k
}

/// A key has a value exactly when some pair carries it.
pub proof fn lemma_assoc_lookup_some<K, V>(s: Seq<(K, V)>, k: K)
    ensures
        assoc_lookup(s, k) is Some <==> assoc_has(s, k),
    decreases s.len(),
{
    if s.len() > 0 {
        let t = s.drop_last();
        lemma_assoc_lookup_some(t, k);
        if assoc_has(t, k) {
            let i = choose|i: int| 0 <= i < t.len() && t[i].0 == k;
            assert(s[i].0 == k);
        }
        if assoc_has(s, k) && s.last().0 != k {
            let i = choose|i: int| 0 <= i < s.len() && s[i].0 == k;
            assert(i < t.len());
            assert(t[i].0 == k);
        }
    }
}

/// Where keys are distinct, the value of a pair's key is that pair's value.
pub proof fn lemma_assoc_lookup_index<K, V>(s: Seq<(K, V)>, i: int)
    requires
        assoc_distinct(s),
        0 <= i < s.len(),
    ensures
        assoc_lookup(s, s[i].0) == Some(s[i].1),
    decreases s.len(),
{
    if i < s.len() - 1 {
        let t = s.drop_last();
        assert(assoc_distinct(t));
        lemma_assoc_lookup_index(t, i);
        assert(s.last().0 != s[i].0);
        assert(t[i] == s[i]);
    }
}

/// Replacing the value of an existing key.
pub proof fn lemma_assoc_update<K, V>(s: Seq<(K, V)>, i: int, v: V)
    requires
        assoc_distinct(s),
        0 <= i < s.len(),
    ensures
        assoc_distinct(s.update(i, (s[i].0, v))),
        assoc_map(s.update(i, (s[i].0, v))) == assoc_map(s).insert(s[i].0, v),
{
    let u = s.update(i, (s[i].0, v));
    assert(assoc_distinct(u)) by {
        assert forall|a: int, b: int| 0 <= a < b < u.len() implies u[a].0 != u[b].0 by {
            assert(u[a].0 == s[a].0);
            assert(u[b].0 == s[b].0);
        }
    }
    assert forall|k: K| #[trigger] assoc_lookup(u, k) == (if k == s[i].0 {
        Some(v)
    } else {
        assoc_lookup(s, k)
    }) by {
        if k == s[i].0 {
            lemma_assoc_lookup_index(u, i);
        } else {
            lemma_assoc_lookup_some(u, k);
            lemma_assoc_lookup_some(s, k);
            if assoc_has(s, k) {
                let j = choose|j: int| 0 <= j < s.len() && s[j].0 == k;
                lemma_assoc_lookup_index(s, j);
                lemma_assoc_lookup_index(u, j);
            }
        }
    }
    assert(assoc_map(u) =~= assoc_map(s).insert(s[i].0, v));
}

/// Adding a pair whose key is new.
pub proof fn lemma_assoc_push<K, V>(s: Seq<(K, V)>, k: K, v: V)
    requires
        assoc_distinct(s),
        !assoc_has(s, k),
    ensures
        assoc_distinct(s.push((k, v))),
        assoc_map(s.push((k, v))) == assoc_map(s).insert(k, v),
{
    let u = s.push((k, v));
    assert(u.drop_last() =~= s);
    assert(assoc_distinct(u)) by {
        assert forall|a: int, b: int| 0 <= a < b < u.len() implies u[a].0 != u[b].0 by {
            if b == s.len() {
                assert(u[a] == s[a]);
            } else {
                assert(u[a] == s[a]);
                assert(u[b] == s[b]);
            }
        }
    }
    assert(assoc_map(u) =~= assoc_map(s).insert(k, v));
}

} // verus!
