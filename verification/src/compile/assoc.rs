use vstd::prelude::*;

verus! {

/// The map of an association list: each entry's key to its value, later entries
/// taking precedence.
pub open spec fn assoc_map<E, K, V>(s: Seq<E>, key: spec_fn(E) -> K, val: spec_fn(E) -> V) -> Map<K, V>
    decreases s.len(),
{
    if s.len() == 0 {
        Map::empty()
    } else {
        assoc_map(s.drop_last(), key, val).insert(key(s.last()), val(s.last()))
    }
}

/// No two entries of the list have the same key.
pub open spec fn keys_unique<E, K>(s: Seq<E>, key: spec_fn(E) -> K) -> bool {
    forall|i: int, j: int| 0 <= i < s.len() && 0 <= j < s.len() && i != j ==> key(s[i]) != key(s[j])
}

/// A key is in the map exactly when some entry has it.
pub proof fn lemma_assoc_dom<E, K, V>(s: Seq<E>, key: spec_fn(E) -> K, val: spec_fn(E) -> V, k: K)
    ensures
        assoc_map(s, key, val).dom().contains(k) <==> exists|i: int| 0 <= i < s.len() && key(s[i]) == k,
    decreases s.len(),
{
    if s.len() > 0 {
        lemma_assoc_dom(s.drop_last(), key, val, k);
        if assoc_map(s, key, val).dom().contains(k) && k != key(s.last()) {
            let i = choose|i: int| 0 <= i < s.drop_last().len() && key(s.drop_last()[i]) == k;
            assert(key(s[i]) == k);
        }
        if exists|i: int| 0 <= i < s.len() && key(s[i]) == k {
            let i = choose|i: int| 0 <= i < s.len() && key(s[i]) == k;
            if i < s.len() - 1 {
                assert(key(s.drop_last()[i]) == k);
            }
        }
    }
}

/// With unique keys, the map gives each entry's value for its key.
pub proof fn lemma_assoc_value<E, K, V>(s: Seq<E>, key: spec_fn(E) -> K, val: spec_fn(E) -> V, i: int)
    requires
        keys_unique(s, key),
        0 <= i < s.len(),
    ensures
        assoc_map(s, key, val).dom().contains(key(s[i])),
        assoc_map(s, key, val)[key(s[i])] == val(s[i]),
    decreases s.len(),
{
    if i < s.len() - 1 {
        assert(keys_unique(s.drop_last(), key));
        lemma_assoc_value(s.drop_last(), key, val, i);
        assert(key(s.last()) != key(s[i]));
    }
}

/// Replacing an entry by one with the same key updates that key in the map.
pub proof fn lemma_assoc_update<E, K, V>(s: Seq<E>, key: spec_fn(E) -> K, val: spec_fn(E) -> V, i: int, e: E)
    requires
        keys_unique(s, key),
        0 <= i < s.len(),
        key(e) == key(s[i]),
    ensures
        keys_unique(s.update(i, e), key),
        assoc_map(s.update(i, e), key, val) == assoc_map(s, key, val).insert(key(e), val(e)),
{
    let t = s.update(i, e);
    assert(keys_unique(t, key)) by {
        assert forall|a: int, b: int| 0 <= a < t.len() && 0 <= b < t.len() && a != b implies key(t[a]) != key(
            t[b],
        ) by {
            assert(key(t[a]) == key(s[a]));
            assert(key(t[b]) == key(s[b]));
        }
    }
    let m1 = assoc_map(t, key, val);
    let m2 = assoc_map(s, key, val).insert(key(e), val(e));
    assert forall|k: K| m1.dom().contains(k) <==> m2.dom().contains(k) by {
        lemma_assoc_dom(t, key, val, k);
        lemma_assoc_dom(s, key, val, k);
        if exists|j: int| 0 <= j < s.len() && key(s[j]) == k {
            let j = choose|j: int| 0 <= j < s.len() && key(s[j]) == k;
            assert(key(t[j]) == k);
        }
        if exists|j: int| 0 <= j < t.len() && key(t[j]) == k {
            let j = choose|j: int| 0 <= j < t.len() && key(t[j]) == k;
            assert(key(s[j]) == k);
        }
    }
    assert forall|k: K| m1.dom().contains(k) implies m1[k] == m2[k] by {
        lemma_assoc_dom(t, key, val, k);
        let j = choose|j: int| 0 <= j < t.len() && key(t[j]) == k;
        lemma_assoc_value(t, key, val, j);
        if j != i {
            lemma_assoc_value(s, key, val, j);
        }
    }
    assert(m1 =~= m2);
}

/// Appending an entry with a new key adds that key to the map.
pub proof fn lemma_assoc_push<E, K, V>(s: Seq<E>, key: spec_fn(E) -> K, val: spec_fn(E) -> V, e: E)
    requires
        keys_unique(s, key),
        !assoc_map(s, key, val).dom().contains(key(e)),
    ensures
        keys_unique(s.push(e), key),
        assoc_map(s.push(e), key, val) == assoc_map(s, key, val).insert(key(e), val(e)),
{
    assert(s.push(e).drop_last() =~= s);
    assert forall|i: int| 0 <= i < s.len() implies key(s[i]) != key(e) by {
        lemma_assoc_dom(s, key, val, key(e));
    }
}

/// With unique keys, the map has one key per entry.
pub proof fn lemma_assoc_len<E, K, V>(s: Seq<E>, key: spec_fn(E) -> K, val: spec_fn(E) -> V)
    requires
        keys_unique(s, key),
    ensures
        assoc_map(s, key, val).dom().finite(),
        assoc_map(s, key, val).dom().len() == s.len(),
    decreases s.len(),
{
    if s.len() > 0 {
        assert(keys_unique(s.drop_last(), key));
        lemma_assoc_len(s.drop_last(), key, val);
        lemma_assoc_dom(s.drop_last(), key, val, key(s.last()));
        if assoc_map(s.drop_last(), key, val).dom().contains(key(s.last())) {
            let i = choose|i: int| 0 <= i < s.drop_last().len() && key(s.drop_last()[i]) == key(s.last());
            assert(key(s[i]) == key(s[s.len() - 1]));
        }
    }
}

/// Lists whose entries agree in key and value give the same map, and have
/// unique keys together.
pub proof fn lemma_assoc_same<E, K, V>(s1: Seq<E>, s2: Seq<E>, key: spec_fn(E) -> K, val: spec_fn(E) -> V)
    requires
        s1.len() == s2.len(),
        forall|j: int| 0 <= j < s1.len() ==> key(#[trigger] s1[j]) == key(s2[j]) && val(s1[j]) == val(s2[j]),
    ensures
        assoc_map(s1, key, val) == assoc_map(s2, key, val),
        keys_unique(s1, key) == keys_unique(s2, key),
    decreases s1.len(),
{
    if s1.len() > 0 {
        assert(key(s1[s1.len() - 1]) == key(s2[s2.len() - 1]));
        lemma_assoc_same(s1.drop_last(), s2.drop_last(), key, val);
    }
    if keys_unique(s2, key) {
        assert forall|i: int, j: int| 0 <= i < s1.len() && 0 <= j < s1.len() && i != j implies key(s1[i]) != key(
            s1[j],
        ) by {
            assert(key(s1[i]) == key(s2[i]));
            assert(key(s1[j]) == key(s2[j]));
        }
    }
    if keys_unique(s1, key) {
        assert forall|i: int, j: int| 0 <= i < s2.len() && 0 <= j < s2.len() && i != j implies key(s2[i]) != key(
            s2[j],
        ) by {
            assert(key(s1[i]) == key(s2[i]));
            assert(key(s1[j]) == key(s2[j]));
        }
    }
}

} // verus!
