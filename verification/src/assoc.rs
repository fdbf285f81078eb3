use vstd::prelude::*;

verus! {

/// The finite map that an association list denotes: each pair `(k, v)`
/// maps the key `k` to the view of `v`, later entries overriding earlier
/// ones (which never happens under `keys_unique`).
pub open spec fn assoc_map<K, V: View>(s: Seq<(K, V)>) -> Map<K, V::V>
    decreases s.len(),
{
    if s.len() == 0 {
        Map::empty()
    } else {
        assoc_map(s.drop_last()).insert(s.last().0, s.last().1@)
    }
}

/// No key occurs twice in the list.
pub open spec fn keys_unique<K, V>(s: Seq<(K, V)>) -> bool {
    forall|i: int, j: int| 0 <= i < j < s.len() ==> s[i].0 != s[j].0
}

/// Some entry of the list carries the key `k`.
pub open spec fn has_key<K, V>(s: Seq<(K, V)>, k: K) -> bool {
    exists|i: int| 0 <= i < s.len() && s[i].0 == k
}

/// The domain of the denoted map is exactly the set of listed keys, and
/// under `keys_unique` each entry's value is the one the map yields.
pub proof fn lemma_assoc_map_index<K, V: View>(s: Seq<(K, V)>)
    ensures
        forall|k: K| #[trigger] assoc_map(s).dom().contains(k) <==> has_key(s, k),
        keys_unique(s) ==> forall|i: int|
            #![auto]
            0 <= i < s.len() ==> assoc_map(s).dom().contains(s[i].0) && assoc_map(s)[s[i].0]
                == s[i].1@,
    decreases s.len(),
{
    if s.len() == 0 {
        assert(forall|k: K| !has_key(s, k));
    } else {
        let s0 = s.drop_last();
        lemma_assoc_map_index(s0);
        assert(assoc_map(s) == assoc_map(s0).insert(s.last().0, s.last().1@));
        assert forall|k: K| #[trigger] assoc_map(s).dom().contains(k) implies has_key(s, k) by {
            if k == s.last().0 {
                assert(s[s.len() - 1].0 == k);
            } else {
                assert(assoc_map(s0).dom().contains(k));
                assert(has_key(s0, k));
                let i = choose|i: int| 0 <= i < s0.len() && s0[i].0 == k;
                assert(s0[i] == s[i]);
                assert(s[i].0 == k);
            }
        }
        assert forall|k: K| has_key(s, k) implies #[trigger] assoc_map(s).dom().contains(k) by {
            let i = choose|i: int| 0 <= i < s.len() && s[i].0 == k;
            if i < s.len() - 1 {
                assert(s0[i].0 == k);
                assert(has_key(s0, k));
            }
        }
        if keys_unique(s) {
            assert(keys_unique(s0));
            assert forall|i: int| 0 <= i < s.len() implies assoc_map(s).dom().contains(
                #[trigger] s[i].0,
            ) && assoc_map(s)[s[i].0] == s[i].1@ by {
                if i < s.len() - 1 {
                    assert(s0[i] == s[i]);
                    assert(s[i].0 != s.last().0);
                }
            }
        }
    }
}

/// Appending an entry denotes inserting it into the map.
pub proof fn lemma_assoc_map_push<K, V: View>(s: Seq<(K, V)>, k: K, v: V)
    ensures
        assoc_map(s.push((k, v))) == assoc_map(s).insert(k, v@),
        keys_unique(s) && !has_key(s, k) ==> keys_unique(s.push((k, v))),
{
    let s1 = s.push((k, v));
    assert(s1.drop_last() =~= s);
    if keys_unique(s) && !has_key(s, k) {
        assert forall|i: int, j: int| 0 <= i < j < s1.len() implies s1[i].0 != s1[j].0 by {
            if j < s.len() {
                assert(s[i].0 != s[j].0);
            } else {
                assert(!(s[i].0 == k));
            }
        }
    }
}

/// Replacing the value of the entry at position `i`, keeping its key,
/// denotes inserting the new value at that key.
pub proof fn lemma_assoc_map_update<K, V: View>(s: Seq<(K, V)>, i: int, v: V)
    requires
        0 <= i < s.len(),
        keys_unique(s),
    ensures
        assoc_map(s.update(i, (s[i].0, v))) == assoc_map(s).insert(s[i].0, v@),
        keys_unique(s.update(i, (s[i].0, v))),
    decreases s.len(),
{
    let k = s[i].0;
    let s1 = s.update(i, (k, v));
    assert forall|a: int, b: int| 0 <= a < b < s1.len() implies s1[a].0 != s1[b].0 by {
        assert(s[a].0 != s[b].0);
    }
    if i == s.len() - 1 {
        assert(s1.drop_last() =~= s.drop_last());
        assert(assoc_map(s1) == assoc_map(s.drop_last()).insert(k, v@));
        assert(assoc_map(s.drop_last()).insert(k, s.last().1@).insert(k, v@) =~= assoc_map(
            s.drop_last(),
        ).insert(k, v@));
    } else {
        let s0 = s.drop_last();
        assert(keys_unique(s0));
        assert(s1.drop_last() =~= s0.update(i, (k, v)));
        assert(s0[i] == s[i]);
        lemma_assoc_map_update(s0, i, v);
        assert(s1.last() == s.last());
        assert(k != s.last().0);
        assert(assoc_map(s0).insert(k, v@).insert(s.last().0, s.last().1@) =~= assoc_map(
            s0,
        ).insert(s.last().0, s.last().1@).insert(k, v@));
    }
}

/// Inserting an entry with a fresh key at any position denotes inserting
/// it into the map.
pub proof fn lemma_assoc_map_insert_at<K, V: View>(s: Seq<(K, V)>, p: int, k: K, v: V)
    requires
        0 <= p <= s.len(),
        !has_key(s, k),
    ensures
        assoc_map(s.insert(p, (k, v))) == assoc_map(s).insert(k, v@),
    decreases s.len(),
{
    let s1 = s.insert(p, (k, v));
    if p == s.len() {
        assert(s1 =~= s.push((k, v)));
        lemma_assoc_map_push(s, k, v);
    } else {
        let s0 = s.drop_last();
        assert forall|i: int| 0 <= i < s0.len() implies s0[i].0 != k by {
            assert(s[i].0 != k);
        }
        assert(!has_key(s0, k));
        lemma_assoc_map_insert_at(s0, p, k, v);
        assert(s1.drop_last() =~= s0.insert(p, (k, v)));
        assert(s1.last() == s.last());
        assert(s[s.len() - 1].0 != k);
        assert(assoc_map(s0).insert(k, v@).insert(s.last().0, s.last().1@) =~= assoc_map(
            s0,
        ).insert(s.last().0, s.last().1@).insert(k, v@));
    }
}

/// Two lists with the same keys and view-equal values denote the same map.
pub proof fn lemma_assoc_map_equiv<K, V: View>(a: Seq<(K, V)>, b: Seq<(K, V)>)
    requires
        a.len() == b.len(),
        forall|i: int| #![auto] 0 <= i < a.len() ==> a[i].0 == b[i].0 && a[i].1@ == b[i].1@,
    ensures
        assoc_map(a) == assoc_map(b),
    decreases a.len(),
{
    if a.len() > 0 {
        lemma_assoc_map_equiv(a.drop_last(), b.drop_last());
        assert(a.last().0 == b.last().0 && a.last().1@ == b.last().1@);
    }
}

} // verus!
