//! Association lists: a sequence of key/value pairs with distinct keys,
//! read as a finite map.

use vstd::prelude::*;

verus! {

/// No key occurs twice in `s`.
pub open spec fn keys_distinct<K, V>(s: Seq<(K, V)>) -> bool {
    forall|i: int, j: int|
        0 <= i < s.len() && 0 <= j < s.len() && i != j ==> #[trigger] s[i].0 != #[trigger] s[j].0
}

/// Some pair of `s` has the key `k`.
pub open spec fn has_key<K, V>(s: Seq<(K, V)>, k: K) -> bool {
    exists|i: int| 0 <= i < s.len() && #[trigger] s[i].0 == k
}

/// The map that `s` stands for: each key to the value paired with it.
pub open spec fn assoc_map<K, V>(s: Seq<(K, V)>) -> Map<K, V> {
    Map::new(
        |k: K| has_key(s, k),
        |k: K| s[choose|i: int| 0 <= i < s.len() && #[trigger] s[i].0 == k].1,
    )
}

/// In a list with distinct keys, the pair at `i` is what the map holds for its key.
pub proof fn lemma_assoc_index<K, V>(s: Seq<(K, V)>, i: int)
    requires
        keys_distinct(s),
        0 <= i < s.len(),
    ensures
        assoc_map(s).contains_key(s[i].0),
        assoc_map(s)[s[i].0] == s[i].1,
{
    let k = s[i].0;
    assert(has_key(s, k));
    let j = choose|j: int| 0 <= j < s.len() && #[trigger] s[j].0 == k;
    assert(j == i);
}

/// Appending a fresh key inserts it into the map.
pub proof fn lemma_assoc_push<K, V>(s: Seq<(K, V)>, k: K, v: V)
    requires
        keys_distinct(s),
        !has_key(s, k),
    ensures
        keys_distinct(s.push((k, v))),
        assoc_map(s.push((k, v))) == assoc_map(s).insert(k, v),
{
    let t = s.push((k, v));
    assert forall|i: int, j: int|
        0 <= i < t.len() && 0 <= j < t.len() && i != j implies #[trigger] t[i].0 != #[trigger] t[j].0 by {
        if i < s.len() && j < s.len() {
            assert(s[i].0 != s[j].0);
        } else if i < s.len() {
            assert(s[i].0 != k);
        } else {
            assert(s[j].0 != k);
        }
    }
    let m = assoc_map(s).insert(k, v);
    assert forall|q: K| #[trigger] assoc_map(t).contains_key(q) <==> m.contains_key(q) by {
        if has_key(s, q) {
            let i = choose|i: int| 0 <= i < s.len() && #[trigger] s[i].0 == q;
            assert(t[i].0 == q);
        }
        if has_key(t, q) && q != k {
            let i = choose|i: int| 0 <= i < t.len() && #[trigger] t[i].0 == q;
            assert(i < s.len());
            assert(s[i].0 == q);
        }
        if q == k {
            assert(t[s.len() as int].0 == k);
        }
    }
    assert forall|q: K| #[trigger] assoc_map(t).contains_key(q) implies assoc_map(t)[q] == m[q] by {
        let i = choose|i: int| 0 <= i < t.len() && #[trigger] t[i].0 == q;
        lemma_assoc_index(t, i);
        if i < s.len() {
            assert(t[i] == s[i]);
            lemma_assoc_index(s, i);
        }
    }
    assert(assoc_map(t) =~= m);
}

/// Replacing the value at `i`, keeping its key, updates the map there.
pub proof fn lemma_assoc_update<K, V>(s: Seq<(K, V)>, i: int, v: V)
    requires
        keys_distinct(s),
        0 <= i < s.len(),
    ensures
        keys_distinct(s.update(i, (s[i].0, v))),
        assoc_map(s.update(i, (s[i].0, v))) == assoc_map(s).insert(s[i].0, v),
{
    let t = s.update(i, (s[i].0, v));
    assert forall|a: int, b: int|
        0 <= a < t.len() && 0 <= b < t.len() && a != b implies #[trigger] t[a].0 != #[trigger] t[b].0 by {
        assert(t[a].0 == s[a].0);
        assert(t[b].0 == s[b].0);
    }
    let m = assoc_map(s).insert(s[i].0, v);
    assert forall|q: K| #[trigger] assoc_map(t).contains_key(q) <==> m.contains_key(q) by {
        if has_key(s, q) {
            let a = choose|a: int| 0 <= a < s.len() && #[trigger] s[a].0 == q;
            assert(t[a].0 == q);
        }
        if has_key(t, q) {
            let a = choose|a: int| 0 <= a < t.len() && #[trigger] t[a].0 == q;
            assert(s[a].0 == q);
        }
    }
    assert forall|q: K| #[trigger] assoc_map(t).contains_key(q) implies assoc_map(t)[q] == m[q] by {
        let a = choose|a: int| 0 <= a < t.len() && #[trigger] t[a].0 == q;
        lemma_assoc_index(t, a);
        if a != i {
            assert(t[a] == s[a]);
            lemma_assoc_index(s, a);
        }
    }
    assert(assoc_map(t) =~= m);
}

/// Moving the last pair into slot `i` and dropping the last slot removes
/// the key at `i` from the map.
pub proof fn lemma_assoc_swap_remove<K, V>(s: Seq<(K, V)>, i: int)
    requires
        keys_distinct(s),
        0 <= i < s.len(),
    ensures
        keys_distinct(s.update(i, s.last()).drop_last()),
        assoc_map(s.update(i, s.last()).drop_last()) == assoc_map(s).remove(s[i].0),
{
    let n = s.len() - 1;
    let t = s.update(i, s.last()).drop_last();
    // Each slot of `t` comes from a slot of `s` other than `i`.
    assert forall|a: int| 0 <= a < t.len() implies #[trigger] t[a] == s[if a == i { n } else { a }] by {}
    assert forall|a: int, b: int|
        0 <= a < t.len() && 0 <= b < t.len() && a != b implies #[trigger] t[a].0 != #[trigger] t[b].0 by {
        let sa = if a == i { n } else { a };
        let sb = if b == i { n } else { b };
        assert(t[a] == s[sa]);
        assert(t[b] == s[sb]);
    }
    let m = assoc_map(s).remove(s[i].0);
    assert forall|q: K| #[trigger] assoc_map(t).contains_key(q) <==> m.contains_key(q) by {
        if has_key(t, q) {
            let a = choose|a: int| 0 <= a < t.len() && #[trigger] t[a].0 == q;
            let sa = if a == i { n } else { a };
            assert(t[a] == s[sa]);
            assert(s[sa].0 == q);
            assert(sa != i);
            assert(q != s[i].0);
        }
        if has_key(s, q) && q != s[i].0 {
            let a = choose|a: int| 0 <= a < s.len() && #[trigger] s[a].0 == q;
            assert(a != i);
            if a == n {
                assert(t[i] == s[n]);
                assert(t[i].0 == q);
            } else {
                assert(t[a] == s[a]);
                assert(t[a].0 == q);
            }
        }
    }
    assert forall|q: K| #[trigger] assoc_map(t).contains_key(q) implies assoc_map(t)[q] == m[q] by {
        let a = choose|a: int| 0 <= a < t.len() && #[trigger] t[a].0 == q;
        let sa = if a == i { n } else { a };
        assert(t[a] == s[sa]);
        lemma_assoc_index(t, a);
        lemma_assoc_index(s, sa);
    }
    assert(assoc_map(t) =~= m);
}

/// A key that no pair carries is not in the map.
pub proof fn lemma_assoc_absent<K, V>(s: Seq<(K, V)>, k: K)
    requires
        !has_key(s, k),
    ensures
        !assoc_map(s).contains_key(k),
{
}

} // verus!
