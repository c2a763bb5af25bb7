//! Sequences of records identified by a string key, read as maps.
//!
//! The store keeps tickets, threads and trash entries in vectors whose keys are
//! pairwise distinct; these definitions and lemmas let contracts speak of such a
//! vector as the map from each key to its record.

use vstd::prelude::*;

verus! {

/// Some element of `s` has key `k`.
pub open spec fn keyed_has<T>(s: Seq<T>, key: spec_fn(T) -> Seq<char>, k: Seq<char>) -> bool {
    exists|i: int| 0 <= i < s.len() && key(s[i]) == k
}

/// The index of an element of `s` with key `k` (meaningful when one exists).
pub open spec fn keyed_index<T>(s: Seq<T>, key: spec_fn(T) -> Seq<char>, k: Seq<char>) -> int {
    choose|i: int| 0 <= i < s.len() && key(s[i]) == k
}

/// The map from each key in `s` to the value of its element.
pub open spec fn keyed_map<T, V>(
    s: Seq<T>,
    key: spec_fn(T) -> Seq<char>,
    val: spec_fn(T) -> V,
) -> Map<Seq<char>, V> {
    Map::new(|k: Seq<char>| keyed_has(s, key, k), |k: Seq<char>| val(s[keyed_index(s, key, k)]))
}

/// No two elements of `s` share a key.
pub open spec fn keys_distinct<T>(s: Seq<T>, key: spec_fn(T) -> Seq<char>) -> bool {
    forall|i: int, j: int| 0 <= i < s.len() && 0 <= j < s.len() && i != j ==> key(s[i]) != key(s[j])
}

/// The keys of `s`, in order.
pub open spec fn keys_of<T>(s: Seq<T>, key: spec_fn(T) -> Seq<char>) -> Seq<Seq<char>> {
    s.map_values(|x: T| key(x))
}

/// The element at `i` is what the map holds for its key.
pub proof fn lemma_keyed_at<T, V>(s: Seq<T>, key: spec_fn(T) -> Seq<char>, val: spec_fn(T) -> V, i: int)
    requires
        keys_distinct(s, key),
        0 <= i < s.len(),
    ensures
        keyed_map(s, key, val).contains_key(key(s[i])),
        keyed_map(s, key, val)[key(s[i])] == val(s[i]),
        keyed_index(s, key, key(s[i])) == i,
{
    assert(keyed_has(s, key, key(s[i])));
    let j = keyed_index(s, key, key(s[i]));
    assert(key(s[j]) == key(s[i]));
}

/// Replacing the element at `i` by one with the same key updates that key.
pub proof fn lemma_keyed_update<T, V>(
    s: Seq<T>,
    key: spec_fn(T) -> Seq<char>,
    val: spec_fn(T) -> V,
    i: int,
    x: T,
)
    requires
        keys_distinct(s, key),
        0 <= i < s.len(),
        key(x) == key(s[i]),
    ensures
        keys_distinct(s.update(i, x), key),
        keyed_map(s.update(i, x), key, val) == keyed_map(s, key, val).insert(key(x), val(x)),
        keys_of(s.update(i, x), key) == keys_of(s, key),
{
    let t = s.update(i, x);
    assert(keys_distinct(t, key)) by {
        assert forall|a: int, b: int| 0 <= a < t.len() && 0 <= b < t.len() && a != b implies key(t[a]) != key(t[b]) by {
            assert(key(t[a]) == key(s[a]));
            assert(key(t[b]) == key(s[b]));
        }
    }
    let m1 = keyed_map(t, key, val);
    let m2 = keyed_map(s, key, val).insert(key(x), val(x));
    assert forall|k: Seq<char>| #[trigger] m1.contains_key(k) <==> m2.contains_key(k) by {
        if keyed_has(s, key, k) {
            let j = keyed_index(s, key, k);
            assert(key(t[j]) == k);
        }
        if keyed_has(t, key, k) {
            let j = keyed_index(t, key, k);
            assert(key(s[j]) == k);
        }
    }
    assert forall|k: Seq<char>| #[trigger] m1.contains_key(k) implies m1[k] == m2[k] by {
        lemma_keyed_at(t, key, val, keyed_index(t, key, k));
        let j = keyed_index(t, key, k);
        if j == i {
        } else {
            lemma_keyed_at(s, key, val, j);
        }
    }
    assert(m1 =~= m2);
    assert(keys_of(t, key) =~= keys_of(s, key));
}

/// Inserting an element with a new key at `i` adds that key.
pub proof fn lemma_keyed_insert<T, V>(
    s: Seq<T>,
    key: spec_fn(T) -> Seq<char>,
    val: spec_fn(T) -> V,
    i: int,
    x: T,
)
    requires
        keys_distinct(s, key),
        0 <= i <= s.len(),
        !keyed_has(s, key, key(x)),
    ensures
        keys_distinct(s.insert(i, x), key),
        keyed_map(s.insert(i, x), key, val) == keyed_map(s, key, val).insert(key(x), val(x)),
        keys_of(s.insert(i, x), key) == keys_of(s, key).insert(i, key(x)),
{
    let t = s.insert(i, x);
    assert forall|a: int| 0 <= a < t.len() implies key(#[trigger] t[a]) == (if a < i {
        key(s[a])
    } else if a == i {
        key(x)
    } else {
        key(s[a - 1])
    }) by {}
    assert(keys_distinct(t, key)) by {
        assert forall|a: int, b: int| 0 <= a < t.len() && 0 <= b < t.len() && a != b implies key(t[a]) != key(t[b]) by {
            if a != i && b != i {
                let sa = if a < i { a } else { a - 1 };
                let sb = if b < i { b } else { b - 1 };
                assert(key(t[a]) == key(s[sa]));
                assert(key(t[b]) == key(s[sb]));
            } else if a == i {
                let sb = if b < i { b } else { b - 1 };
                assert(key(t[b]) == key(s[sb]));
            } else {
                let sa = if a < i { a } else { a - 1 };
                assert(key(t[a]) == key(s[sa]));
            }
        }
    }
    let m1 = keyed_map(t, key, val);
    let m2 = keyed_map(s, key, val).insert(key(x), val(x));
    assert forall|k: Seq<char>| #[trigger] m1.contains_key(k) <==> m2.contains_key(k) by {
        if keyed_has(s, key, k) {
            let j = keyed_index(s, key, k);
            let tj = if j < i { j } else { j + 1 };
            assert(key(t[tj]) == k);
        }
        if k == key(x) {
            assert(key(t[i]) == k);
        }
        if keyed_has(t, key, k) {
            let j = keyed_index(t, key, k);
            if j != i {
                let sj = if j < i { j } else { j - 1 };
                assert(key(s[sj]) == k);
            }
        }
    }
    assert forall|k: Seq<char>| #[trigger] m1.contains_key(k) implies m1[k] == m2[k] by {
        let j = keyed_index(t, key, k);
        lemma_keyed_at(t, key, val, j);
        if j != i {
            let sj = if j < i { j } else { j - 1 };
            lemma_keyed_at(s, key, val, sj);
        }
    }
    assert(m1 =~= m2);
    assert(keys_of(t, key) =~= keys_of(s, key).insert(i, key(x)));
}

/// Removing the element at `i` removes its key.
pub proof fn lemma_keyed_remove<T, V>(
    s: Seq<T>,
    key: spec_fn(T) -> Seq<char>,
    val: spec_fn(T) -> V,
    i: int,
)
    requires
        keys_distinct(s, key),
        0 <= i < s.len(),
    ensures
        keys_distinct(s.remove(i), key),
        keyed_map(s.remove(i), key, val) == keyed_map(s, key, val).remove(key(s[i])),
        keys_of(s.remove(i), key) == keys_of(s, key).remove(i),
{
    let t = s.remove(i);
    assert forall|a: int| 0 <= a < t.len() implies #[trigger] t[a] == (if a < i {
        s[a]
    } else {
        s[a + 1]
    }) by {}
    assert(keys_distinct(t, key)) by {
        assert forall|a: int, b: int| 0 <= a < t.len() && 0 <= b < t.len() && a != b implies key(t[a]) != key(t[b]) by {
            let sa = if a < i { a } else { a + 1 };
            let sb = if b < i { b } else { b + 1 };
            assert(t[a] == s[sa]);
            assert(t[b] == s[sb]);
        }
    }
    let m1 = keyed_map(t, key, val);
    let m2 = keyed_map(s, key, val).remove(key(s[i]));
    assert forall|k: Seq<char>| #[trigger] m1.contains_key(k) <==> m2.contains_key(k) by {
        if keyed_has(s, key, k) && k != key(s[i]) {
            let j = keyed_index(s, key, k);
            assert(j != i);
            let tj = if j < i { j } else { j - 1 };
            assert(t[tj] == s[j]);
        }
        if keyed_has(t, key, k) {
            let j = keyed_index(t, key, k);
            let sj = if j < i { j } else { j + 1 };
            assert(t[j] == s[sj]);
            assert(sj != i);
        }
    }
    assert forall|k: Seq<char>| #[trigger] m1.contains_key(k) implies m1[k] == m2[k] by {
        let j = keyed_index(t, key, k);
        lemma_keyed_at(t, key, val, j);
        let sj = if j < i { j } else { j + 1 };
        assert(t[j] == s[sj]);
        lemma_keyed_at(s, key, val, sj);
    }
    assert(m1 =~= m2);
    assert(keys_of(t, key) =~= keys_of(s, key).remove(i));
}

/// The empty sequence is the empty map.
pub proof fn lemma_keyed_empty<T, V>(key: spec_fn(T) -> Seq<char>, val: spec_fn(T) -> V)
    ensures
        keys_distinct(Seq::<T>::empty(), key),
        keyed_map(Seq::<T>::empty(), key, val) == Map::<Seq<char>, V>::empty(),
{
    assert(keyed_map(Seq::<T>::empty(), key, val) =~= Map::<Seq<char>, V>::empty());
}

/// Growing a prefix of a sequence with distinct keys by one element adds its key.
pub proof fn lemma_keyed_prefix<T, V>(s: Seq<T>, key: spec_fn(T) -> Seq<char>, val: spec_fn(T) -> V, i: int)
    requires
        keys_distinct(s, key),
        0 <= i < s.len(),
    ensures
        keyed_map(s.subrange(0, i + 1), key, val) == keyed_map(s.subrange(0, i), key, val).insert(key(s[i]), val(s[i])),
{
    let pre = s.subrange(0, i);
    assert(keys_distinct(pre, key)) by {
        assert forall|a: int, b: int| 0 <= a < pre.len() && 0 <= b < pre.len() && a != b implies key(pre[a]) != key(pre[b]) by {
            assert(pre[a] == s[a]);
            assert(pre[b] == s[b]);
        }
    }
    assert(!keyed_has(pre, key, key(s[i]))) by {
        if keyed_has(pre, key, key(s[i])) {
            let k = keyed_index(pre, key, key(s[i]));
            assert(pre[k] == s[k]);
        }
    }
    lemma_keyed_insert(pre, key, val, i, s[i]);
    assert(pre.insert(i, s[i]) =~= s.subrange(0, i + 1));
}

/// Two sequences with the same keys and values, element by element, are the same map.
pub proof fn lemma_keyed_same<T, V>(a: Seq<T>, b: Seq<T>, key: spec_fn(T) -> Seq<char>, val: spec_fn(T) -> V)
    requires
        keys_distinct(b, key),
        a.len() == b.len(),
        forall|k: int| 0 <= k < a.len() ==> key(#[trigger] a[k]) == key(b[k]) && val(a[k]) == val(b[k]),
    ensures
        keys_distinct(a, key),
        keyed_map(a, key, val) == keyed_map(b, key, val),
{
    assert(keys_distinct(a, key)) by {
        assert forall|i: int, j: int| 0 <= i < a.len() && 0 <= j < a.len() && i != j implies key(a[i]) != key(a[j]) by {
            assert(key(a[i]) == key(b[i]));
            assert(key(a[j]) == key(b[j]));
        }
    }
    let m1 = keyed_map(a, key, val);
    let m2 = keyed_map(b, key, val);
    assert forall|k: Seq<char>| #[trigger] m1.contains_key(k) <==> m2.contains_key(k) by {
        if keyed_has(a, key, k) {
            let i = keyed_index(a, key, k);
            assert(key(b[i]) == k);
        }
        if keyed_has(b, key, k) {
            let i = keyed_index(b, key, k);
            assert(key(a[i]) == k);
        }
    }
    assert forall|k: Seq<char>| #[trigger] m1.contains_key(k) implies m1[k] == m2[k] by {
        let i = keyed_index(a, key, k);
        lemma_keyed_at(a, key, val, i);
        assert(key(b[i]) == k);
        lemma_keyed_at(b, key, val, i);
    }
    assert(m1 =~= m2);
}

/// The index of the first element of `s` with key `k`, or `-1`.
pub open spec fn first_index<T>(s: Seq<T>, key: spec_fn(T) -> Seq<char>, k: Seq<char>) -> int {
    if keyed_has(s, key, k) {
        choose|i: int| 0 <= i < s.len() && key(s[i]) == k && forall|j: int| 0 <= j < i ==> key(#[trigger] s[j]) != k
    } else {
        -1
    }
}

/// `i` is the first index with key `k`.
pub proof fn lemma_first_index<T>(s: Seq<T>, key: spec_fn(T) -> Seq<char>, k: Seq<char>, i: int)
    requires
        0 <= i < s.len(),
        key(s[i]) == k,
        forall|j: int| 0 <= j < i ==> key(#[trigger] s[j]) != k,
    ensures
        first_index(s, key, k) == i,
{
    let c = choose|c: int| 0 <= c < s.len() && key(s[c]) == k && forall|j: int| 0 <= j < c ==> key(#[trigger] s[j]) != k;
    assert(0 <= i < s.len() && key(s[i]) == k && forall|j: int| 0 <= j < i ==> key(#[trigger] s[j]) != k);
    if c < i {
        assert(key(s[c]) != k);
    } else if c > i {
        assert(key(s[i]) != k);
    }
}

/// When some element has key `k`, `first_index` finds the first of them.
pub proof fn lemma_first_index_found<T>(s: Seq<T>, key: spec_fn(T) -> Seq<char>, k: Seq<char>)
    requires
        keyed_has(s, key, k),
    ensures
        0 <= first_index(s, key, k) < s.len(),
        key(s[first_index(s, key, k)]) == k,
        forall|j: int| 0 <= j < first_index(s, key, k) ==> key(#[trigger] s[j]) != k,
    decreases s.len(),
{
    let t = s.drop_last();
    if keyed_has(t, key, k) {
        lemma_first_index_found(t, key, k);
        let i = first_index(t, key, k);
        assert forall|j: int| 0 <= j < i implies key(#[trigger] s[j]) != k by {
            assert(s[j] == t[j]);
        }
        assert(s[i] == t[i]);
        lemma_first_index(s, key, k, i);
    } else {
        let w = choose|w: int| 0 <= w < s.len() && key(s[w]) == k;
        assert forall|j: int| 0 <= j < s.len() - 1 implies key(#[trigger] s[j]) != k by {
            assert(s[j] == t[j]);
        }
        assert(w == s.len() - 1);
        lemma_first_index(s, key, k, s.len() - 1);
    }
}

/// With no element keyed `k`, the first index is `-1`.
pub proof fn lemma_first_index_none<T>(s: Seq<T>, key: spec_fn(T) -> Seq<char>, k: Seq<char>)
    requires
        forall|j: int| 0 <= j < s.len() ==> key(#[trigger] s[j]) != k,
    ensures
        first_index(s, key, k) == -1,
{
}

/// `s` without the elements whose key is `k`.
pub open spec fn remove_key<T>(s: Seq<T>, key: spec_fn(T) -> Seq<char>, k: Seq<char>) -> Seq<T>
    decreases s.len(),
{
    if s.len() == 0 {
        s
    } else {
        let rest = remove_key(s.drop_last(), key, k);
        if key(s.last()) == k {
            rest
        } else {
            rest.push(s.last())
        }
    }
}

/// Removing nothing leaves the length unchanged; removing something shortens it.
pub proof fn lemma_remove_key_len<T>(s: Seq<T>, key: spec_fn(T) -> Seq<char>, k: Seq<char>)
    ensures
        remove_key(s, key, k).len() <= s.len(),
        remove_key(s, key, k).len() == s.len() <==> forall|j: int| 0 <= j < s.len() ==> key(#[trigger] s[j]) != k,
        (forall|j: int| 0 <= j < s.len() ==> key(#[trigger] s[j]) != k) ==> remove_key(s, key, k) == s,
    decreases s.len(),
{
    if s.len() > 0 {
        lemma_remove_key_len(s.drop_last(), key, k);
        if forall|j: int| 0 <= j < s.len() ==> key(#[trigger] s[j]) != k {
            assert forall|j: int| 0 <= j < s.drop_last().len() implies key(#[trigger] s.drop_last()[j]) != k by {
                assert(s.drop_last()[j] == s[j]);
            }
            assert(s.drop_last().push(s.last()) =~= s);
        }
        if remove_key(s, key, k).len() == s.len() {
            assert forall|j: int| 0 <= j < s.len() implies key(#[trigger] s[j]) != k by {
                if j < s.len() - 1 {
                    assert(s.drop_last()[j] == s[j]);
                }
            }
        }
    }
}

/// The same as [`remove_key`], one element at a time over a prefix.
pub proof fn lemma_remove_key_step<T>(s: Seq<T>, key: spec_fn(T) -> Seq<char>, k: Seq<char>, i: int)
    requires
        0 <= i < s.len(),
    ensures
        remove_key(s.subrange(0, i + 1), key, k) == (if key(s[i]) == k {
            remove_key(s.subrange(0, i), key, k)
        } else {
            remove_key(s.subrange(0, i), key, k).push(s[i])
        }),
{
    assert(s.subrange(0, i + 1).drop_last() =~= s.subrange(0, i));
}

/// A map read from a sequence has finitely many keys, at most one per element.
pub proof fn lemma_keyed_finite<T, V>(s: Seq<T>, key: spec_fn(T) -> Seq<char>, val: spec_fn(T) -> V)
    ensures
        keyed_map(s, key, val).dom().finite(),
        keyed_map(s, key, val).dom().len() <= s.len(),
{
    let ks = keys_of(s, key);
    let d = keyed_map(s, key, val).dom();
    assert(d =~= ks.to_set()) by {
        assert forall|k: Seq<char>| d.contains(k) <==> ks.to_set().contains(k) by {
            if d.contains(k) {
                let i = keyed_index(s, key, k);
                assert(ks[i] == k);
                assert(ks.contains(k));
            }
            if ks.to_set().contains(k) {
                assert(ks.contains(k));
                let i = choose|i: int| 0 <= i < ks.len() && ks[i] == k;
                assert(key(s[i]) == k);
            }
        }
    }
    vstd::seq_lib::seq_to_set_is_finite(ks);
    ks.lemma_cardinality_of_set();
}

/// `s` with each element dropped whose key an earlier element already has.
pub open spec fn first_of_each<T>(s: Seq<T>, key: spec_fn(T) -> Seq<char>) -> Seq<T>
    decreases s.len(),
{
    if s.len() == 0 {
        s
    } else {
        let rest = first_of_each(s.drop_last(), key);
        if keyed_has(s.drop_last(), key, key(s.last())) {
            rest
        } else {
            rest.push(s.last())
        }
    }
}

/// Keeping the first element of each key keeps every key, once; on a sequence
/// whose keys are already distinct it changes nothing.
pub proof fn lemma_first_of_each<T>(s: Seq<T>, key: spec_fn(T) -> Seq<char>)
    ensures
        keys_distinct(first_of_each(s, key), key),
        forall|k: Seq<char>| keyed_has(first_of_each(s, key), key, k) <==> keyed_has(s, key, k),
        keys_distinct(s, key) ==> first_of_each(s, key) == s,
    decreases s.len(),
{
    if s.len() > 0 {
        let t = s.drop_last();
        let x = s.last();
        let r = first_of_each(t, key);
        lemma_first_of_each(t, key);
        assert forall|k: Seq<char>| keyed_has(t, key, k) implies keyed_has(s, key, k) by {
            let w = choose|w: int| 0 <= w < t.len() && key(t[w]) == k;
            assert(s[w] == t[w]);
        }
        assert forall|k: Seq<char>| keyed_has(s, key, k) implies keyed_has(t, key, k) || key(x) == k by {
            let w = choose|w: int| 0 <= w < s.len() && key(s[w]) == k;
            if w < t.len() {
                assert(t[w] == s[w]);
            }
        }
        assert(keyed_has(s, key, key(x))) by {
            assert(key(s[s.len() - 1]) == key(x));
        }
        if keyed_has(t, key, key(x)) {
        } else {
            let r2 = r.push(x);
            assert forall|k: Seq<char>| keyed_has(r2, key, k) <==> keyed_has(s, key, k) by {
                if keyed_has(r2, key, k) {
                    let w = choose|w: int| 0 <= w < r2.len() && key(r2[w]) == k;
                    if w < r.len() {
                        assert(r2[w] == r[w]);
                        assert(keyed_has(r, key, k));
                    }
                }
                if keyed_has(s, key, k) {
                    if key(x) == k {
                        assert(key(r2[r.len() as int]) == k);
                    } else {
                        assert(keyed_has(r, key, k));
                        let w = choose|w: int| 0 <= w < r.len() && key(r[w]) == k;
                        assert(r2[w] == r[w]);
                    }
                }
            }
            assert forall|a: int, b: int| 0 <= a < r2.len() && 0 <= b < r2.len() && a != b implies key(r2[a]) != key(r2[b]) by {
                if a < r.len() && b < r.len() {
                    assert(r2[a] == r[a] && r2[b] == r[b]);
                } else if a < r.len() {
                    assert(r2[a] == r[a]);
                    if key(r[a]) == key(x) {
                        assert(keyed_has(r, key, key(x)));
                    }
                } else if b < r.len() {
                    assert(r2[b] == r[b]);
                    if key(r[b]) == key(x) {
                        assert(keyed_has(r, key, key(x)));
                    }
                }
            }
        }
        if keys_distinct(s, key) {
            assert forall|a: int, b: int| 0 <= a < t.len() && 0 <= b < t.len() && a != b implies key(t[a]) != key(t[b]) by {
                assert(t[a] == s[a] && t[b] == s[b]);
            }
            assert(!keyed_has(t, key, key(x))) by {
                if keyed_has(t, key, key(x)) {
                    let w = choose|w: int| 0 <= w < t.len() && key(t[w]) == key(x);
                    assert(s[w] == t[w]);
                    assert(key(s[w]) == key(s[s.len() - 1]));
                }
            }
            assert(t.push(x) =~= s);
        }
    }
}

} // verus!
