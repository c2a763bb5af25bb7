//! The order of strings (`Ord for str`: character by character, a proper prefix
//! first) and strictly sorted lists of distinct strings, as `sort` followed by
//! `dedup` leaves them.

use vstd::prelude::*;

use crate::model::texts;
use crate::text::chars_of;

verus! {

/// `a < b` in the order of `str`: character by character, a proper prefix first.
pub open spec fn seq_lt(a: Seq<char>, b: Seq<char>) -> bool
    decreases a.len(),
{
    if a.len() == 0 {
        b.len() > 0
    } else if b.len() == 0 {
        false
    } else if a[0] != b[0] {
        a[0] < b[0]
    } else {
        seq_lt(a.drop_first(), b.drop_first())
    }
}

/// No string is below itself.
pub proof fn lemma_lt_irreflexive(a: Seq<char>)
    ensures
        !seq_lt(a, a),
    decreases a.len(),
{
    if a.len() > 0 {
        lemma_lt_irreflexive(a.drop_first());
    }
}

/// The order is transitive.
pub proof fn lemma_lt_transitive(a: Seq<char>, b: Seq<char>, c: Seq<char>)
    requires
        seq_lt(a, b),
        seq_lt(b, c),
    ensures
        seq_lt(a, c),
    decreases a.len(),
{
    if a.len() > 0 && b.len() > 0 && c.len() > 0 {
        if a[0] == b[0] && b[0] == c[0] {
            lemma_lt_transitive(a.drop_first(), b.drop_first(), c.drop_first());
        }
    }
}

/// Two different strings are ordered one way or the other.
pub proof fn lemma_lt_total(a: Seq<char>, b: Seq<char>)
    requires
        a != b,
    ensures
        seq_lt(a, b) || seq_lt(b, a),
    decreases a.len(),
{
    if a.len() > 0 && b.len() > 0 {
        if a[0] == b[0] {
            if a.drop_first() == b.drop_first() {
                assert(a =~= seq![a[0]] + a.drop_first());
                assert(b =~= seq![b[0]] + b.drop_first());
            }
            lemma_lt_total(a.drop_first(), b.drop_first());
        }
    } else if a.len() == 0 && b.len() == 0 {
        assert(a =~= b);
    }
}

/// The order is asymmetric.
pub proof fn lemma_lt_asymmetric(a: Seq<char>, b: Seq<char>)
    requires
        seq_lt(a, b),
    ensures
        !seq_lt(b, a),
{
    if seq_lt(b, a) {
        lemma_lt_transitive(a, b, a);
        lemma_lt_irreflexive(a);
    }
}

/// Whether `a < b` (`str` comparison).
pub fn str_lt(a: &str, b: &str) -> (r: bool)
    ensures
        r == seq_lt(a@, b@),
{
    let x = chars_of(a);
    let y = chars_of(b);
    let mut i: usize = 0;
    assert(a@.subrange(0, a@.len() as int) =~= a@);
    assert(b@.subrange(0, b@.len() as int) =~= b@);
    while i < x.len() && i < y.len()
        invariant
            x@ == a@,
            y@ == b@,
            i <= x@.len(),
            i <= y@.len(),
            seq_lt(a@, b@) == seq_lt(a@.subrange(i as int, a@.len() as int), b@.subrange(i as int, b@.len() as int)),
        decreases x@.len() - i,
    {
        let ghost ra = a@.subrange(i as int, a@.len() as int);
        let ghost rb = b@.subrange(i as int, b@.len() as int);
        assert(ra[0] == x@[i as int]);
        assert(rb[0] == y@[i as int]);
        if x[i] != y[i] {
            return x[i] < y[i];
        }
        assert(ra.drop_first() =~= a@.subrange(i + 1, a@.len() as int));
        assert(rb.drop_first() =~= b@.subrange(i + 1, b@.len() as int));
        i = i + 1;
    }
    proof {
        assert(a@.subrange(0, a@.len() as int) =~= a@);
    }
    y.len() > i && x.len() == i
}

/// Every element is below every later one: sorted, without repeats.
pub open spec fn strictly_sorted(s: Seq<Seq<char>>) -> bool {
    forall|i: int, j: int| 0 <= i < j < s.len() ==> seq_lt(#[trigger] s[i], #[trigger] s[j])
}

/// Insert `x` into a strictly sorted list unless it is already there.
pub fn insert_sorted(v: &mut Vec<String>, x: String)
    requires
        strictly_sorted(texts(old(v)@)),
    ensures
        strictly_sorted(texts(final(v)@)),
        forall|y: Seq<char>| texts(final(v)@).contains(y) <==> texts(old(v)@).contains(y) || y == x@,
{
    let ghost s = texts(v@);
    let mut p: usize = 0;
    loop
        invariant
            s == texts(v@),
            strictly_sorted(s),
            p <= v@.len(),
            forall|j: int| 0 <= j < p ==> seq_lt(#[trigger] s[j], x@),
        ensures
            p <= v@.len(),
            forall|j: int| 0 <= j < p ==> seq_lt(#[trigger] s[j], x@),
            p < v@.len() ==> !seq_lt(s[p as int], x@),
        decreases v@.len() - p,
    {
        if p >= v.len() {
            break;
        }
        assert(s[p as int] == v@[p as int]@);
        if !str_lt(v[p].as_str(), x.as_str()) {
            break;
        }
        p = p + 1;
    }
    if p < v.len() {
        assert(s[p as int] == v@[p as int]@);
        if crate::text::same(v[p].as_str(), x.as_str()) {
            assert forall|y: Seq<char>| texts(v@).contains(y) <==> s.contains(y) || y == x@ by {
                if y == x@ {
                    assert(s[p as int] == y);
                }
            }
            return;
        }
    }
    let ghost xv = x@;
    v.insert(p, x);
    proof {
        let t = texts(v@);
        assert(t =~= s.insert(p as int, xv));
        if p < s.len() {
            lemma_lt_total(s[p as int], xv);
        }
        assert forall|i: int, j: int| 0 <= i < j < t.len() implies seq_lt(#[trigger] t[i], #[trigger] t[j]) by {
            if i < p && j < p {
                assert(t[i] == s[i] && t[j] == s[j]);
            } else if i < p && j == p {
            } else if i < p && j > p {
                assert(t[j] == s[j - 1]);
                if j - 1 == p as int {
                    lemma_lt_transitive(s[i], xv, s[j - 1]);
                } else {
                    lemma_lt_transitive(s[i], xv, s[p as int]);
                    lemma_lt_transitive(s[i], s[p as int], s[j - 1]);
                }
            } else if i == p {
                assert(t[j] == s[j - 1]);
                if j - 1 > p {
                    lemma_lt_transitive(xv, s[p as int], s[j - 1]);
                }
            } else {
                assert(t[i] == s[i - 1] && t[j] == s[j - 1]);
            }
        }
        assert forall|y: Seq<char>| t.contains(y) <==> s.contains(y) || y == xv by {
            if t.contains(y) {
                let k = choose|k: int| 0 <= k < t.len() && t[k] == y;
                if k < p {
                    assert(s[k] == y);
                } else if k > p {
                    assert(s[k - 1] == y);
                }
            }
            if s.contains(y) {
                let k = choose|k: int| 0 <= k < s.len() && s[k] == y;
                if k < p {
                    assert(t[k] == y);
                } else {
                    assert(t[k + 1] == y);
                }
            }
            if y == xv {
                assert(t[p as int] == y);
            }
        }
    }
}

/// `items` sorted without repeats (`sort` then `dedup`).
pub fn sort_dedup(items: &Vec<String>) -> (r: Vec<String>)
    ensures
        strictly_sorted(texts(r@)),
        forall|y: Seq<char>| texts(r@).contains(y) <==> texts(items@).contains(y),
{
    let mut out: Vec<String> = Vec::new();
    let mut i: usize = 0;
    while i < items.len()
        invariant
            i <= items@.len(),
            strictly_sorted(texts(out@)),
            forall|y: Seq<char>| texts(out@).contains(y) <==> texts(items@).subrange(0, i as int).contains(y),
        decreases items@.len() - i,
    {
        let ghost before = texts(out@);
        insert_sorted(&mut out, items[i].clone());
        proof {
            let p1 = texts(items@).subrange(0, i + 1);
            let p0 = texts(items@).subrange(0, i as int);
            assert forall|y: Seq<char>| p1.contains(y) <==> p0.contains(y) || y == items@[i as int]@ by {
                if p1.contains(y) {
                    let k = choose|k: int| 0 <= k < p1.len() && p1[k] == y;
                    if k < i {
                        assert(p0[k] == y);
                    }
                }
                if p0.contains(y) {
                    let k = choose|k: int| 0 <= k < p0.len() && p0[k] == y;
                    assert(p1[k] == y);
                }
                if y == items@[i as int]@ {
                    assert(p1[i as int] == y);
                }
            }
        }
        i = i + 1;
    }
    assert(texts(items@).subrange(0, i as int) =~= texts(items@));
    out
}

} // verus!
