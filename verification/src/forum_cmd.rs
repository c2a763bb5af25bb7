//! The decisions behind `wipe forum ...`: which threads a listing shows, the
//! one-line excerpt of a hit, the search pattern a flag asks for, and which
//! posts a watch reports next.

use vstd::prelude::*;

use crate::error::Error;
use crate::forum::{compile_pattern, matches_spec, regex_compiles, regex_error_text, take, Pattern, PostView, PostViewV, SearchQuery};
use crate::model::{texts, views};
use crate::parse::{lines, lines_spec};
use crate::text::{chars_of, contains_sub, has_infix, is_blank, string_of, trim, trim_spec, unicode_lower};

verus! {

// ---------------------------------------------------------------------------
// Listing threads
// ---------------------------------------------------------------------------

/// Whether root post `p` passes the listing's label and author filters (the
/// author matched as a case-insensitive substring).
pub open spec fn listed_root(p: PostViewV, label: Option<Seq<char>>, author: Option<Seq<char>>) -> bool {
    &&& p.depth == 0
    &&& (label matches Some(l) ==> p.labels.contains(l))
    &&& (author matches Some(a) ==> has_infix(unicode_lower(p.author), unicode_lower(a)))
}

/// The posts of `ps` that the listing shows, in order.
pub open spec fn listed_roots(ps: Seq<PostViewV>, label: Option<Seq<char>>, author: Option<Seq<char>>) -> Seq<PostViewV>
    decreases ps.len(),
{
    if ps.len() == 0 {
        Seq::empty()
    } else {
        let rest = listed_roots(ps.drop_last(), label, author);
        if listed_root(ps.last(), label, author) {
            rest.push(ps.last())
        } else {
            rest
        }
    }
}

/// The thread roots a `wipe forum list` shows: root posts with the label and
/// author asked for, in index order, at most `limit` of them.
pub fn list_roots(all: &Vec<PostView>, label: Option<&str>, author: Option<&str>, limit: Option<usize>) -> (r: Vec<PostView>)
    ensures
        views(r@) == take(
            listed_roots(
                views(all@),
                match label {
                    Some(l) => Some(l@),
                    None => None,
                },
                match author {
                    Some(a) => Some(a@),
                    None => None,
                },
            ),
            limit,
        ),
{
    let ghost lv = match label {
        Some(l) => Some(l@),
        None => None,
    };
    let ghost av = match author {
        Some(a) => Some(a@),
        None => None,
    };
    let ghost pv = views(all@);
    let want = match author {
        Some(a) => Some(crate::text::to_lower(a)),
        None => None,
    };
    let mut out: Vec<PostView> = Vec::new();
    let mut i: usize = 0;
    while i < all.len()
        invariant
            i <= all@.len(),
            pv == views(all@),
            lv == match label {
                Some(l) => Some(l@),
                None => None::<Seq<char>>,
            },
            av == match author {
                Some(a) => Some(a@),
                None => None::<Seq<char>>,
            },
            match want {
                Some(w) => av matches Some(a) && w@ == unicode_lower(a),
                None => av is None,
            },
            views(out@) == listed_roots(pv.subrange(0, i as int), lv, av),
        decreases all@.len() - i,
    {
        let ghost pre = pv.subrange(0, i + 1);
        assert(pre.drop_last() =~= pv.subrange(0, i as int));
        assert(pre.last() == all@[i as int]@);
        let p = &all[i];
        let mut keep = p.depth == 0;
        if keep {
            match label {
                Some(l) => {
                    keep = crate::ops::contains_text(&p.labels, l);
                },
                None => {},
            }
        }
        if keep {
            match &want {
                Some(w) => {
                    let who = crate::text::to_lower(p.author.as_str());
                    keep = contains_sub(who.as_str(), w.as_str());
                },
                None => {},
            }
        }
        if keep {
            let ghost before = views(out@);
            out.push(p.clone());
            assert(views(out@) =~= before.push(pre.last()));
        }
        i = i + 1;
    }
    assert(pv.subrange(0, i as int) =~= pv);
    match limit {
        Some(n) => {
            if n < out.len() {
                out.truncate(n);
                assert(views(out@) =~= listed_roots(pv, lv, av).subrange(0, n as int));
            }
        },
        None => {},
    }
    out
}

// ---------------------------------------------------------------------------
// Excerpts and patterns
// ---------------------------------------------------------------------------

/// The first line of `ls` that is not blank, trimmed (empty when none is).
pub open spec fn first_filled(ls: Seq<Seq<char>>) -> Seq<char>
    decreases ls.len(),
{
    if ls.len() == 0 {
        Seq::empty()
    } else if trim_spec(ls[0]).len() > 0 {
        trim_spec(ls[0])
    } else {
        first_filled(ls.drop_first())
    }
}

/// The excerpt of a search hit: its first non-blank line, trimmed, and cut to 97
/// characters plus `...` when longer than 100.
pub open spec fn excerpt(body: Seq<char>) -> Seq<char> {
    let line = first_filled(lines_spec(body));
    if line.len() > 100 {
        line.subrange(0, 97) + "..."@
    } else {
        line
    }
}

/// The excerpt of a search hit (see [`excerpt`]).
pub fn body_snippet(body: &str) -> (r: String)
    ensures
        r@ == excerpt(body@),
{
    let ls = lines(body);
    let ghost lv = texts(ls@);
    let mut line = String::new();
    let mut i: usize = 0;
    assert(lv.subrange(0, lv.len() as int) =~= lv);
    loop
        invariant
            i <= ls@.len(),
            lv == texts(ls@),
            first_filled(lv) == first_filled(lv.subrange(i as int, lv.len() as int)),
        ensures
            line@ == first_filled(lv),
        decreases ls@.len() - i,
    {
        if i >= ls.len() {
            assert(lv.subrange(i as int, lv.len() as int) =~= Seq::<Seq<char>>::empty());
            line = String::new();
            break;
        }
        let ghost rest = lv.subrange(i as int, lv.len() as int);
        assert(rest[0] == ls@[i as int]@);
        assert(rest.drop_first() =~= lv.subrange(i + 1, lv.len() as int));
        let t = trim(ls[i].as_str());
        if !t.as_str().is_empty() {
            line = t;
            break;
        }
        i = i + 1;
    }
    let cs = chars_of(line.as_str());
    if cs.len() > 100 {
        let head = crate::text::slice_of(&cs, 0, 97);
        let cut = string_of(head.as_slice());
        crate::text::cat(cut.as_str(), "...")
    } else {
        line
    }
}

/// The pattern a search flag asks for: none when absent or blank, else the
/// pattern compiled case-insensitively unless `case_sensitive`.
pub fn search_pattern(pattern: Option<&str>, case_sensitive: bool) -> (r: Result<Option<Pattern>, Error>)
    ensures
        match pattern {
            Some(p) if trim_spec(p@).len() > 0 => if regex_compiles(p@, !case_sensitive) {
                r matches Ok(Some(x)) && x.source() == p@ && x.ci() == !case_sensitive
            } else {
                r matches Err(Error::Message(m)) && m@ == "invalid search pattern: "@ + regex_error_text(p@, !case_sensitive)
            },
            _ => r matches Ok(None),
        },
{
    match pattern {
        Some(p) => {
            if is_blank(p) {
                Ok(None)
            } else {
                match compile_pattern(p, !case_sensitive) {
                    Ok(x) => Ok(Some(x)),
                    Err(e) => Err(e),
                }
            }
        },
        None => Ok(None),
    }
}

// ---------------------------------------------------------------------------
// Watching
// ---------------------------------------------------------------------------

/// The posts of `ps` not among `seen` that match `q`, in order.
pub open spec fn unseen_matching(ps: Seq<PostViewV>, seen: Seq<Seq<char>>, q: SearchQuery) -> Seq<PostViewV>
    decreases ps.len(),
{
    if ps.len() == 0 {
        Seq::empty()
    } else {
        let rest = unseen_matching(ps.drop_last(), seen, q);
        if !seen.contains(ps.last().id) && matches_spec(ps.last(), q) {
            rest.push(ps.last())
        } else {
            rest
        }
    }
}

/// `sorted` (oldest first) with `x` placed after every post no newer than it.
pub open spec fn insert_oldest(sorted: Seq<PostViewV>, x: PostViewV) -> Seq<PostViewV>
    decreases sorted.len(),
{
    if sorted.len() == 0 {
        seq![x]
    } else if sorted[0].created > x.created {
        seq![x] + sorted
    } else {
        seq![sorted[0]] + insert_oldest(sorted.drop_first(), x)
    }
}

/// `s` sorted oldest first, posts of the same instant kept in order.
pub open spec fn sort_oldest(s: Seq<PostViewV>) -> Seq<PostViewV>
    decreases s.len(),
{
    if s.len() == 0 {
        Seq::empty()
    } else {
        insert_oldest(sort_oldest(s.drop_last()), s.last())
    }
}

proof fn lemma_insert_oldest(sorted: Seq<PostViewV>, x: PostViewV, p: int)
    requires
        0 <= p <= sorted.len(),
        forall|j: int| 0 <= j < p ==> (#[trigger] sorted[j]).created <= x.created,
        p < sorted.len() ==> sorted[p].created > x.created,
    ensures
        insert_oldest(sorted, x) == sorted.insert(p, x),
    decreases p,
{
    if p == 0 {
        if sorted.len() == 0 {
            assert(sorted.insert(0, x) =~= seq![x]);
        } else {
            assert(sorted.insert(0, x) =~= seq![x] + sorted);
        }
    } else {
        let t = sorted.drop_first();
        assert forall|j: int| 0 <= j < p - 1 implies (#[trigger] t[j]).created <= x.created by {
            assert(t[j] == sorted[j + 1]);
        }
        if p - 1 < t.len() {
            assert(t[p - 1] == sorted[p]);
        }
        lemma_insert_oldest(t, x, p - 1);
        assert(seq![sorted[0]] + t.insert(p - 1, x) =~= sorted.insert(p, x));
    }
}

/// What a watch reports next: the posts of `all` not yet `seen` that match `q`,
/// oldest first (posts of the same instant in index order). With nothing seen,
/// this is the replay of every match.
pub fn fresh_posts(all: &Vec<PostView>, seen: &Vec<String>, q: &SearchQuery) -> (r: Vec<PostView>)
    ensures
        views(r@) == sort_oldest(unseen_matching(views(all@), texts(seen@), *q)),
{
    let ghost pv = views(all@);
    let ghost sv = texts(seen@);
    let mut picked: Vec<PostView> = Vec::new();
    let mut i: usize = 0;
    while i < all.len()
        invariant
            i <= all@.len(),
            pv == views(all@),
            sv == texts(seen@),
            views(picked@) == unseen_matching(pv.subrange(0, i as int), sv, *q),
        decreases all@.len() - i,
    {
        let ghost pre = pv.subrange(0, i + 1);
        assert(pre.drop_last() =~= pv.subrange(0, i as int));
        assert(pre.last() == all@[i as int]@);
        if !crate::inbox::has_ref(seen, all[i].id.as_str()) && crate::forum::matches(&all[i], q) {
            let ghost before = views(picked@);
            picked.push(all[i].clone());
            assert(views(picked@) =~= before.push(pre.last()));
        }
        i = i + 1;
    }
    assert(pv.subrange(0, i as int) =~= pv);
    let ghost fv = views(picked@);
    let mut sorted: Vec<PostView> = Vec::new();
    let mut k: usize = 0;
    while k < picked.len()
        invariant
            k <= picked@.len(),
            fv == views(picked@),
            views(sorted@) == sort_oldest(fv.subrange(0, k as int)),
        decreases picked@.len() - k,
    {
        assert(fv.subrange(0, k + 1).drop_last() =~= fv.subrange(0, k as int));
        assert(fv[k as int] == picked@[k as int]@);
        let x = picked[k].clone();
        let ghost sv2 = views(sorted@);
        let mut p: usize = 0;
        while p < sorted.len() && sorted[p].created <= x.created
            invariant
                p <= sorted@.len(),
                sv2 == views(sorted@),
                forall|j: int| 0 <= j < p ==> (#[trigger] sv2[j]).created <= x.created,
            decreases sorted@.len() - p,
        {
            assert(sv2[p as int] == sorted@[p as int]@);
            p = p + 1;
        }
        proof {
            if p < sorted@.len() {
                assert(sv2[p as int] == sorted@[p as int]@);
            }
            lemma_insert_oldest(sv2, x@, p as int);
        }
        sorted.insert(p, x);
        assert(views(sorted@) =~= sv2.insert(p as int, fv[k as int]));
        k = k + 1;
    }
    assert(fv.subrange(0, k as int) =~= fv);
    sorted
}

} // verus!
