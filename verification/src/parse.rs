//! Splitting text the way `str::split`, `str::split_once`, `str::lines` and
//! `str::split_whitespace` do, with specifications to reason about the pieces.

use vstd::prelude::*;

use crate::model::texts;
use crate::text::{chars_of, is_space, is_space_exec, string_of};

verus! {

/// The pieces of `s` between occurrences of `sep` (`str::split`): one more piece
/// than there are separators, empty pieces included.
pub open spec fn split_spec(s: Seq<char>, sep: char) -> Seq<Seq<char>>
    decreases s.len(),
{
    if s.len() == 0 {
        seq![Seq::empty()]
    } else {
        let rest = split_spec(s.drop_last(), sep);
        if s.last() == sep {
            rest.push(Seq::empty())
        } else {
            rest.update(rest.len() - 1, rest.last().push(s.last()))
        }
    }
}

/// `split_spec` never yields an empty list of pieces.
pub proof fn lemma_split_nonempty(s: Seq<char>, sep: char)
    ensures
        split_spec(s, sep).len() >= 1,
    decreases s.len(),
{
    if s.len() > 0 {
        lemma_split_nonempty(s.drop_last(), sep);
    }
}

/// Split `s` on every `sep` (`str::split`).
pub fn split_char(s: &str, sep: char) -> (r: Vec<String>)
    ensures
        texts(r@) == split_spec(s@, sep),
{
    let cs = chars_of(s);
    let mut done: Vec<String> = Vec::new();
    let mut cur: Vec<char> = Vec::new();
    let mut i: usize = 0;
    while i < cs.len()
        invariant
            cs@ == s@,
            i <= cs@.len(),
            texts(done@).push(cur@) == split_spec(s@.subrange(0, i as int), sep),
        decreases cs@.len() - i,
    {
        proof {
            assert(s@.subrange(0, i + 1).drop_last() =~= s@.subrange(0, i as int));
            lemma_split_nonempty(s@.subrange(0, i as int), sep);
        }
        let ghost before = texts(done@).push(cur@);
        if cs[i] == sep {
            let piece = string_of(cur.as_slice());
            done.push(piece);
            cur = Vec::new();
            assert(texts(done@).push(cur@) =~= before.push(Seq::empty()));
        } else {
            cur.push(cs[i]);
            assert(texts(done@).push(cur@) =~= before.update(before.len() - 1, before.last().push(cs@[i as int])));
        }
        i = i + 1;
    }
    assert(s@.subrange(0, i as int) =~= s@);
    let piece = string_of(cur.as_slice());
    let ghost before = texts(done@);
    done.push(piece);
    assert(texts(done@) =~= before.push(cur@));
    done
}

/// `p` without one trailing `\r`.
pub open spec fn strip_cr(p: Seq<char>) -> Seq<char> {
    if p.len() > 0 && p.last() == '\r' {
        p.drop_last()
    } else {
        p
    }
}

/// `str::lines`: split on `\n`, a `\r` before a `\n` dropped, and no final
/// empty line after a trailing `\n` (so `""` has no lines).
pub open spec fn lines_spec(s: Seq<char>) -> Seq<Seq<char>> {
    let p = split_spec(s, '\n');
    let n = p.len() - 1;
    let head = Seq::new(n as nat, |i: int| strip_cr(p[i]));
    if p[n].len() == 0 {
        head
    } else {
        head.push(p[n])
    }
}

/// The lines of `s` (`str::lines`).
pub fn lines(s: &str) -> (r: Vec<String>)
    ensures
        texts(r@) == lines_spec(s@),
{
    let p = split_char(s, '\n');
    proof {
        lemma_split_nonempty(s@, '\n');
    }
    let n = p.len() - 1;
    let mut out: Vec<String> = Vec::new();
    let mut i: usize = 0;
    while i < n
        invariant
            texts(p@) == split_spec(s@, '\n'),
            n == p@.len() - 1,
            i <= n,
            texts(out@) =~= Seq::new(i as nat, |k: int| strip_cr(split_spec(s@, '\n')[k])),
        decreases n - i,
    {
        let cs = chars_of(p[i].as_str());
        assert(texts(p@)[i as int] == p@[i as int]@);
        let line = if cs.len() > 0 && cs[cs.len() - 1] == '\r' {
            let v = crate::text::slice_of(&cs, 0, cs.len() - 1);
            assert(v@ =~= cs@.drop_last());
            string_of(v.as_slice())
        } else {
            p[i].clone()
        };
        let ghost before = out@;
        out.push(line);
        assert(texts(out@) =~= texts(before).push(line@));
        i = i + 1;
    }
    assert(texts(p@)[n as int] == p@[n as int]@);
    if !p[n].as_str().is_empty() {
        let ghost before = out@;
        out.push(p[n].clone());
        assert(texts(out@) =~= texts(before).push(p@[n as int]@));
    }
    out
}

/// `str::split_once(c)`: the text before and after the first `c`.
pub open spec fn split_once_spec(s: Seq<char>, c: char) -> Option<(Seq<char>, Seq<char>)> {
    if exists|i: int| 0 <= i < s.len() && s[i] == c {
        let i = choose|i: int| 0 <= i < s.len() && s[i] == c && forall|j: int| 0 <= j < i ==> s[j] != c;
        Some((s.subrange(0, i), s.subrange(i + 1, s.len() as int)))
    } else {
        None
    }
}

/// Split `s` at the first `c` (`str::split_once`).
pub fn split_once(s: &str, c: char) -> (r: Option<(String, String)>)
    ensures
        match split_once_spec(s@, c) {
            Some((a, b)) => r matches Some(p) && p.0@ == a && p.1@ == b,
            None => r is None,
        },
{
    let cs = chars_of(s);
    let mut i: usize = 0;
    while i < cs.len()
        invariant
            cs@ == s@,
            i <= cs@.len(),
            forall|j: int| 0 <= j < i ==> cs@[j] != c,
        decreases cs@.len() - i,
    {
        if cs[i] == c {
            proof {
                let k = choose|k: int| 0 <= k < s@.len() && s@[k] == c && forall|j: int| 0 <= j < k ==> s@[j] != c;
                if k < i {
                    assert(cs@[k] != c);
                } else if k > i {
                    assert(s@[i as int] == c);
                }
            }
            let a = crate::text::slice_of(&cs, 0, i);
            let b = crate::text::slice_of(&cs, i + 1, cs.len());
            return Some((string_of(a.as_slice()), string_of(b.as_slice())));
        }
        i = i + 1;
    }
    None
}

/// The maximal runs of non-whitespace characters (`str::split_whitespace`).
pub open spec fn words_spec(s: Seq<char>) -> Seq<Seq<char>>
    decreases s.len(),
{
    words_from(s, Seq::empty())
}

/// The words of `s` when the word being read so far is `cur`.
pub open spec fn words_from(s: Seq<char>, cur: Seq<char>) -> Seq<Seq<char>>
    decreases s.len(),
{
    if s.len() == 0 {
        if cur.len() == 0 {
            Seq::empty()
        } else {
            seq![cur]
        }
    } else if is_space(s[0]) {
        if cur.len() == 0 {
            words_from(s.drop_first(), cur)
        } else {
            seq![cur] + words_from(s.drop_first(), Seq::empty())
        }
    } else {
        words_from(s.drop_first(), cur.push(s[0]))
    }
}

/// The whitespace-separated words of `s` (`str::split_whitespace`).
pub fn words(s: &str) -> (r: Vec<String>)
    ensures
        texts(r@) == words_spec(s@),
{
    let cs = chars_of(s);
    let mut done: Vec<String> = Vec::new();
    let mut cur: Vec<char> = Vec::new();
    assert(s@.subrange(0, s@.len() as int) =~= s@);
    assert(texts(done@) + words_from(s@, cur@) =~= words_from(s@, Seq::empty()));
    let mut i: usize = 0;
    while i < cs.len()
        invariant
            cs@ == s@,
            i <= cs@.len(),
            texts(done@) + words_from(s@.subrange(i as int, s@.len() as int), cur@) == words_spec(s@),
        decreases cs@.len() - i,
    {
        let ghost rest = s@.subrange(i as int, s@.len() as int);
        assert(rest.drop_first() =~= s@.subrange(i + 1, s@.len() as int));
        assert(rest[0] == cs@[i as int]);
        if is_space_exec(cs[i]) {
            if cur.len() > 0 {
                let ghost before = texts(done@);
                let piece = string_of(cur.as_slice());
                done.push(piece);
                assert(texts(done@) =~= before.push(cur@));
                assert(texts(done@) + words_from(rest.drop_first(), Seq::empty()) =~= before + (seq![cur@] + words_from(rest.drop_first(), Seq::empty())));
                cur = Vec::new();
            }
        } else {
            cur.push(cs[i]);
        }
        i = i + 1;
    }
    let ghost before = texts(done@);
    if cur.len() > 0 {
        let piece = string_of(cur.as_slice());
        done.push(piece);
        assert(texts(done@) =~= before.push(cur@));
    }
    assert(s@.subrange(i as int, s@.len() as int) =~= Seq::<char>::empty());
    assert(texts(done@) =~= words_spec(s@));
    done
}

/// All pieces of `s` split on `sep`, each trimmed, blank ones dropped.
pub open spec fn nonblank_trimmed(pieces: Seq<Seq<char>>) -> Seq<Seq<char>>
    decreases pieces.len(),
{
    if pieces.len() == 0 {
        Seq::empty()
    } else {
        let rest = nonblank_trimmed(pieces.drop_last());
        let t = crate::text::trim_spec(pieces.last());
        if t.len() == 0 {
            rest
        } else {
            rest.push(t)
        }
    }
}

/// Trim every piece and drop the blank ones.
pub fn trimmed_nonblank(pieces: &Vec<String>) -> (r: Vec<String>)
    ensures
        texts(r@) == nonblank_trimmed(texts(pieces@)),
{
    let mut out: Vec<String> = Vec::new();
    let mut i: usize = 0;
    while i < pieces.len()
        invariant
            i <= pieces@.len(),
            texts(out@) == nonblank_trimmed(texts(pieces@).subrange(0, i as int)),
        decreases pieces@.len() - i,
    {
        assert(texts(pieces@).subrange(0, i + 1).drop_last() =~= texts(pieces@).subrange(0, i as int));
        let t = crate::text::trim(pieces[i].as_str());
        let ghost before = out@;
        if !t.as_str().is_empty() {
            out.push(t);
            assert(texts(out@) =~= texts(before).push(t@));
        }
        i = i + 1;
    }
    assert(texts(pieces@).subrange(0, i as int) =~= texts(pieces@));
    out
}

} // verus!
