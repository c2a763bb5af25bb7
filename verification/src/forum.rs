//! The project forum: a thread-structured discussion hub beside the board.
//!
//! Where tickets track work, the forum is for everything around it: decisions,
//! discovered rules, gotchas, questions. Any human or agent can post; posts nest
//! into reply trees with dotted IDs (`F-1`, `F-1.2`, `F-1.2.1`); thread IDs are
//! never reused.

use vstd::prelude::*;

use crate::error::Error;
use crate::model::{
    copy_post, lemma_post_views, lemma_post_views_push, post_views, texts, views,
    Attachment, Post, PostV, Thread, ThreadV, Timestamp, FORMAT_VERSION,
};
use crate::store::{valid_thread_id_spec, Store, StoreV};
use crate::text::{cat, cat3, decimal, decimal_string, owned, with_number};

verus! {

// ---------------------------------------------------------------------------
// Post trees
// ---------------------------------------------------------------------------

/// The tree rooted at `p` holds a post with ID `id`.
pub open spec fn has_post(p: PostV, id: Seq<char>) -> bool
    decreases p, 0int,
{
    p.id == id || any_has(p.replies, id)
}

/// Some tree in `s` holds a post with ID `id`.
pub open spec fn any_has(s: Seq<PostV>, id: Seq<char>) -> bool
    decreases s, 1int,
{
    if s.len() == 0 {
        false
    } else {
        has_post(s[0], id) || any_has(s.drop_first(), id)
    }
}

/// The first post with ID `id` in pre-order (meaningful when there is one).
pub open spec fn find_post(p: PostV, id: Seq<char>) -> PostV
    decreases p, 0int,
{
    if p.id == id {
        p
    } else {
        find_first(p.replies, id)
    }
}

/// The first post with ID `id` in the trees of `s`, in order.
pub open spec fn find_first(s: Seq<PostV>, id: Seq<char>) -> PostV
    decreases s, 1int,
{
    if s.len() == 0 {
        arbitrary()
    } else if has_post(s[0], id) {
        find_post(s[0], id)
    } else {
        find_first(s.drop_first(), id)
    }
}

/// The tree with `f` applied to the first post (pre-order) whose ID is `id`.
pub open spec fn update_post(p: PostV, id: Seq<char>, f: spec_fn(PostV) -> PostV) -> PostV
    decreases p, 0int,
{
    if p.id == id {
        f(p)
    } else {
        PostV { replies: update_first(p.replies, id, f), ..p }
    }
}

/// The trees of `s` with `f` applied to the first post whose ID is `id`.
pub open spec fn update_first(s: Seq<PostV>, id: Seq<char>, f: spec_fn(PostV) -> PostV) -> Seq<PostV>
    decreases s, 1int,
{
    if s.len() == 0 {
        s
    } else if has_post(s[0], id) {
        seq![update_post(s[0], id, f)] + s.drop_first()
    } else {
        seq![s[0]] + update_first(s.drop_first(), id, f)
    }
}

/// The tree without the subtree of the first strict descendant (pre-order)
/// whose ID is `id`.
pub open spec fn remove_post(p: PostV, id: Seq<char>) -> PostV
    decreases p, 0int,
{
    PostV { replies: remove_first(p.replies, id), ..p }
}

/// The trees of `s` without the first subtree, in order, whose root is `id`.
pub open spec fn remove_first(s: Seq<PostV>, id: Seq<char>) -> Seq<PostV>
    decreases s, 1int,
{
    if s.len() == 0 {
        s
    } else if s[0].id == id {
        s.drop_first()
    } else if any_has(s[0].replies, id) {
        seq![remove_post(s[0], id)] + s.drop_first()
    } else {
        seq![s[0]] + remove_first(s.drop_first(), id)
    }
}

/// Skipping a prefix of trees that do not hold `id`.
proof fn lemma_skip(s: Seq<PostV>, id: Seq<char>, f: spec_fn(PostV) -> PostV, i: int)
    requires
        0 <= i <= s.len(),
        forall|k: int| 0 <= k < i ==> !has_post(#[trigger] s[k], id),
    ensures
        any_has(s, id) == any_has(s.subrange(i, s.len() as int), id),
        update_first(s, id, f) == s.subrange(0, i) + update_first(s.subrange(i, s.len() as int), id, f),
        any_has(s, id) ==> find_first(s, id) == find_first(s.subrange(i, s.len() as int), id),
    decreases i,
{
    if i == 0 {
        assert(s.subrange(0, s.len() as int) =~= s);
        assert(s.subrange(0, 0) + update_first(s, id, f) =~= update_first(s, id, f));
    } else {
        let t = s.drop_first();
        assert forall|k: int| 0 <= k < i - 1 implies !has_post(#[trigger] t[k], id) by {
            assert(t[k] == s[k + 1]);
        }
        lemma_skip(t, id, f, i - 1);
        assert(t.subrange(i - 1, t.len() as int) =~= s.subrange(i, s.len() as int));
        assert(!has_post(s[0], id));
        assert(seq![s[0]] + (t.subrange(0, i - 1) + update_first(s.subrange(i, s.len() as int), id, f))
            =~= s.subrange(0, i) + update_first(s.subrange(i, s.len() as int), id, f));
    }
}

/// Skipping a prefix of trees whose roots are not `id` and which do not hold it
/// below their roots.
proof fn lemma_skip_remove(s: Seq<PostV>, id: Seq<char>, i: int)
    requires
        0 <= i <= s.len(),
        forall|k: int| 0 <= k < i ==> (#[trigger] s[k]).id != id && !any_has(s[k].replies, id),
    ensures
        remove_first(s, id) == s.subrange(0, i) + remove_first(s.subrange(i, s.len() as int), id),
    decreases i,
{
    if i == 0 {
        assert(s.subrange(0, s.len() as int) =~= s);
        assert(s.subrange(0, 0) + remove_first(s, id) =~= remove_first(s, id));
    } else {
        let t = s.drop_first();
        assert forall|k: int| 0 <= k < i - 1 implies (#[trigger] t[k]).id != id && !any_has(t[k].replies, id) by {
            assert(t[k] == s[k + 1]);
        }
        lemma_skip_remove(t, id, i - 1);
        assert(t.subrange(i - 1, t.len() as int) =~= s.subrange(i, s.len() as int));
        assert(seq![s[0]] + (t.subrange(0, i - 1) + remove_first(s.subrange(i, s.len() as int), id))
            =~= s.subrange(0, i) + remove_first(s.subrange(i, s.len() as int), id));
    }
}

/// The post `f` produces for a new reply: the parent's next counter allocated,
/// and the reply appended.
pub open spec fn child_id(parent: PostV) -> Seq<char> {
    parent.id + seq!['.'] + decimal(parent.next_reply as nat)
}

/// A fresh post.
pub open spec fn new_post_v(
    id: Seq<char>,
    author: Seq<char>,
    body: Seq<char>,
    labels: Seq<Seq<char>>,
    refs: Seq<Seq<char>>,
    attachments: Seq<crate::model::AttachmentV>,
    now: Timestamp,
) -> PostV {
    PostV {
        id: id,
        author: author,
        body: body,
        labels: labels,
        refs: refs,
        attachments: attachments,
        created: now,
        edited: None,
        replies: Seq::empty(),
        next_reply: 1,
    }
}

/// Spec for opening a new thread.
#[derive(Debug)]
pub struct NewThread {
    /// Thread headline.
    pub title: String,
    /// Root message body.
    pub body: String,
    /// Labels (same pool as tickets).
    pub labels: Vec<String>,
    /// Free-form references (ticket IDs, post IDs, URLs).
    pub refs: Vec<String>,
    /// Pre-staged attachments.
    pub attachments: Vec<Attachment>,
}

impl Default for NewThread {
    fn default() -> (n: Self)
        ensures
            n.title@.len() == 0 && n.body@.len() == 0 && n.labels@.len() == 0 && n.refs@.len() == 0
                && n.attachments@.len() == 0,
    {
        NewThread { title: String::new(), body: String::new(), labels: Vec::new(), refs: Vec::new(), attachments: Vec::new() }
    }
}

/// Spec for replying to a post.
#[derive(Debug)]
pub struct NewReply {
    /// Reply body.
    pub body: String,
    /// Labels.
    pub labels: Vec<String>,
    /// References.
    pub refs: Vec<String>,
    /// Pre-staged attachments.
    pub attachments: Vec<Attachment>,
}

impl Default for NewReply {
    fn default() -> (n: Self)
        ensures
            n.body@.len() == 0 && n.labels@.len() == 0 && n.refs@.len() == 0 && n.attachments@.len() == 0,
    {
        NewReply { body: String::new(), labels: Vec::new(), refs: Vec::new(), attachments: Vec::new() }
    }
}

/// What replying under `parent` does to it.
pub open spec fn add_reply(parent: PostV, spec: NewReply, author: Seq<char>, now: Timestamp) -> PostV {
    PostV {
        next_reply: (parent.next_reply + 1) as u64,
        replies: parent.replies.push(new_post_v(
            child_id(parent),
            author,
            spec.body@,
            texts(spec.labels@),
            texts(spec.refs@),
            views(spec.attachments@),
            now,
        )),
        ..parent
    }
}

/// The reply closure for [`update_post`].
pub open spec fn reply_f(spec: NewReply, author: Seq<char>, now: Timestamp) -> spec_fn(PostV) -> PostV {
    |q: PostV| add_reply(q, spec, author, now)
}

/// The edit closure for [`update_post`].
pub open spec fn edit_f(body: Seq<char>, now: Timestamp) -> spec_fn(PostV) -> PostV {
    |q: PostV| PostV { body: body, edited: Some(now), ..q }
}

/// A post built from owned parts.
fn make_post(id: String, author: &str, body: &str, labels: Vec<String>, refs: Vec<String>, attachments: Vec<Attachment>, now: Timestamp) -> (p: Post)
    ensures
        p@ == new_post_v(id@, author@, body@, texts(labels@), texts(refs@), views(attachments@), now),
{
    let p = Post {
        id,
        author: owned(author),
        body: owned(body),
        labels,
        refs,
        attachments,
        created: now,
        edited: None,
        replies: Vec::new(),
        next_reply: 1,
    };
    assert(post_views(p.replies@) =~= Seq::empty());
    p
}

/// A copy of `p` with `replies[i]` replaced by `c`.
fn with_child(p: &Post, i: usize, c: Post) -> (q: Post)
    requires
        i < p.replies@.len(),
    ensures
        q@ == (PostV { replies: p@.replies.update(i as int, c@), ..p@ }),
{
    let mut q = copy_post(p);
    proof {
        lemma_post_views(q.replies@);
        lemma_post_views(p.replies@);
        assert(q.replies@.len() == p.replies@.len());
    }
    let ghost before = q.replies@;
    q.replies.set(i, c);
    proof {
        lemma_post_views(q.replies@);
        lemma_post_views(before);
        assert(post_views(q.replies@) =~= post_views(before).update(i as int, c@));
    }
    q
}

/// The tree `p` with a reply added under the first post `id`, and the reply's ID.
fn with_reply(p: &Post, id: &str, spec: &NewReply, author: &str, now: Timestamp) -> (r: Option<(Post, String)>)
    requires
        has_post(p@, id@) ==> find_post(p@, id@).next_reply < u64::MAX,
    ensures
        has_post(p@, id@) ==> (r matches Some(x) && x.0@ == update_post(p@, id@, reply_f(*spec, author@, now))
            && x.1@ == child_id(find_post(p@, id@))),
        !has_post(p@, id@) ==> r is None,
    decreases p,
{
    proof {
        lemma_post_views(p.replies@);
    }
    if crate::text::same(p.id.as_str(), id) {
        let cid = cat3(p.id.as_str(), ".", decimal_string(p.next_reply).as_str());
        proof {
            reveal_strlit(".");
        }
        let child = make_post(
            cid.clone(),
            author,
            spec.body.as_str(),
            crate::model::clone_strings(&spec.labels),
            crate::model::clone_strings(&spec.refs),
            crate::model::clone_exact(&spec.attachments),
            now,
        );
        let mut q = copy_post(p);
        q.next_reply = p.next_reply + 1;
        let ghost before = q.replies@;
        q.replies.push(child);
        proof {
            lemma_post_views_push(before, child);
            assert(cid@ == child_id(p@));
            assert(child@ == new_post_v(child_id(p@), author@, spec.body@, texts(spec.labels@), texts(spec.refs@), views(spec.attachments@), now));
            assert(post_views(q.replies@) == p@.replies.push(child@));
        }
        assert(q@ == add_reply(p@, *spec, author@, now));
        return Some((q, cid));
    }
    let ghost s = p@.replies;
    let mut i: usize = 0;
    while i < p.replies.len()
        invariant
            s == p@.replies,
            s == post_views(p.replies@),
            s.len() == p.replies@.len(),
            i <= s.len(),
            p.id@ != id@,
            has_post(p@, id@) ==> find_post(p@, id@).next_reply < u64::MAX,
            forall|k: int| 0 <= k < i ==> !has_post(#[trigger] s[k], id@),
        decreases s.len() - i,
    {
        proof {
            assert(decreases_to!(p => p.replies));
            lemma_post_views(p.replies@);
            assert(s[i as int] == p.replies@[i as int]@);
            if has_post(s[i as int], id@) {
                lemma_skip(s, id@, reply_f(*spec, author@, now), i as int);
                assert(s.subrange(i as int, s.len() as int)[0] == s[i as int]);
            }
        }
        match with_reply(&p.replies[i], id, spec, author, now) {
            Some((c, cid)) => {
                let q = with_child(p, i as usize, c);
                proof {
                    lemma_skip(s, id@, reply_f(*spec, author@, now), i as int);
                    let rest = s.subrange(i as int, s.len() as int);
                    assert(rest[0] == s[i as int]);
                    assert(rest.drop_first() =~= s.subrange(i + 1, s.len() as int));
                    assert(s.update(i as int, c@) =~= s.subrange(0, i as int) + (seq![c@] + rest.drop_first()));
                }
                return Some((q, cid));
            },
            None => {},
        }
        i = i + 1;
    }
    proof {
        lemma_skip(s, id@, reply_f(*spec, author@, now), i as int);
        assert(s.subrange(i as int, s.len() as int).len() == 0);
    }
    None
}

/// The tree `p` with the first post `id` edited, if there is one.
fn with_edit(p: &Post, id: &str, body: &str, now: Timestamp) -> (r: Option<Post>)
    ensures
        has_post(p@, id@) ==> (r matches Some(x) && x@ == update_post(p@, id@, edit_f(body@, now))),
        !has_post(p@, id@) ==> r is None,
    decreases p,
{
    proof {
        lemma_post_views(p.replies@);
    }
    if crate::text::same(p.id.as_str(), id) {
        let mut q = copy_post(p);
        q.body = owned(body);
        q.edited = Some(now);
        return Some(q);
    }
    let ghost s = p@.replies;
    let mut i: usize = 0;
    while i < p.replies.len()
        invariant
            s == p@.replies,
            s == post_views(p.replies@),
            s.len() == p.replies@.len(),
            i <= s.len(),
            p.id@ != id@,
            forall|k: int| 0 <= k < i ==> !has_post(#[trigger] s[k], id@),
        decreases s.len() - i,
    {
        proof {
            assert(decreases_to!(p => p.replies));
            lemma_post_views(p.replies@);
            assert(s[i as int] == p.replies@[i as int]@);
        }
        match with_edit(&p.replies[i], id, body, now) {
            Some(c) => {
                let q = with_child(p, i as usize, c);
                proof {
                    lemma_skip(s, id@, edit_f(body@, now), i as int);
                    let rest = s.subrange(i as int, s.len() as int);
                    assert(rest[0] == s[i as int]);
                    assert(rest.drop_first() =~= s.subrange(i + 1, s.len() as int));
                    assert(s.update(i as int, c@) =~= s.subrange(0, i as int) + (seq![c@] + rest.drop_first()));
                }
                return Some(q);
            },
            None => {},
        }
        i = i + 1;
    }
    proof {
        lemma_skip(s, id@, edit_f(body@, now), i as int);
        assert(s.subrange(i as int, s.len() as int).len() == 0);
    }
    None
}

/// The first post (pre-order) of the tree `p` whose ID is `id`, if any.
pub fn find_in<'a>(p: &'a Post, id: &str) -> (r: Option<&'a Post>)
    ensures
        has_post(p@, id@) ==> (r matches Some(x) && x@ == find_post(p@, id@)),
        !has_post(p@, id@) ==> r is None,
    decreases p,
{
    proof {
        lemma_post_views(p.replies@);
    }
    if crate::text::same(p.id.as_str(), id) {
        return Some(p);
    }
    let ghost s = p@.replies;
    let mut i: usize = 0;
    while i < p.replies.len()
        invariant
            s == p@.replies,
            s == post_views(p.replies@),
            s.len() == p.replies@.len(),
            i <= s.len(),
            p.id@ != id@,
            forall|k: int| 0 <= k < i ==> !has_post(#[trigger] s[k], id@),
        decreases s.len() - i,
    {
        proof {
            assert(decreases_to!(p => p.replies));
            lemma_post_views(p.replies@);
            assert(s[i as int] == p.replies@[i as int]@);
        }
        match find_in(&p.replies[i], id) {
            Some(c) => {
                proof {
                    lemma_skip(s, id@, edit_f(""@, 0), i as int);
                    let rest = s.subrange(i as int, s.len() as int);
                    assert(rest[0] == s[i as int]);
                }
                return Some(c);
            },
            None => {},
        }
        i = i + 1;
    }
    proof {
        lemma_skip(s, id@, edit_f(""@, 0), i as int);
        assert(s.subrange(i as int, s.len() as int).len() == 0);
    }
    None
}

/// The tree `p` without the subtree of its first strict descendant `id`, if any.
fn without_post(p: &Post, id: &str) -> (r: Option<Post>)
    ensures
        any_has(p@.replies, id@) ==> (r matches Some(x) && x@ == remove_post(p@, id@)),
        !any_has(p@.replies, id@) ==> r is None,
    decreases p,
{
    proof {
        lemma_post_views(p.replies@);
    }
    let ghost s = p@.replies;
    let mut i: usize = 0;
    while i < p.replies.len()
        invariant
            s == p@.replies,
            s == post_views(p.replies@),
            s.len() == p.replies@.len(),
            i <= s.len(),
            forall|k: int| 0 <= k < i ==> (#[trigger] s[k]).id != id@ && !any_has(s[k].replies, id@),
        decreases s.len() - i,
    {
        proof {
            assert(decreases_to!(p => p.replies));
            lemma_post_views(p.replies@);
            assert(s[i as int] == p.replies@[i as int]@);
            lemma_skip_remove(s, id@, i as int);
            let rest = s.subrange(i as int, s.len() as int);
            assert(rest[0] == s[i as int]);
            assert(rest.drop_first() =~= s.subrange(i + 1, s.len() as int));
        }
        if crate::text::same(p.replies[i].id.as_str(), id) {
            let mut q = copy_post(p);
            proof {
                lemma_post_views(q.replies@);
            }
            let ghost before = q.replies@;
            q.replies.remove(i);
            proof {
                lemma_post_views(q.replies@);
                lemma_post_views(before);
                assert(post_views(q.replies@) =~= post_views(before).remove(i as int));
                assert(s.remove(i as int) =~= s.subrange(0, i as int) + s.subrange(i + 1, s.len() as int));
                assert(any_has(s, id@)) by {
                    lemma_skip(s, id@, edit_f(Seq::empty(), 0), i as int);
                    assert(has_post(s[i as int], id@));
                }
            }
            return Some(q);
        }
        match without_post(&p.replies[i], id) {
            Some(c) => {
                let q = with_child(p, i as usize, c);
                proof {
                    assert(s.update(i as int, c@) =~= s.subrange(0, i as int) + (seq![c@] + s.subrange(i + 1, s.len() as int)));
                    lemma_skip(s, id@, edit_f(Seq::empty(), 0), i as int);
                    assert(has_post(s[i as int], id@));
                }
                return Some(q);
            },
            None => {},
        }
        i = i + 1;
    }
    proof {
        lemma_skip_remove(s, id@, i as int);
        assert forall|k: int| 0 <= k < i implies !has_post(#[trigger] s[k], id@) by {}
        lemma_skip(s, id@, edit_f(Seq::empty(), 0), i as int);
        assert(s.subrange(i as int, s.len() as int).len() == 0);
    }
    None
}

// ---------------------------------------------------------------------------
// Threads
// ---------------------------------------------------------------------------

/// The thread a post belongs to: the part of its ID before the first `.`.
pub open spec fn thread_of_spec(post_id: Seq<char>) -> Seq<char> {
    match crate::parse::split_once_spec(post_id, '.') {
        Some((head, _tail)) => head,
        None => post_id,
    }
}

/// The thread ID that owns a post ID (`F-1.2.3` -> `F-1`).
pub fn thread_of(post_id: &str) -> (r: String)
    ensures
        r@ == thread_of_spec(post_id@),
{
    match crate::parse::split_once(post_id, '.') {
        Some((head, _tail)) => head,
        None => owned(post_id),
    }
}

/// `F-<n>`.
pub open spec fn thread_id_spec(n: nat) -> Seq<char> {
    seq!['F', '-'] + decimal(n)
}

/// The counter of the first thread ID, from `start` on, with no thread.
pub open spec fn fresh_thread_counter(threads: Map<Seq<char>, ThreadV>, start: nat) -> nat {
    choose|n: nat| n >= start && !threads.contains_key(thread_id_spec(n)) && forall|m: nat|
        start <= m < n ==> threads.contains_key(#[trigger] thread_id_spec(m))
}

proof fn lemma_thread_ids_bound(threads: Map<Seq<char>, ThreadV>, start: int, n: int)
    requires
        0 <= start <= n,
        threads.dom().finite(),
        forall|m: nat| start <= m < n ==> threads.contains_key(#[trigger] thread_id_spec(m)),
    ensures
        n - start <= threads.dom().len(),
{
    let r = vstd::set_lib::set_int_range(start, n);
    vstd::set_lib::lemma_int_range(start, n);
    let f = |m: int| thread_id_spec(m as nat);
    assert(vstd::relations::injective_on(f, r)) by {
        assert forall|a: int, b: int| r.contains(a) && r.contains(b) && #[trigger] f(a) == #[trigger] f(b) implies a == b by {
            assert(f(a).subrange(2, f(a).len() as int) =~= decimal(a as nat));
            assert(f(b).subrange(2, f(b).len() as int) =~= decimal(b as nat));
            crate::text::lemma_decimal_injective(a as nat, b as nat);
        }
    }
    let y = r.map(f);
    vstd::set_lib::lemma_map_size(r, y, f);
    assert(y.subset_of(threads.dom())) by {
        assert forall|x: Seq<char>| y.contains(x) implies threads.dom().contains(x) by {
            let m = choose|m: int| r.contains(m) && f(m) == x;
            assert(threads.contains_key(thread_id_spec(m as nat)));
        }
    }
    vstd::set_lib::lemma_len_subset(y, threads.dom());
}

proof fn lemma_fresh_thread(threads: Map<Seq<char>, ThreadV>, start: nat, n: nat)
    requires
        n >= start,
        !threads.contains_key(thread_id_spec(n)),
        forall|m: nat| start <= m < n ==> threads.contains_key(#[trigger] thread_id_spec(m)),
    ensures
        fresh_thread_counter(threads, start) == n,
{
    let c = fresh_thread_counter(threads, start);
    assert(n >= start && !threads.contains_key(thread_id_spec(n)) && forall|m: nat|
        start <= m < n ==> threads.contains_key(#[trigger] thread_id_spec(m)));
    if c < n {
        assert(threads.contains_key(thread_id_spec(c)));
    } else if c > n {
        assert(threads.contains_key(thread_id_spec(n)));
    }
}

/// The thread [`create_thread`] opens as `F-<n>`.
pub open spec fn new_thread_v(spec: NewThread, n: nat, author: Seq<char>, now: Timestamp) -> ThreadV {
    ThreadV {
        version: FORMAT_VERSION,
        id: thread_id_spec(n),
        title: spec.title@,
        root: new_post_v(thread_id_spec(n), author, spec.body@, texts(spec.labels@), texts(spec.refs@), views(spec.attachments@), now),
        created: now,
        updated: now,
    }
}

/// Open a new thread with a root post. Its ID is `F-<n>` for the board's next
/// thread counter, skipping past any thread that already exists, so an ID is
/// never reused; the counter moves past it. Returns the created thread.
pub fn create_thread(store: &mut Store, spec: NewThread, author: &str, now: Timestamp) -> (r: Thread)
    requires
        old(store).wf(),
        old(store)@.board.next_thread + old(store)@.threads.len() < u64::MAX,
    ensures
        final(store).wf(),
        ({
            let s = old(store)@;
            let n = fresh_thread_counter(s.threads, s.board.next_thread as nat);
            &&& !s.threads.contains_key(thread_id_spec(n))
            &&& r@ == new_thread_v(spec, n, author@, now)
            &&& final(store)@ == (StoreV {
                board: crate::model::BoardV { next_thread: (n + 1) as u64, ..s.board },
                threads: s.threads.insert(thread_id_spec(n), r@),
                ..s
            })
        }),
{
    let mut board = store.load_board();
    let ghost s0 = store@;
    let start = board.next_thread;
    proof {
        store.lemma_ids_valid();
        store.lemma_finite();
    }
    let mut n = start;
    proof {
        reveal_strlit("F-");
        assert("F-"@ =~= seq!['F', '-']);
    }
    let mut id = with_number("F-", n);
    while store.thread_exists(id.as_str())
        invariant
            "F-"@ == seq!['F', '-'],
            store@ == s0,
            store.wf(),
            s0.threads.dom().finite(),
            start == s0.board.next_thread,
            start + s0.threads.len() < u64::MAX,
            start <= n,
            id@ == thread_id_spec(n as nat),
            forall|m: nat| start <= m < n ==> s0.threads.contains_key(#[trigger] thread_id_spec(m)),
        decreases start + s0.threads.len() - n,
    {
        proof {
            assert forall|m: nat| start <= m < n + 1 implies s0.threads.contains_key(#[trigger] thread_id_spec(m)) by {
                if m == n {
                }
            }
            lemma_thread_ids_bound(s0.threads, start as int, n + 1);
        }
        n = n + 1;
        id = with_number("F-", n);
    }
    proof {
        lemma_fresh_thread(s0.threads, start as nat, n as nat);
        lemma_thread_ids_bound(s0.threads, start as int, n as int);
    }
    board.next_thread = n + 1;
    let NewThread { title, body, labels, refs, attachments } = spec;
    let root = make_post(id.clone(), author, body.as_str(), labels, refs, attachments, now);
    let thread = Thread { version: FORMAT_VERSION, id, title, root, created: now, updated: now };
    store.save_board(&board);
    proof {
        crate::forum::lemma_thread_id_valid(n as nat);
    }
    let _ = store.save_thread(&thread);
    thread
}

/// Thread IDs are `F-` and a decimal counter, which is a well-formed ID.
pub proof fn lemma_thread_id_valid(n: nat)
    ensures
        valid_thread_id_spec(thread_id_spec(n)),
{
    crate::text::lemma_decimal_digits(n);
    let id = thread_id_spec(n);
    assert(id.subrange(2, id.len() as int) =~= decimal(n));
}

/// Load a whole thread by thread ID (or by the ID of any post in it).
pub fn get_thread(store: &Store, thread_id: &str) -> (r: Result<Thread, Error>)
    requires
        store.wf(),
    ensures
        ({
            let tid = thread_of_spec(thread_id@);
            if store@.threads.contains_key(tid) {
                r matches Ok(t) && t@ == store@.threads[tid]
            } else {
                r matches Err(Error::ThreadNotFound(x)) && x@ == tid
            }
        }),
{
    let tid = thread_of(thread_id);
    store.load_thread(tid.as_str())
}

/// Reply to an existing post (at any depth). The reply's ID is the parent's ID
/// and the parent's next reply counter (`F-1.2` -> `F-1.2.1`). Returns it.
pub fn reply(store: &mut Store, parent_id: &str, spec: NewReply, author: &str, now: Timestamp) -> (r: Result<String, Error>)
    requires
        old(store).wf(),
        ({
            let tid = thread_of_spec(parent_id@);
            old(store)@.threads.contains_key(tid) && has_post(old(store)@.threads[tid].root, parent_id@)
                ==> find_post(old(store)@.threads[tid].root, parent_id@).next_reply < u64::MAX
        }),
    ensures
        final(store).wf(),
        ({
            let s = old(store)@;
            let tid = thread_of_spec(parent_id@);
            if !s.threads.contains_key(tid) {
                r matches Err(Error::ThreadNotFound(x)) && x@ == tid && final(store)@ == s
            } else if !has_post(s.threads[tid].root, parent_id@) {
                r matches Err(Error::PostNotFound(x)) && x@ == parent_id@ && final(store)@ == s
            } else {
                let t = s.threads[tid];
                r matches Ok(cid) && cid@ == child_id(find_post(t.root, parent_id@)) && final(store)@ == (StoreV {
                    threads: s.threads.insert(tid, ThreadV {
                        root: update_post(t.root, parent_id@, reply_f(spec, author@, now)),
                        updated: now,
                        ..t
                    }),
                    ..s
                })
            }
        }),
{
    let tid = thread_of(parent_id);
    let mut thread = match store.load_thread(tid.as_str()) {
        Ok(t) => t,
        Err(e) => return Err(e),
    };
    let (root, cid) = match with_reply(&thread.root, parent_id, &spec, author, now) {
        Some(x) => x,
        None => return Err(Error::PostNotFound(owned(parent_id))),
    };
    thread.root = root;
    thread.updated = now;
    proof {
        store.lemma_ids_valid();
    }
    let _ = store.save_thread(&thread);
    Ok(cid)
}

/// Edit a post's body, stamping it edited.
pub fn edit_post(store: &mut Store, id: &str, body: &str, now: Timestamp) -> (r: Result<(), Error>)
    requires
        old(store).wf(),
    ensures
        final(store).wf(),
        ({
            let s = old(store)@;
            let tid = thread_of_spec(id@);
            if !s.threads.contains_key(tid) {
                r matches Err(Error::ThreadNotFound(x)) && x@ == tid && final(store)@ == s
            } else if !has_post(s.threads[tid].root, id@) {
                r matches Err(Error::PostNotFound(x)) && x@ == id@ && final(store)@ == s
            } else {
                let t = s.threads[tid];
                r is Ok && final(store)@ == (StoreV {
                    threads: s.threads.insert(tid, ThreadV {
                        root: update_post(t.root, id@, edit_f(body@, now)),
                        updated: now,
                        ..t
                    }),
                    ..s
                })
            }
        }),
{
    let tid = thread_of(id);
    let mut thread = match store.load_thread(tid.as_str()) {
        Ok(t) => t,
        Err(e) => return Err(e),
    };
    let root = match with_edit(&thread.root, id, body, now) {
        Some(x) => x,
        None => return Err(Error::PostNotFound(owned(id))),
    };
    thread.root = root;
    thread.updated = now;
    proof {
        store.lemma_ids_valid();
    }
    let _ = store.save_thread(&thread);
    Ok(())
}

/// Delete a post and its entire subtree. Deleting a thread's root removes the
/// whole thread.
pub fn delete_post(store: &mut Store, id: &str, now: Timestamp) -> (r: Result<(), Error>)
    requires
        old(store).wf(),
    ensures
        final(store).wf(),
        ({
            let s = old(store)@;
            let tid = thread_of_spec(id@);
            if !s.threads.contains_key(tid) {
                r matches Err(Error::ThreadNotFound(x)) && x@ == tid && final(store)@ == s
            } else if id@ == tid {
                r is Ok && final(store)@ == (StoreV { threads: s.threads.remove(tid), ..s })
            } else if !any_has(s.threads[tid].root.replies, id@) {
                r matches Err(Error::PostNotFound(x)) && x@ == id@ && final(store)@ == s
            } else {
                let t = s.threads[tid];
                r is Ok && final(store)@ == (StoreV {
                    threads: s.threads.insert(tid, ThreadV { root: remove_post(t.root, id@), updated: now, ..t }),
                    ..s
                })
            }
        }),
{
    let tid = thread_of(id);
    if crate::text::same(id, tid.as_str()) {
        return store.delete_thread(tid.as_str());
    }
    let mut thread = match store.load_thread(tid.as_str()) {
        Ok(t) => t,
        Err(e) => return Err(e),
    };
    let root = match without_post(&thread.root, id) {
        Some(x) => x,
        None => return Err(Error::PostNotFound(owned(id))),
    };
    thread.root = root;
    thread.updated = now;
    proof {
        store.lemma_ids_valid();
    }
    let _ = store.save_thread(&thread);
    Ok(())
}

// ---------------------------------------------------------------------------
// The flattened forum
// ---------------------------------------------------------------------------

/// A single post flattened out of its tree, with context for search, list and watch.
#[derive(Debug)]
pub struct PostView {
    /// Dotted post ID.
    pub id: String,
    /// Owning thread ID.
    pub thread_id: String,
    /// Owning thread title.
    pub thread_title: String,
    /// Author identity.
    pub author: String,
    /// Message body.
    pub body: String,
    /// Labels on this post.
    pub labels: Vec<String>,
    /// References on this post.
    pub refs: Vec<String>,
    /// Depth in the tree (root = 0).
    pub depth: usize,
    /// Number of direct replies.
    pub replies: usize,
    /// Number of attachments.
    pub attachments: usize,
    /// Created timestamp.
    pub created: Timestamp,
    /// Edited timestamp, if any.
    pub edited: Option<Timestamp>,
}

/// The value of a [`PostView`].
pub struct PostViewV {
    pub id: Seq<char>,
    pub thread_id: Seq<char>,
    pub thread_title: Seq<char>,
    pub author: Seq<char>,
    pub body: Seq<char>,
    pub labels: Seq<Seq<char>>,
    pub refs: Seq<Seq<char>>,
    pub depth: nat,
    pub replies: nat,
    pub attachments: nat,
    pub created: Timestamp,
    pub edited: Option<Timestamp>,
}

impl View for PostView {
    type V = PostViewV;

    open spec fn view(&self) -> PostViewV {
        PostViewV {
            id: self.id@,
            thread_id: self.thread_id@,
            thread_title: self.thread_title@,
            author: self.author@,
            body: self.body@,
            labels: texts(self.labels@),
            refs: texts(self.refs@),
            depth: self.depth as nat,
            replies: self.replies as nat,
            attachments: self.attachments as nat,
            created: self.created,
            edited: self.edited,
        }
    }
}

impl Clone for PostView {
    fn clone(&self) -> (r: Self)
        ensures
            r@ == self@,
    {
        PostView {
            id: self.id.clone(),
            thread_id: self.thread_id.clone(),
            thread_title: self.thread_title.clone(),
            author: self.author.clone(),
            body: self.body.clone(),
            labels: crate::model::clone_strings(&self.labels),
            refs: crate::model::clone_strings(&self.refs),
            depth: self.depth,
            replies: self.replies,
            attachments: self.attachments,
            created: self.created,
            edited: self.edited,
        }
    }
}

/// The height of a post tree (a lone post has height 0).
pub open spec fn height(p: PostV) -> nat
    decreases p, 0int,
{
    let h = heights(p.replies);
    if p.replies.len() == 0 { 0 } else { h + 1 }
}

/// The greatest height among trees.
pub open spec fn heights(s: Seq<PostV>) -> nat
    decreases s, 1int,
{
    if s.len() == 0 {
        0
    } else {
        let a = height(s[0]);
        let b = heights(s.drop_first());
        if a > b { a } else { b }
    }
}

/// One post's flattened view.
pub open spec fn view_of(p: PostV, tid: Seq<char>, title: Seq<char>, depth: nat) -> PostViewV {
    PostViewV {
        id: p.id,
        thread_id: tid,
        thread_title: title,
        author: p.author,
        body: p.body,
        labels: p.labels,
        refs: p.refs,
        depth: depth,
        replies: p.replies.len(),
        attachments: p.attachments.len(),
        created: p.created,
        edited: p.edited,
    }
}

/// The posts of a tree in pre-order, each with its depth.
pub open spec fn flat_post(p: PostV, tid: Seq<char>, title: Seq<char>, depth: nat) -> Seq<PostViewV>
    decreases p, 0int,
{
    seq![view_of(p, tid, title, depth)] + flat_seq(p.replies, tid, title, depth + 1)
}

/// The posts of a sequence of trees, tree after tree.
pub open spec fn flat_seq(s: Seq<PostV>, tid: Seq<char>, title: Seq<char>, depth: nat) -> Seq<PostViewV>
    decreases s, 1int,
{
    if s.len() == 0 {
        Seq::empty()
    } else {
        flat_post(s[0], tid, title, depth) + flat_seq(s.drop_first(), tid, title, depth)
    }
}

proof fn lemma_heights(s: Seq<PostV>, i: int)
    requires
        0 <= i < s.len(),
    ensures
        height(s[i]) <= heights(s),
    decreases i,
{
    if i > 0 {
        lemma_heights(s.drop_first(), i - 1);
        assert(s.drop_first()[i - 1] == s[i]);
    }
}

proof fn lemma_flat_seq_step(s: Seq<PostV>, tid: Seq<char>, title: Seq<char>, depth: nat, i: int)
    requires
        0 <= i < s.len(),
    ensures
        flat_seq(s.subrange(0, i + 1), tid, title, depth) == flat_seq(s.subrange(0, i), tid, title, depth)
            + flat_post(s[i], tid, title, depth),
    decreases i,
{
    let a = s.subrange(0, i + 1);
    let b = s.subrange(0, i);
    if i == 0 {
        assert(a.drop_first() =~= Seq::<PostV>::empty());
        assert(b =~= Seq::<PostV>::empty());
        assert(flat_seq(a, tid, title, depth) =~= flat_post(s[0], tid, title, depth));
    } else {
        lemma_flat_seq_step(s.drop_first(), tid, title, depth, i - 1);
        assert(a.drop_first() =~= s.drop_first().subrange(0, i));
        assert(b.drop_first() =~= s.drop_first().subrange(0, i - 1));
        assert(s.drop_first()[i - 1] == s[i]);
        assert(flat_seq(a, tid, title, depth) =~= flat_seq(b, tid, title, depth) + flat_post(s[i], tid, title, depth));
    }
}

fn flatten_into(p: &Post, tid: &str, title: &str, depth: usize, out: &mut Vec<PostView>)
    requires
        depth + height(p@) <= usize::MAX,
    ensures
        views(final(out)@) == views(old(out)@) + flat_post(p@, tid@, title@, depth as nat),
    decreases p,
{
    proof {
        lemma_post_views(p.replies@);
    }
    let v = PostView {
        id: p.id.clone(),
        thread_id: owned(tid),
        thread_title: owned(title),
        author: p.author.clone(),
        body: p.body.clone(),
        labels: crate::model::clone_strings(&p.labels),
        refs: crate::model::clone_strings(&p.refs),
        depth,
        replies: p.replies.len(),
        attachments: p.attachments.len(),
        created: p.created,
        edited: p.edited,
    };
    let ghost before = out@;
    out.push(v);
    assert(views(out@) =~= views(before).push(v@));
    assert(v@ == view_of(p@, tid@, title@, depth as nat));
    let ghost mid = views(out@);
    let ghost s = p@.replies;
    if p.replies.len() == 0 {
        assert(flat_seq(s, tid@, title@, depth as nat + 1) =~= Seq::empty());
        assert(views(out@) =~= views(before) + flat_post(p@, tid@, title@, depth as nat));
        return;
    }
    let mut i: usize = 0;
    while i < p.replies.len()
        invariant
            s == p@.replies,
            s == post_views(p.replies@),
            s.len() == p.replies@.len(),
            s.len() > 0,
            i <= s.len(),
            depth + height(p@) <= usize::MAX,
            views(out@) == mid + flat_seq(s.subrange(0, i as int), tid@, title@, depth as nat + 1),
        decreases s.len() - i,
    {
        proof {
            assert(decreases_to!(p => p.replies));
            lemma_post_views(p.replies@);
            assert(s[i as int] == p.replies@[i as int]@);
            lemma_heights(s, i as int);
            lemma_flat_seq_step(s, tid@, title@, depth as nat + 1, i as int);
        }
        flatten_into(&p.replies[i], tid, title, depth + 1, out);
        assert(views(out@) =~= mid + flat_seq(s.subrange(0, i + 1), tid@, title@, depth as nat + 1));
        i = i + 1;
    }
    assert(s.subrange(0, i as int) =~= s);
    assert(views(out@) =~= views(before) + flat_post(p@, tid@, title@, depth as nat));
}

/// A thread's posts, flattened in pre-order with their depths.
pub fn flatten(thread: &Thread) -> (r: Vec<PostView>)
    requires
        height(thread@.root) <= usize::MAX,
    ensures
        views(r@) == flat_post(thread@.root, thread@.id, thread@.title, 0),
{
    let mut out: Vec<PostView> = Vec::new();
    flatten_into(&thread.root, thread.id.as_str(), thread.title.as_str(), 0, &mut out);
    assert(views(out@) =~= flat_post(thread@.root, thread@.id, thread@.title, 0));
    out
}

/// `sorted` (newest first) with `x` placed after every post at least as new:
/// the insertion step of a stable newest-first sort.
pub open spec fn insert_newest(sorted: Seq<PostViewV>, x: PostViewV) -> Seq<PostViewV>
    decreases sorted.len(),
{
    if sorted.len() == 0 {
        seq![x]
    } else if sorted[0].created < x.created {
        seq![x] + sorted
    } else {
        seq![sorted[0]] + insert_newest(sorted.drop_first(), x)
    }
}

/// `s` sorted newest first, posts created at the same instant kept in order.
pub open spec fn sort_newest(s: Seq<PostViewV>) -> Seq<PostViewV>
    decreases s.len(),
{
    if s.len() == 0 {
        Seq::empty()
    } else {
        insert_newest(sort_newest(s.drop_last()), s.last())
    }
}

proof fn lemma_insert_newest(sorted: Seq<PostViewV>, x: PostViewV, p: int)
    requires
        0 <= p <= sorted.len(),
        forall|j: int| 0 <= j < p ==> (#[trigger] sorted[j]).created >= x.created,
        p < sorted.len() ==> sorted[p].created < x.created,
    ensures
        insert_newest(sorted, x) == sorted.insert(p, x),
    decreases p,
{
    if p == 0 {
        if sorted.len() == 0 {
            assert(sorted.insert(0, x) =~= seq![x]);
        } else {
            assert(sorted.insert(0, x) =~= seq![x] + sorted);
        }
    } else {
        let t = sorted.drop_first();
        assert forall|j: int| 0 <= j < p - 1 implies (#[trigger] t[j]).created >= x.created by {
            assert(t[j] == sorted[j + 1]);
        }
        if p - 1 < t.len() {
            assert(t[p - 1] == sorted[p]);
        }
        lemma_insert_newest(t, x, p - 1);
        assert(seq![sorted[0]] + t.insert(p - 1, x) =~= sorted.insert(p, x));
    }
}

/// Inserting keeps every post and adds `x`.
pub(crate) proof fn lemma_insert_newest_has(sorted: Seq<PostViewV>, x: PostViewV)
    ensures
        insert_newest(sorted, x).contains(x),
        forall|y: PostViewV| sorted.contains(y) ==> insert_newest(sorted, x).contains(y),
    decreases sorted.len(),
{
    let r = insert_newest(sorted, x);
    if sorted.len() == 0 {
        assert(r[0] == x);
    } else if sorted[0].created < x.created {
        assert(r[0] == x);
        assert forall|y: PostViewV| sorted.contains(y) implies r.contains(y) by {
            let k = choose|k: int| 0 <= k < sorted.len() && sorted[k] == y;
            assert(r[k + 1] == sorted[k]);
        }
    } else {
        let t = sorted.drop_first();
        lemma_insert_newest_has(t, x);
        let rt = insert_newest(t, x);
        assert(r == seq![sorted[0]] + rt);
        let kx = choose|k: int| 0 <= k < rt.len() && rt[k] == x;
        assert(r[kx + 1] == x);
        assert forall|y: PostViewV| sorted.contains(y) implies r.contains(y) by {
            let k = choose|k: int| 0 <= k < sorted.len() && sorted[k] == y;
            if k == 0 {
                assert(r[0] == y);
            } else {
                assert(t[k - 1] == y);
                assert(t.contains(y));
                let m = choose|m: int| 0 <= m < rt.len() && rt[m] == y;
                assert(r[m + 1] == y);
            }
        }
    }
}

/// Sorting newest first keeps every post.
pub(crate) proof fn lemma_sort_newest_has(s: Seq<PostViewV>)
    ensures
        forall|y: PostViewV| s.contains(y) ==> sort_newest(s).contains(y),
    decreases s.len(),
{
    if s.len() > 0 {
        let t = s.drop_last();
        lemma_sort_newest_has(t);
        lemma_insert_newest_has(sort_newest(t), s.last());
        assert forall|y: PostViewV| s.contains(y) implies sort_newest(s).contains(y) by {
            let k = choose|k: int| 0 <= k < s.len() && s[k] == y;
            if k < t.len() {
                assert(t[k] == y);
                assert(t.contains(y));
            }
        }
    }
}

proof fn lemma_insert_newest_from(sorted: Seq<PostViewV>, x: PostViewV)
    ensures
        insert_newest(sorted, x).len() == sorted.len() + 1,
        forall|k: int| 0 <= k < insert_newest(sorted, x).len() ==> #[trigger] insert_newest(sorted, x)[k] == x
            || sorted.contains(insert_newest(sorted, x)[k]),
    decreases sorted.len(),
{
    let r = insert_newest(sorted, x);
    if sorted.len() == 0 {
    } else if sorted[0].created < x.created {
        assert forall|k: int| 0 <= k < r.len() implies #[trigger] r[k] == x || sorted.contains(r[k]) by {
            if k > 0 {
                assert(r[k] == sorted[k - 1]);
            }
        }
    } else {
        let t = sorted.drop_first();
        lemma_insert_newest_from(t, x);
        let rt = insert_newest(t, x);
        assert(r == seq![sorted[0]] + rt);
        assert forall|k: int| 0 <= k < r.len() implies #[trigger] r[k] == x || sorted.contains(r[k]) by {
            if k == 0 {
                assert(r[0] == sorted[0]);
            } else {
                assert(r[k] == rt[k - 1]);
                if rt[k - 1] != x {
                    let m = choose|m: int| 0 <= m < t.len() && t[m] == rt[k - 1];
                    assert(sorted[m + 1] == t[m]);
                }
            }
        }
    }
}

/// Sorting newest first adds no post.
pub(crate) proof fn lemma_sort_newest_from(s: Seq<PostViewV>)
    ensures
        forall|y: PostViewV| sort_newest(s).contains(y) ==> s.contains(y),
    decreases s.len(),
{
    if s.len() > 0 {
        let t = s.drop_last();
        lemma_sort_newest_from(t);
        lemma_insert_newest_from(sort_newest(t), s.last());
        assert forall|y: PostViewV| sort_newest(s).contains(y) implies s.contains(y) by {
            let k = choose|k: int| 0 <= k < sort_newest(s).len() && sort_newest(s)[k] == y;
            if y == s.last() {
                assert(s[s.len() - 1] == y);
            } else {
                assert(sort_newest(t).contains(y));
                assert(t.contains(y));
                let w = choose|w: int| 0 <= w < t.len() && t[w] == y;
                assert(s[w] == y);
            }
        }
    }
}

/// Sort flattened posts newest first, keeping posts of the same instant in order.
pub fn sort_posts(posts: Vec<PostView>) -> (r: Vec<PostView>)
    ensures
        views(r@) == sort_newest(views(posts@)),
{
    let ghost pv = views(posts@);
    let mut sorted: Vec<PostView> = Vec::new();
    let mut i: usize = 0;
    while i < posts.len()
        invariant
            i <= posts@.len(),
            pv == views(posts@),
            views(sorted@) == sort_newest(pv.subrange(0, i as int)),
        decreases posts@.len() - i,
    {
        assert(pv.subrange(0, i + 1).drop_last() =~= pv.subrange(0, i as int));
        assert(pv[i as int] == posts@[i as int]@);
        let x = posts[i].clone();
        let ghost sv = views(sorted@);
        let mut p: usize = 0;
        loop
            invariant
                p <= sorted@.len(),
                sv == views(sorted@),
                forall|j: int| 0 <= j < p ==> (#[trigger] sv[j]).created >= x.created,
            ensures
                p <= sorted@.len(),
                forall|j: int| 0 <= j < p ==> (#[trigger] sv[j]).created >= x.created,
                p < sorted@.len() ==> sv[p as int].created < x.created,
            decreases sorted@.len() - p,
        {
            if p >= sorted.len() {
                break;
            }
            assert(sv[p as int] == sorted@[p as int]@);
            if sorted[p].created < x.created {
                break;
            }
            p = p + 1;
        }
        proof {
            lemma_insert_newest(sv, x@, p as int);
        }
        sorted.insert(p, x);
        assert(views(sorted@) =~= sv.insert(p as int, x@));
        i = i + 1;
    }
    assert(pv.subrange(0, i as int) =~= pv);
    sorted
}

/// Every thread's posts, thread after thread.
pub open spec fn flat_threads(ts: Seq<ThreadV>) -> Seq<PostViewV>
    decreases ts.len(),
{
    if ts.len() == 0 {
        Seq::empty()
    } else {
        flat_threads(ts.drop_last()) + flat_post(ts.last().root, ts.last().id, ts.last().title, 0)
    }
}

/// `ts` lists the threads of `m`, each once, ordered by ID counter.
pub open spec fn threads_in_order(ts: Seq<ThreadV>, m: Map<Seq<char>, ThreadV>) -> bool {
    &&& crate::store::lists_keys(ts.map_values(|t: ThreadV| t.id), m)
    &&& forall|i: int| 0 <= i < ts.len() ==> m[(#[trigger] ts[i]).id] == ts[i]
}

/// Every thread's posts are at most `usize::MAX` deep.
pub open spec fn shallow(m: Map<Seq<char>, ThreadV>) -> bool {
    forall|id: Seq<char>| #[trigger] m.contains_key(id) ==> height(m[id].root) <= usize::MAX
}

/// Every post across the forum, flattened, newest first (posts of the same
/// instant in thread order, then pre-order).
pub fn index(store: &Store) -> (r: Vec<PostView>)
    requires
        store.wf(),
        shallow(store@.threads),
    ensures
        exists|ts: Seq<ThreadV>| threads_in_order(ts, store@.threads) && views(r@) == sort_newest(flat_threads(ts)),
{
    let threads = store.load_all_threads();
    let ghost ts = threads@.map_values(|t: Thread| t@);
    assert(threads_in_order(ts, store@.threads)) by {
        assert(ts.map_values(|t: ThreadV| t.id) =~= threads@.map_values(|t: Thread| t.id@));
        assert forall|i: int| 0 <= i < ts.len() implies store@.threads[(#[trigger] ts[i]).id] == ts[i] by {
            assert(ts[i] == threads@[i]@);
        }
    }
    let mut posts: Vec<PostView> = Vec::new();
    let mut i: usize = 0;
    while i < threads.len()
        invariant
            i <= threads@.len(),
            ts == threads@.map_values(|t: Thread| t@),
            threads_in_order(ts, store@.threads),
            shallow(store@.threads),
            views(posts@) == flat_threads(ts.subrange(0, i as int)),
        decreases threads@.len() - i,
    {
        assert(ts.subrange(0, i + 1).drop_last() =~= ts.subrange(0, i as int));
        assert(ts[i as int] == threads@[i as int]@);
        assert(store@.threads.contains_key(ts[i as int].id)) by {
            let ids = ts.map_values(|t: ThreadV| t.id);
            assert(ids[i as int] == ts[i as int].id);
            assert(ids.contains(ts[i as int].id));
        }
        let flat = flatten(&threads[i]);
        let ghost before = views(posts@);
        let mut k: usize = 0;
        while k < flat.len()
            invariant
                k <= flat@.len(),
                views(posts@) == before + views(flat@).subrange(0, k as int),
            decreases flat@.len() - k,
        {
            let c = flat[k].clone();
            let ghost mid = views(posts@);
            posts.push(c);
            assert(views(flat@)[k as int] == flat@[k as int]@);
            assert(views(posts@) =~= mid.push(c@));
            assert(views(posts@) =~= before + views(flat@).subrange(0, k + 1));
            k = k + 1;
        }
        assert(views(flat@).subrange(0, k as int) =~= views(flat@));
        i = i + 1;
    }
    assert(ts.subrange(0, i as int) =~= ts);
    sort_posts(posts)
}

// ---------------------------------------------------------------------------
// Search
// ---------------------------------------------------------------------------

#[verifier::external_type_specification]
#[verifier::external_body]
pub struct ExRegex(regex::Regex);

/// Whether `pat` compiles as a multi-line regex (case-insensitive when `ci`).
pub uninterp spec fn regex_compiles(pat: Seq<char>, ci: bool) -> bool;

/// The message `regex` gives for a pattern that does not compile.
pub uninterp spec fn regex_error_text(pat: Seq<char>, ci: bool) -> Seq<char>;

/// Whether the multi-line regex `pat` (case-insensitive when `ci`) matches
/// somewhere in `text`.
pub uninterp spec fn regex_is_match(pat: Seq<char>, ci: bool, text: Seq<char>) -> bool;

/// `regex::RegexBuilder::new(pat).case_insensitive(ci).multi_line(true).build()`,
/// its error rendered with `Display`. Whether it compiles and the error text are
/// functions of the pattern and flag.
#[verifier::external_body]
fn build_regex(pat: &str, ci: bool) -> (r: Result<regex::Regex, String>)
    ensures
        r is Ok == regex_compiles(pat@, ci),
        r matches Err(m) ==> m@ == regex_error_text(pat@, ci),
{
    match regex::RegexBuilder::new(pat).case_insensitive(ci).multi_line(true).build() {
        Ok(re) => Ok(re),
        Err(e) => Err(e.to_string()),
    }
}

/// A compiled search pattern, with the source and flag it was built from.
#[derive(Debug)]
pub struct Pattern {
    re: regex::Regex,
    source: String,
    case_insensitive: bool,
}

impl Pattern {
    /// The pattern's source text.
    pub closed spec fn source(&self) -> Seq<char> {
        self.source@
    }

    /// Whether it ignores case.
    pub closed spec fn ci(&self) -> bool {
        self.case_insensitive
    }
}

/// `regex::Regex::is_match` on a compiled pattern: whether it matches somewhere
/// in `text` (a function of the pattern's source, flag and the text).
#[verifier::external_body]
fn pattern_matches(p: &Pattern, text: &str) -> (r: bool)
    ensures
        r == regex_is_match(p.source(), p.ci(), text@),
{
    p.re.is_match(text)
}

/// Compile a search pattern. `case_insensitive` adds the `i` flag; multi-line
/// mode is on so `^`/`$` anchor to each line of a post body.
pub fn compile_pattern(pat: &str, case_insensitive: bool) -> (r: Result<Pattern, Error>)
    ensures
        regex_compiles(pat@, case_insensitive) ==> (r matches Ok(p) && p.source() == pat@ && p.ci() == case_insensitive),
        !regex_compiles(pat@, case_insensitive) ==> (r matches Err(Error::Message(m))
            && m@ == "invalid search pattern: "@ + regex_error_text(pat@, case_insensitive)),
{
    match build_regex(pat, case_insensitive) {
        Ok(re) => Ok(Pattern { re, source: owned(pat), case_insensitive }),
        Err(m) => Err(Error::Message(cat("invalid search pattern: ", m.as_str()))),
    }
}

/// A forum search. All set filters must match.
#[derive(Debug)]
pub struct SearchQuery {
    /// Regex matched against the body (or the thread title when `titles_only`).
    pub pattern: Option<Pattern>,
    /// Author substring (case-insensitive).
    pub author: Option<String>,
    /// Labels that must all be present.
    pub labels: Vec<String>,
    /// Restrict to a thread, or a subtree by ID prefix (`F-1`, `F-1.2`).
    pub scope: Option<String>,
    /// Only posts at this depth or shallower.
    pub max_depth: Option<usize>,
    /// Match only thread titles (root posts).
    pub titles_only: bool,
    /// Cap the number of results.
    pub limit: Option<usize>,
}

impl Default for SearchQuery {
    fn default() -> (q: Self)
        ensures
            q.pattern is None && q.author is None && q.labels@.len() == 0 && q.scope is None
                && q.max_depth is None && !q.titles_only && q.limit is None,
    {
        SearchQuery { pattern: None, author: None, labels: Vec::new(), scope: None, max_depth: None, titles_only: false, limit: None }
    }
}

/// `id` is the thread or subtree `scope`, or inside it: `F-1` covers `F-1.2` but
/// not `F-10`.
pub open spec fn in_scope_spec(id: Seq<char>, scope: Seq<char>) -> bool {
    id == scope || crate::text::has_prefix(id, scope + seq!['.'])
}

/// Whether `id` is within the `scope` thread or subtree.
pub fn in_scope(id: &str, scope: &str) -> (r: bool)
    ensures
        r == in_scope_spec(id@, scope@),
{
    if crate::text::same(id, scope) {
        return true;
    }
    proof {
        reveal_strlit(".");
        assert("."@ =~= seq!['.']);
    }
    let p = cat(scope, ".");
    crate::text::starts_with(id, p.as_str())
}

/// Whether a post matches a query: every filter that is set holds.
pub open spec fn matches_spec(p: PostViewV, q: SearchQuery) -> bool {
    &&& !(q.titles_only && p.depth != 0)
    &&& (q.scope matches Some(sc) ==> in_scope_spec(p.id, sc@))
    &&& (q.max_depth matches Some(md) ==> p.depth <= md)
    &&& (q.author matches Some(a) ==> crate::text::has_infix(crate::text::unicode_lower(p.author), crate::text::unicode_lower(a@)))
    &&& (forall|i: int| 0 <= i < q.labels@.len() ==> p.labels.contains(#[trigger] q.labels@[i]@))
    &&& (q.pattern matches Some(re) ==> if q.titles_only {
        regex_is_match(re.source(), re.ci(), p.thread_title)
    } else {
        regex_is_match(re.source(), re.ci(), p.body) || (p.depth == 0 && regex_is_match(re.source(), re.ci(), p.thread_title))
    })
}

/// Whether a post matches a query (all set filters AND together). Shared by
/// [`search`] and the watch command so both apply the same rules.
pub fn matches(p: &PostView, q: &SearchQuery) -> (r: bool)
    ensures
        r == matches_spec(p@, *q),
{
    if q.titles_only && p.depth != 0 {
        return false;
    }
    match &q.scope {
        Some(sc) => if !in_scope(p.id.as_str(), sc.as_str()) {
            return false;
        },
        None => {},
    }
    match q.max_depth {
        Some(md) => if p.depth > md {
            return false;
        },
        None => {},
    }
    match &q.author {
        Some(a) => {
            let who = crate::text::to_lower(p.author.as_str());
            let want = crate::text::to_lower(a.as_str());
            if !crate::text::contains_sub(who.as_str(), want.as_str()) {
                return false;
            }
        },
        None => {},
    }
    let mut i: usize = 0;
    while i < q.labels.len()
        invariant
            i <= q.labels@.len(),
            forall|k: int| 0 <= k < i ==> p@.labels.contains(#[trigger] q.labels@[k]@),
        decreases q.labels@.len() - i,
    {
        if !crate::ops::contains_text(&p.labels, q.labels[i].as_str()) {
            return false;
        }
        i = i + 1;
    }
    match &q.pattern {
        Some(re) => {
            let hit = if q.titles_only {
                pattern_matches(re, p.thread_title.as_str())
            } else {
                pattern_matches(re, p.body.as_str()) || (p.depth == 0 && pattern_matches(re, p.thread_title.as_str()))
            };
            if !hit {
                return false;
            }
        },
        None => {},
    }
    true
}

/// The posts that match, in order.
pub open spec fn filter_matches(s: Seq<PostViewV>, q: SearchQuery) -> Seq<PostViewV>
    decreases s.len(),
{
    if s.len() == 0 {
        Seq::empty()
    } else {
        let rest = filter_matches(s.drop_last(), q);
        if matches_spec(s.last(), q) { rest.push(s.last()) } else { rest }
    }
}

/// The first `n` of `s` (all of it when shorter).
pub open spec fn take(s: Seq<PostViewV>, n: Option<usize>) -> Seq<PostViewV> {
    match n {
        Some(k) => if k < s.len() { s.subrange(0, k as int) } else { s },
        None => s,
    }
}

/// Every post that a filter keeps matches the query, and the filter keeps them
/// in order.
proof fn lemma_filter_matches(s: Seq<PostViewV>, q: SearchQuery)
    ensures
        forall|k: int| 0 <= k < filter_matches(s, q).len() ==> matches_spec(#[trigger] filter_matches(s, q)[k], q),
    decreases s.len(),
{
    if s.len() > 0 {
        lemma_filter_matches(s.drop_last(), q);
        let rest = filter_matches(s.drop_last(), q);
        if matches_spec(s.last(), q) {
            assert forall|k: int| 0 <= k < rest.push(s.last()).len() implies matches_spec(#[trigger] rest.push(s.last())[k], q) by {
                if k < rest.len() {
                    assert(rest.push(s.last())[k] == rest[k]);
                }
            }
        }
    }
}

/// A post ID is in a scope exactly when it is the scope's ID or starts with it
/// followed by `.`: `F-1` takes in `F-1` and `F-1.2`, not `F-10` or `F-11.2`.
pub proof fn law_scope_is_a_subtree(id: Seq<char>, scope: Seq<char>)
    ensures
        in_scope_spec(id, scope) <==> (id == scope || (scope.len() < id.len() && id.subrange(0, scope.len() as int) == scope
            && id[scope.len() as int] == '.')),
{
    let p = scope + seq!['.'];
    if crate::text::has_prefix(id, p) {
        assert(id.subrange(0, scope.len() as int) =~= id.subrange(0, p.len() as int).subrange(0, scope.len() as int));
        assert(p.subrange(0, scope.len() as int) =~= scope);
        assert(id[scope.len() as int] == id.subrange(0, p.len() as int)[scope.len() as int]);
    }
    if scope.len() < id.len() && id.subrange(0, scope.len() as int) == scope && id[scope.len() as int] == '.' {
        assert(id.subrange(0, p.len() as int) =~= p);
    }
}

proof fn lemma_filter_matches_has(s: Seq<PostViewV>, q: SearchQuery, k: int)
    requires
        0 <= k < s.len(),
        matches_spec(s[k], q),
    ensures
        filter_matches(s, q).contains(s[k]),
    decreases s.len(),
{
    let rest = filter_matches(s.drop_last(), q);
    let r = filter_matches(s, q);
    if k == s.len() - 1 {
        assert(r[rest.len() as int] == s[k]);
    } else {
        assert(s.drop_last()[k] == s[k]);
        lemma_filter_matches_has(s.drop_last(), q, k);
        let m = choose|m: int| 0 <= m < rest.len() && rest[m] == s[k];
        if matches_spec(s.last(), q) {
            assert(r[m] == rest[m]);
        }
    }
}

/// A search by scope alone finds every post of the thread or subtree: each
/// post whose ID is the scope's, or starts with it followed by `.`, is found.
pub proof fn law_scoped_search_finds_subtree(posts: Seq<PostViewV>, q: SearchQuery)
    requires
        q.pattern is None,
        q.author is None,
        q.labels@.len() == 0,
        q.max_depth is None,
        !q.titles_only,
        q.limit is None,
    ensures
        q.scope matches Some(sc) ==> forall|k: int| 0 <= k < posts.len() && ({
            let id = (#[trigger] posts[k]).id;
            id == sc@ || (sc@.len() < id.len() && id.subrange(0, sc@.len() as int) == sc@ && id[sc@.len() as int] == '.')
        }) ==> take(filter_matches(posts, q), q.limit).contains(posts[k]),
{
    if let Some(sc) = q.scope {
        assert forall|k: int| 0 <= k < posts.len() && ({
            let id = (#[trigger] posts[k]).id;
            id == sc@ || (sc@.len() < id.len() && id.subrange(0, sc@.len() as int) == sc@ && id[sc@.len() as int] == '.')
        }) implies take(filter_matches(posts, q), q.limit).contains(posts[k]) by {
            law_scope_is_a_subtree(posts[k].id, sc@);
            assert(matches_spec(posts[k], q));
            lemma_filter_matches_has(posts, q, k);
        }
    }
}

/// A scoped search finds only posts of that thread or subtree: every post it
/// returns has the scope's ID, or an ID that starts with it followed by `.`.
pub proof fn law_search_stays_in_scope(posts: Seq<PostViewV>, q: SearchQuery)
    ensures
        q.scope matches Some(sc) ==> forall|k: int| 0 <= k < take(filter_matches(posts, q), q.limit).len() ==> {
            let id = (#[trigger] take(filter_matches(posts, q), q.limit)[k]).id;
            id == sc@ || (sc@.len() < id.len() && id.subrange(0, sc@.len() as int) == sc@ && id[sc@.len() as int] == '.')
        },
{
    lemma_filter_matches(posts, q);
    let f = filter_matches(posts, q);
    let r = take(f, q.limit);
    if let Some(sc) = q.scope {
        assert forall|k: int| 0 <= k < r.len() implies {
            let id = (#[trigger] r[k]).id;
            id == sc@ || (sc@.len() < id.len() && id.subrange(0, sc@.len() as int) == sc@ && id[sc@.len() as int] == '.')
        } by {
            assert(r[k] == f[k]);
            assert(matches_spec(f[k], q));
            law_scope_is_a_subtree(f[k].id, sc@);
        }
    }
}

/// Run a search over the flattened forum: the matching posts, newest first,
/// at most `limit` of them.
pub fn search(store: &Store, q: &SearchQuery) -> (r: Vec<PostView>)
    requires
        store.wf(),
        shallow(store@.threads),
    ensures
        exists|ts: Seq<ThreadV>| threads_in_order(ts, store@.threads)
            && views(r@) == take(filter_matches(sort_newest(flat_threads(ts)), *q), q.limit),
{
    let all = index(store);
    let ghost av = views(all@);
    let mut out: Vec<PostView> = Vec::new();
    let mut i: usize = 0;
    while i < all.len()
        invariant
            i <= all@.len(),
            av == views(all@),
            views(out@) == filter_matches(av.subrange(0, i as int), *q),
        decreases all@.len() - i,
    {
        assert(av.subrange(0, i + 1).drop_last() =~= av.subrange(0, i as int));
        assert(av[i as int] == all@[i as int]@);
        if matches(&all[i], q) {
            let ghost before = views(out@);
            out.push(all[i].clone());
            assert(views(out@) =~= before.push(av[i as int]));
        }
        i = i + 1;
    }
    assert(av.subrange(0, i as int) =~= av);
    match q.limit {
        Some(n) => {
            if n < out.len() {
                let ghost before = views(out@);
                out.truncate(n);
                assert(views(out@) =~= before.subrange(0, n as int));
            }
        },
        None => {},
    }
    out
}

} // verus!
