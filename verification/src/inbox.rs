//! Subscriptions and a non-blocking inbox.
//!
//! The inbox answers "what changed that I care about, and since when?". It scans
//! ticket comments and activity plus forum posts, keeps only events by *other*
//! actors on objects the identity is assigned to, authored, or subscribed to,
//! and returns them newest first.

use vstd::prelude::*;

use crate::error::Error;
use crate::forum::{flat_threads, index, shallow, sort_newest, threads_in_order, PostViewV};
use crate::keyed::{first_index, keys_distinct, lemma_first_index, lemma_first_index_none};
use crate::model::{card_in, texts, views, ActivityV, CommentV, List, ListV, Subscriptions, Ticket, TicketV, Timestamp};
use crate::ops::{remove_card, without};
use crate::order::{sort_dedup, strictly_sorted};
use crate::parse::{words, words_spec};
use crate::store::{Store, StoreV};
use crate::text::{cat, owned, same, string_of, trim, trim_spec};

verus! {

// ---------------------------------------------------------------------------
// Events
// ---------------------------------------------------------------------------

/// One inbox item: something another actor did on an object you care about.
#[derive(Debug)]
pub struct InboxEvent {
    /// When it happened.
    pub ts: Timestamp,
    /// Event kind: `comment`, `activity`, or `forum`.
    pub kind: String,
    /// The object it happened on: a ticket `T-<n>` or a forum post ID.
    pub object: String,
    /// A short title for the object.
    pub title: String,
    /// Who did it.
    pub actor: String,
    /// Human-readable detail (a comment or post snippet, or the activity detail).
    pub detail: String,
    /// Why it reached your inbox: `assigned`, `authored`, or `subscribed`.
    pub reason: String,
}

/// The value of an [`InboxEvent`].
pub struct InboxEventV {
    pub ts: Timestamp,
    pub kind: Seq<char>,
    pub object: Seq<char>,
    pub title: Seq<char>,
    pub actor: Seq<char>,
    pub detail: Seq<char>,
    pub reason: Seq<char>,
}

impl View for InboxEvent {
    type V = InboxEventV;

    open spec fn view(&self) -> InboxEventV {
        InboxEventV {
            ts: self.ts,
            kind: self.kind@,
            object: self.object@,
            title: self.title@,
            actor: self.actor@,
            detail: self.detail@,
            reason: self.reason@,
        }
    }
}

impl Clone for InboxEvent {
    fn clone(&self) -> (r: Self)
        ensures
            r@ == self@,
    {
        InboxEvent {
            ts: self.ts,
            kind: self.kind.clone(),
            object: self.object.clone(),
            title: self.title.clone(),
            actor: self.actor.clone(),
            detail: self.detail.clone(),
            reason: self.reason.clone(),
        }
    }
}

// ---------------------------------------------------------------------------
// Subscriptions
// ---------------------------------------------------------------------------

/// The key of a subscription entry: its identity.
pub open spec fn sub_key() -> spec_fn((Seq<char>, Seq<Seq<char>>)) -> Seq<char> {
    |e: (Seq<char>, Seq<Seq<char>>)| e.0
}

/// The references `identity` subscribes to (none when it has no entry).
pub open spec fn refs_of(subs: Seq<(Seq<char>, Seq<Seq<char>>)>, identity: Seq<char>) -> Seq<Seq<char>> {
    let i = first_index(subs, sub_key(), identity);
    if 0 <= i {
        subs[i].1
    } else {
        Seq::empty()
    }
}

/// The position of `identity`'s entry.
fn sub_pos(subs: &Subscriptions, identity: &str) -> (r: Option<usize>)
    ensures
        r matches Some(i) ==> i < subs@.len() && first_index(subs@, sub_key(), identity@) == i
            && subs@[i as int].0 == identity@,
        r is None ==> first_index(subs@, sub_key(), identity@) == -1,
{
    let mut i: usize = 0;
    while i < subs.subs.len()
        invariant
            i <= subs@.len(),
            subs@.len() == subs.subs@.len(),
            forall|m: int| 0 <= m < i ==> sub_key()(#[trigger] subs@[m]) != identity@,
        decreases subs@.len() - i,
    {
        assert(subs@[i as int].0 == subs.subs@[i as int].0@);
        if same(subs.subs[i].0.as_str(), identity) {
            proof {
                lemma_first_index(subs@, sub_key(), identity@, i as int);
            }
            return Some(i);
        }
        i = i + 1;
    }
    proof {
        lemma_first_index_none(subs@, sub_key(), identity@);
    }
    None
}

/// Whether `x` is among `v`.
pub fn has_ref(v: &Vec<String>, x: &str) -> (r: bool)
    ensures
        r == texts(v@).contains(x@),
{
    let mut i: usize = 0;
    while i < v.len()
        invariant
            i <= v@.len(),
            forall|m: int| 0 <= m < i ==> texts(v@)[m] != x@,
        decreases v@.len() - i,
    {
        if same(v[i].as_str(), x) {
            assert(texts(v@)[i as int] == x@);
            return true;
        }
        i = i + 1;
    }
    false
}

/// The store with its subscriptions replaced by `subs`.
pub open spec fn with_subs(s: StoreV, subs: Seq<(Seq<char>, Seq<Seq<char>>)>) -> StoreV {
    StoreV { subscriptions: subs, ..s }
}

/// `new` is `old` with `identity` subscribed to `reference`: its entry's list
/// sorted without repeats and holding `reference`, or a new entry at the end.
pub open spec fn subscribed(
    old: Seq<(Seq<char>, Seq<Seq<char>>)>,
    new: Seq<(Seq<char>, Seq<Seq<char>>)>,
    identity: Seq<char>,
    reference: Seq<char>,
) -> bool {
    let i = first_index(old, sub_key(), identity);
    if 0 <= i {
        &&& new.len() == old.len()
        &&& forall|j: int| 0 <= j < old.len() && j != i ==> new[j] == old[j]
        &&& new[i].0 == identity
        &&& strictly_sorted(new[i].1)
        &&& forall|y: Seq<char>| new[i].1.contains(y) <==> old[i].1.contains(y) || y == reference
    } else {
        new == old.push((identity, seq![reference]))
    }
}

/// Replace entry `i`.
fn set_entry(subs: &mut Subscriptions, i: usize, key: String, list: Vec<String>)
    requires
        i < old(subs)@.len(),
    ensures
        final(subs)@ == old(subs)@.update(i as int, (key@, texts(list@))),
        keys_distinct(old(subs)@, sub_key()) && key@ == old(subs)@[i as int].0 ==> keys_distinct(final(subs)@, sub_key()),
{
    let ghost s0 = subs@;
    let ghost kv = key@;
    subs.subs.set(i, (key, list));
    assert(subs@ =~= s0.update(i as int, (kv, texts(list@))));
    proof {
        if keys_distinct(s0, sub_key()) && kv == s0[i as int].0 {
            let t = subs@;
            assert forall|a: int, b: int| 0 <= a < t.len() && 0 <= b < t.len() && a != b implies sub_key()(t[a]) != sub_key()(t[b]) by {
                assert(sub_key()(t[a]) == sub_key()(s0[a]));
                assert(sub_key()(t[b]) == sub_key()(s0[b]));
            }
        }
    }
}

/// Drop entry `i`.
fn drop_entry(subs: &mut Subscriptions, i: usize)
    requires
        i < old(subs)@.len(),
    ensures
        final(subs)@ == old(subs)@.remove(i as int),
        keys_distinct(old(subs)@, sub_key()) ==> keys_distinct(final(subs)@, sub_key()),
{
    let ghost s0 = subs@;
    subs.subs.remove(i);
    assert(subs@ =~= s0.remove(i as int));
    proof {
        if keys_distinct(s0, sub_key()) {
            let t = subs@;
            assert forall|a: int, b: int| 0 <= a < t.len() && 0 <= b < t.len() && a != b implies sub_key()(t[a]) != sub_key()(t[b]) by {
                let a2 = if a < i { a } else { a + 1 };
                let b2 = if b < i { b } else { b + 1 };
                assert(t[a] == s0[a2] && t[b] == s0[b2]);
            }
        }
    }
}

/// The references of entry `i`, as stored.
fn entry_refs(subs: &Subscriptions, i: usize) -> (r: &Vec<String>)
    requires
        i < subs@.len(),
    ensures
        texts(r@) == subs@[i as int].1,
{
    &subs.subs[i]
        .1
}

/// `list` with `reference` added, sorted without repeats.
fn with_ref(list: &Vec<String>, reference: &str) -> (r: Vec<String>)
    ensures
        strictly_sorted(texts(r@)),
        forall|y: Seq<char>| texts(r@).contains(y) <==> texts(list@).contains(y) || y == reference@,
{
    let mut all = crate::model::clone_strings(list);
    let ghost l0 = texts(list@);
    all.push(owned(reference));
    assert(texts(all@) =~= l0.push(reference@));
    let sorted = sort_dedup(&all);
    proof {
        assert forall|y: Seq<char>| texts(sorted@).contains(y) <==> l0.contains(y) || y == reference@ by {
            if texts(all@).contains(y) {
                let k = choose|k: int| 0 <= k < texts(all@).len() && texts(all@)[k] == y;
                if k < l0.len() {
                    assert(l0[k] == y);
                }
            }
            if l0.contains(y) {
                let k = choose|k: int| 0 <= k < l0.len() && l0[k] == y;
                assert(texts(all@)[k] == y);
            }
            if y == reference@ {
                assert(texts(all@)[l0.len() as int] == y);
            }
        }
    }
    sorted
}

/// Add `reference` to `identity`'s subscriptions (idempotent). Returns whether it
/// was newly added.
pub fn subscribe(store: &mut Store, identity: &str, reference: &str) -> (r: Result<bool, Error>)
    requires
        old(store).wf(),
    ensures
        final(store).wf(),
        refs_of(old(store)@.subscriptions, identity@).contains(reference@) ==> (r matches Ok(b) && !b
            && final(store)@ == old(store)@),
        !refs_of(old(store)@.subscriptions, identity@).contains(reference@) ==> (r matches Ok(b) && b
            && final(store)@ == with_subs(old(store)@, final(store)@.subscriptions)
            && subscribed(old(store)@.subscriptions, final(store)@.subscriptions, identity@, reference@)),
{
    let mut subs = store.load_subscriptions();
    let ghost s0 = subs@;
    proof {
        store.lemma_subs_distinct();
    }
    match sub_pos(&subs, identity) {
        Some(i) => {
            if has_ref(entry_refs(&subs, i), reference) {
                return Ok(false);
            }
            let sorted = with_ref(entry_refs(&subs, i), reference);
            set_entry(&mut subs, i, owned(identity), sorted);
        },
        None => {
            let mut list: Vec<String> = Vec::new();
            list.push(owned(reference));
            assert(texts(list@) =~= seq![reference@]);
            subs.subs.push((owned(identity), list));
            assert(subs@ =~= s0.push((identity@, seq![reference@])));
            proof {
                lemma_first_index_facts(s0, identity@);
                let t = subs@;
                assert forall|a: int, b: int| 0 <= a < t.len() && 0 <= b < t.len() && a != b implies sub_key()(t[a]) != sub_key()(t[b]) by {
                    if a < s0.len() {
                        assert(t[a] == s0[a]);
                    }
                    if b < s0.len() {
                        assert(t[b] == s0[b]);
                    }
                }
            }
        },
    }
    store.save_subscriptions(&subs);
    Ok(true)
}

/// `new` is `old` with `reference` taken off `identity`'s list, and the entry
/// dropped if that leaves it empty.
pub open spec fn unsubscribed(
    old: Seq<(Seq<char>, Seq<Seq<char>>)>,
    identity: Seq<char>,
    reference: Seq<char>,
) -> Seq<(Seq<char>, Seq<Seq<char>>)> {
    let i = first_index(old, sub_key(), identity);
    let rest = without(old[i].1, reference);
    if rest.len() == 0 {
        old.remove(i)
    } else {
        old.update(i, (identity, rest))
    }
}

/// Remove `reference` from `identity`'s subscriptions. Returns whether it was
/// present.
pub fn unsubscribe(store: &mut Store, identity: &str, reference: &str) -> (r: Result<bool, Error>)
    requires
        old(store).wf(),
    ensures
        final(store).wf(),
        !refs_of(old(store)@.subscriptions, identity@).contains(reference@) ==> (r matches Ok(b) && !b
            && final(store)@ == old(store)@),
        refs_of(old(store)@.subscriptions, identity@).contains(reference@) ==> (r matches Ok(b) && b
            && final(store)@ == with_subs(old(store)@, unsubscribed(old(store)@.subscriptions, identity@, reference@))),
{
    let mut subs = store.load_subscriptions();
    let ghost s0 = subs@;
    proof {
        store.lemma_subs_distinct();
    }
    let i = match sub_pos(&subs, identity) {
        Some(i) => i,
        None => return Ok(false),
    };
    if !has_ref(entry_refs(&subs, i), reference) {
        return Ok(false);
    }
    let rest = remove_card(entry_refs(&subs, i), reference);
    if rest.len() == 0 {
        drop_entry(&mut subs, i);
    } else {
        set_entry(&mut subs, i, owned(identity), rest);
    }
    store.save_subscriptions(&subs);
    Ok(true)
}

/// The references `identity` subscribes to.
pub fn subscriptions_of(store: &Store, identity: &str) -> (r: Result<Vec<String>, Error>)
    ensures
        r matches Ok(v) && texts(v@) == refs_of(store@.subscriptions, identity@),
{
    let subs = store.load_subscriptions();
    match sub_pos(&subs, identity) {
        Some(i) => Ok(crate::model::clone_strings(entry_refs(&subs, i))),
        None => {
            let v: Vec<String> = Vec::new();
            assert(texts(v@) =~= Seq::empty());
            Ok(v)
        },
    }
}

// ---------------------------------------------------------------------------
// Snippets
// ---------------------------------------------------------------------------

/// `ws` joined with single spaces.
pub open spec fn join_words(ws: Seq<Seq<char>>) -> Seq<char>
    decreases ws.len(),
{
    if ws.len() == 0 {
        Seq::empty()
    } else if ws.len() == 1 {
        ws[0]
    } else {
        join_words(ws.drop_last()) + seq![' '] + ws.last()
    }
}

/// `s` on one line with runs of whitespace collapsed, cut to `n` characters
/// with an ellipsis when longer.
pub open spec fn snippet_spec(s: Seq<char>, n: nat) -> Seq<char> {
    let one = join_words(words_spec(s));
    if one.len() <= n {
        one
    } else {
        one.subrange(0, n as int) + seq!['\u{2026}']
    }
}

/// A one-line excerpt of `s` of at most `n` characters (plus an ellipsis).
pub fn snippet(s: &str, n: usize) -> (r: String)
    ensures
        r@ == snippet_spec(s@, n as nat),
{
    let ws = words(s);
    let mut cs: Vec<char> = Vec::new();
    let mut i: usize = 0;
    while i < ws.len()
        invariant
            i <= ws@.len(),
            cs@ == join_words(texts(ws@).subrange(0, i as int)),
        decreases ws@.len() - i,
    {
        let ghost before = cs@;
        let ghost pre = texts(ws@).subrange(0, i as int);
        let ghost next = texts(ws@).subrange(0, i + 1);
        assert(next.drop_last() =~= pre);
        if i > 0 {
            cs.push(' ');
        }
        let w = crate::text::chars_of(ws[i].as_str());
        let mut k: usize = 0;
        let ghost mid = cs@;
        while k < w.len()
            invariant
                k <= w@.len(),
                cs@ == mid + w@.subrange(0, k as int),
            decreases w@.len() - k,
        {
            cs.push(w[k]);
            assert(cs@ =~= mid + w@.subrange(0, k + 1));
            k = k + 1;
        }
        assert(w@.subrange(0, w@.len() as int) =~= w@);
        proof {
            if i == 0 {
                assert(cs@ =~= next[0]);
            } else {
                assert(cs@ =~= before + seq![' '] + next.last());
            }
        }
        i = i + 1;
    }
    assert(texts(ws@).subrange(0, ws@.len() as int) =~= texts(ws@));
    if cs.len() <= n {
        return string_of(cs.as_slice());
    }
    let mut cut: Vec<char> = Vec::new();
    let mut k: usize = 0;
    while k < n
        invariant
            k <= n,
            n < cs@.len(),
            cut@ == cs@.subrange(0, k as int),
        decreases n - k,
    {
        cut.push(cs[k]);
        assert(cut@ =~= cs@.subrange(0, k + 1));
        k = k + 1;
    }
    cut.push('\u{2026}');
    string_of(cut.as_slice())
}

// ---------------------------------------------------------------------------
// The inbox
// ---------------------------------------------------------------------------

/// Some activity entry of `t` records that `identity` created it.
pub open spec fn authored_by(t: TicketV, identity: Seq<char>) -> bool {
    exists|k: int| 0 <= k < t.activity.len() && (#[trigger] t.activity[k]).kind == "created"@ && t.activity[k].actor == identity
}

/// The ID of the last list holding card `id`, if any.
pub open spec fn last_list_of(lists: Seq<ListV>, id: Seq<char>) -> Option<Seq<char>>
    decreases lists.len(),
{
    if lists.len() == 0 {
        None
    } else if card_in(lists.last(), id) {
        Some(lists.last().id)
    } else {
        last_list_of(lists.drop_last(), id)
    }
}

/// Why ticket `t` (on list `list`) concerns `identity`, given its subscriptions
/// `subs`: `assigned`, `authored` or `subscribed`; `None` if it does not.
pub open spec fn why(t: TicketV, identity: Seq<char>, subs: Seq<Seq<char>>, list: Option<Seq<char>>) -> Option<Seq<char>> {
    if t.assignees.contains(identity) {
        Some("assigned"@)
    } else if authored_by(t, identity) {
        Some("authored"@)
    } else if subs.contains("board:*"@) || subs.contains(t.id) || (list matches Some(l) && subs.contains("list:"@ + l)) {
        Some("subscribed"@)
    } else {
        None
    }
}

/// The event of comment `c` on ticket `t`.
pub open spec fn comment_event(t: TicketV, c: CommentV, reason: Seq<char>) -> InboxEventV {
    InboxEventV {
        ts: c.created,
        kind: "comment"@,
        object: t.id,
        title: t.title,
        actor: c.author,
        detail: snippet_spec(c.body, 120),
        reason,
    }
}

/// The event of activity entry `a` on ticket `t`.
pub open spec fn activity_event(t: TicketV, a: ActivityV, reason: Seq<char>) -> InboxEventV {
    InboxEventV {
        ts: a.ts,
        kind: "activity"@,
        object: t.id,
        title: t.title,
        actor: a.actor,
        detail: trim_spec(a.kind + seq![' '] + a.detail),
        reason,
    }
}

/// The events of the comments `cs` of `t` made after `since` by someone else.
pub open spec fn comment_events(t: TicketV, cs: Seq<CommentV>, identity: Seq<char>, since: Timestamp, reason: Seq<char>) -> Seq<InboxEventV>
    decreases cs.len(),
{
    if cs.len() == 0 {
        Seq::empty()
    } else {
        let rest = comment_events(t, cs.drop_last(), identity, since, reason);
        if cs.last().created > since && cs.last().author != identity {
            rest.push(comment_event(t, cs.last(), reason))
        } else {
            rest
        }
    }
}

/// The events of the activity entries `acts` of `t` after `since` by someone else.
pub open spec fn activity_events(t: TicketV, acts: Seq<ActivityV>, identity: Seq<char>, since: Timestamp, reason: Seq<char>) -> Seq<InboxEventV>
    decreases acts.len(),
{
    if acts.len() == 0 {
        Seq::empty()
    } else {
        let rest = activity_events(t, acts.drop_last(), identity, since, reason);
        if acts.last().ts > since && acts.last().actor != identity {
            rest.push(activity_event(t, acts.last(), reason))
        } else {
            rest
        }
    }
}

/// The events of ticket `t` for `identity`: its comments, then its activity.
pub open spec fn ticket_events(t: TicketV, identity: Seq<char>, since: Timestamp, subs: Seq<Seq<char>>, lists: Seq<ListV>) -> Seq<InboxEventV> {
    match why(t, identity, subs, last_list_of(lists, t.id)) {
        Some(reason) => comment_events(t, t.comments, identity, since, reason) + activity_events(t, t.activity, identity, since, reason),
        None => Seq::empty(),
    }
}

/// The events of the tickets `ts`, ticket after ticket.
pub open spec fn all_ticket_events(ts: Seq<TicketV>, identity: Seq<char>, since: Timestamp, subs: Seq<Seq<char>>, lists: Seq<ListV>) -> Seq<InboxEventV>
    decreases ts.len(),
{
    if ts.len() == 0 {
        Seq::empty()
    } else {
        all_ticket_events(ts.drop_last(), identity, since, subs, lists) + ticket_events(ts.last(), identity, since, subs, lists)
    }
}

/// Whether `identity` follows the thread of post `p`.
pub open spec fn follows(p: PostViewV, subs: Seq<Seq<char>>) -> bool {
    subs.contains("board:*"@) || subs.contains("forum:*"@) || subs.contains("forum:"@ + p.thread_id)
}

/// The event of forum post `p`.
pub open spec fn post_event(p: PostViewV) -> InboxEventV {
    InboxEventV {
        ts: p.created,
        kind: "forum"@,
        object: p.id,
        title: p.thread_title,
        actor: p.author,
        detail: snippet_spec(p.body, 120),
        reason: "subscribed"@,
    }
}

/// The events of the followed posts among `ps` made after `since` by someone else.
pub open spec fn forum_events(ps: Seq<PostViewV>, identity: Seq<char>, since: Timestamp, subs: Seq<Seq<char>>) -> Seq<InboxEventV>
    decreases ps.len(),
{
    if ps.len() == 0 {
        Seq::empty()
    } else {
        let rest = forum_events(ps.drop_last(), identity, since, subs);
        let p = ps.last();
        if follows(p, subs) && p.created > since && p.author != identity {
            rest.push(post_event(p))
        } else {
            rest
        }
    }
}

/// `sorted` (newest first) with `x` placed after every event at least as new.
pub open spec fn insert_event(sorted: Seq<InboxEventV>, x: InboxEventV) -> Seq<InboxEventV>
    decreases sorted.len(),
{
    if sorted.len() == 0 {
        seq![x]
    } else if sorted[0].ts < x.ts {
        seq![x] + sorted
    } else {
        seq![sorted[0]] + insert_event(sorted.drop_first(), x)
    }
}

/// `s` sorted newest first, events of the same instant kept in order.
pub open spec fn sort_events(s: Seq<InboxEventV>) -> Seq<InboxEventV>
    decreases s.len(),
{
    if s.len() == 0 {
        Seq::empty()
    } else {
        insert_event(sort_events(s.drop_last()), s.last())
    }
}

proof fn lemma_insert_event(sorted: Seq<InboxEventV>, x: InboxEventV, p: int)
    requires
        0 <= p <= sorted.len(),
        forall|j: int| 0 <= j < p ==> (#[trigger] sorted[j]).ts >= x.ts,
        p < sorted.len() ==> sorted[p].ts < x.ts,
    ensures
        insert_event(sorted, x) == sorted.insert(p, x),
    decreases p,
{
    if p == 0 {
        if sorted.len() == 0 {
            assert(sorted.insert(0, x) =~= seq![x]);
        } else {
            assert(sorted.insert(0, x) =~= seq![x] + sorted);
        }
    } else {
        let t = sorted.drop_first();
        assert forall|j: int| 0 <= j < p - 1 implies (#[trigger] t[j]).ts >= x.ts by {
            assert(t[j] == sorted[j + 1]);
        }
        if p - 1 < t.len() {
            assert(t[p - 1] == sorted[p]);
        }
        lemma_insert_event(t, x, p - 1);
        assert(seq![sorted[0]] + t.insert(p - 1, x) =~= sorted.insert(p, x));
    }
}

/// Sort events newest first, keeping events of the same instant in order.
pub fn sort_newest_first(events: Vec<InboxEvent>) -> (r: Vec<InboxEvent>)
    ensures
        views(r@) == sort_events(views(events@)),
{
    let ghost ev = views(events@);
    let mut sorted: Vec<InboxEvent> = Vec::new();
    let mut i: usize = 0;
    while i < events.len()
        invariant
            i <= events@.len(),
            ev == views(events@),
            views(sorted@) == sort_events(ev.subrange(0, i as int)),
        decreases events@.len() - i,
    {
        assert(ev.subrange(0, i + 1).drop_last() =~= ev.subrange(0, i as int));
        assert(ev[i as int] == events@[i as int]@);
        let x = events[i].clone();
        let ghost sv = views(sorted@);
        let mut p: usize = 0;
        while p < sorted.len() && sorted[p].ts >= x.ts
            invariant
                p <= sorted@.len(),
                sv == views(sorted@),
                forall|j: int| 0 <= j < p ==> (#[trigger] sv[j]).ts >= x.ts,
            decreases sorted@.len() - p,
        {
            assert(sv[p as int] == sorted@[p as int]@);
            p = p + 1;
        }
        proof {
            if p < sorted@.len() {
                assert(sv[p as int] == sorted@[p as int]@);
            }
            lemma_insert_event(sv, x@, p as int);
        }
        sorted.insert(p, x);
        assert(views(sorted@) =~= sv.insert(p as int, ev[i as int]));
        i = i + 1;
    }
    assert(ev.subrange(0, i as int) =~= ev);
    sorted
}

/// The ID of the last list holding card `id`.
fn last_list(lists: &Vec<List>, id: &str) -> (r: Option<String>)
    ensures
        crate::model::opt_text(r) == last_list_of(views(lists@), id@),
{
    let ghost lv = views(lists@);
    let mut found: Option<String> = None;
    let mut i: usize = 0;
    while i < lists.len()
        invariant
            i <= lists@.len(),
            lv == views(lists@),
            crate::model::opt_text(found) == last_list_of(lv.subrange(0, i as int), id@),
        decreases lists@.len() - i,
    {
        let ghost pre = lv.subrange(0, i + 1);
        assert(pre.drop_last() =~= lv.subrange(0, i as int));
        assert(pre.last() == lists@[i as int]@);
        match crate::model::position_of(&lists[i].cards, id) {
            Some(k) => {
                assert(pre.last().cards[k as int] == id@);
                assert(card_in(pre.last(), id@));
                let lid = lists[i].id.clone();
                assert(lid@ == pre.last().id);
                found = Some(lid);
            },
            None => {
                assert(!card_in(pre.last(), id@));
            },
        }
        i = i + 1;
    }
    assert(lv.subrange(0, i as int) =~= lv);
    found
}

/// Whether `identity` created ticket `t`, by its activity.
fn created_by(t: &Ticket, identity: &str) -> (r: bool)
    ensures
        r == authored_by(t@, identity@),
{
    let mut k: usize = 0;
    while k < t.activity.len()
        invariant
            k <= t.activity@.len(),
            forall|m: int| 0 <= m < k ==> !((#[trigger] t@.activity[m]).kind == "created"@ && t@.activity[m].actor == identity@),
        decreases t.activity@.len() - k,
    {
        assert(t@.activity[k as int] == t.activity@[k as int]@);
        if same(t.activity[k].kind.as_str(), "created") && same(t.activity[k].actor.as_str(), identity) {
            return true;
        }
        k = k + 1;
    }
    false
}

/// Why ticket `t` concerns `identity` (see [`why`]).
fn reason_for(t: &Ticket, identity: &str, subs: &Vec<String>, list: &Option<String>) -> (r: Option<String>)
    ensures
        crate::model::opt_text(r) == why(t@, identity@, texts(subs@), crate::model::opt_text(*list)),
{
    if has_ref(&t.assignees, identity) {
        return Some(owned("assigned"));
    }
    if created_by(t, identity) {
        return Some(owned("authored"));
    }
    let listed = match list {
        Some(l) => has_ref(subs, cat("list:", l.as_str()).as_str()),
        None => false,
    };
    if has_ref(subs, "board:*") || has_ref(subs, t.id.as_str()) || listed {
        return Some(owned("subscribed"));
    }
    None
}

/// Append the events of ticket `t` (comments, then activity) for `reason`.
fn push_ticket_events(events: &mut Vec<InboxEvent>, t: &Ticket, identity: &str, since: Timestamp, reason: &str)
    ensures
        views(final(events)@) == views(old(events)@) + comment_events(t@, t@.comments, identity@, since, reason@)
            + activity_events(t@, t@.activity, identity@, since, reason@),
{
    let ghost base = views(events@);
    let ghost tv = t@;
    let mut k: usize = 0;
    while k < t.comments.len()
        invariant
            k <= t.comments@.len(),
            tv == t@,
            views(events@) == base + comment_events(tv, tv.comments.subrange(0, k as int), identity@, since, reason@),
        decreases t.comments@.len() - k,
    {
        let ghost pre = tv.comments.subrange(0, k + 1);
        assert(pre.drop_last() =~= tv.comments.subrange(0, k as int));
        assert(pre.last() == t.comments@[k as int]@);
        let c = &t.comments[k];
        if c.created > since && !same(c.author.as_str(), identity) {
            let e = InboxEvent {
                ts: c.created,
                kind: owned("comment"),
                object: t.id.clone(),
                title: t.title.clone(),
                actor: c.author.clone(),
                detail: snippet(c.body.as_str(), 120),
                reason: owned(reason),
            };
            let ghost before = views(events@);
            events.push(e);
            assert(views(events@) =~= before.push(e@));
        }
        k = k + 1;
    }
    assert(tv.comments.subrange(0, k as int) =~= tv.comments);
    let ghost mid = views(events@);
    let mut k: usize = 0;
    while k < t.activity.len()
        invariant
            k <= t.activity@.len(),
            tv == t@,
            views(events@) == mid + activity_events(tv, tv.activity.subrange(0, k as int), identity@, since, reason@),
        decreases t.activity@.len() - k,
    {
        let ghost pre = tv.activity.subrange(0, k + 1);
        assert(pre.drop_last() =~= tv.activity.subrange(0, k as int));
        assert(pre.last() == t.activity@[k as int]@);
        let a = &t.activity[k];
        if a.ts > since && !same(a.actor.as_str(), identity) {
            let line = cat3_spaced(a.kind.as_str(), a.detail.as_str());
            let e = InboxEvent {
                ts: a.ts,
                kind: owned("activity"),
                object: t.id.clone(),
                title: t.title.clone(),
                actor: a.actor.clone(),
                detail: trim(line.as_str()),
                reason: owned(reason),
            };
            let ghost before = views(events@);
            events.push(e);
            assert(views(events@) =~= before.push(e@));
        }
        k = k + 1;
    }
    assert(tv.activity.subrange(0, k as int) =~= tv.activity);
    assert(views(events@) =~= base + comment_events(tv, tv.comments, identity@, since, reason@) + activity_events(tv, tv.activity, identity@, since, reason@));
}

/// `a`, a space, then `b`.
fn cat3_spaced(a: &str, b: &str) -> (r: String)
    ensures
        r@ == a@ + seq![' '] + b@,
{
    proof {
        reveal_strlit(" ");
    }
    crate::text::cat3(a, " ", b)
}

/// `ts` lists the tickets of `m`, each once, ordered by ID counter.
pub open spec fn tickets_in_order(ts: Seq<TicketV>, m: Map<Seq<char>, TicketV>) -> bool {
    &&& crate::store::lists_keys(ts.map_values(|t: TicketV| t.id), m)
    &&& forall|i: int| 0 <= i < ts.len() ==> m[(#[trigger] ts[i]).id] == ts[i]
}

/// What the inbox of `identity` holds after `since`, for tickets taken in the
/// order `ts` and forum threads in the order `th`.
pub open spec fn inbox_spec(s: StoreV, identity: Seq<char>, since: Timestamp, ts: Seq<TicketV>, th: Seq<crate::model::ThreadV>) -> Seq<InboxEventV> {
    let subs = refs_of(s.subscriptions, identity);
    sort_events(
        all_ticket_events(ts, identity, since, subs, s.board.lists) + forum_events(sort_newest(flat_threads(th)), identity, since, subs),
    )
}

/// Compute the inbox for `identity`: events strictly after `since` on objects it
/// is assigned to, authored, or subscribed to, excluding its own actions, newest
/// first (tickets in ID order, then forum posts, for events of the same instant).
pub fn inbox(store: &Store, identity: &str, since: Timestamp) -> (r: Result<Vec<InboxEvent>, Error>)
    requires
        store.wf(),
        shallow(store@.threads),
    ensures
        r matches Ok(v) && exists|ts: Seq<TicketV>, th: Seq<crate::model::ThreadV>|
            tickets_in_order(ts, store@.tickets) && threads_in_order(th, store@.threads)
            && views(v@) == inbox_spec(store@, identity@, since, ts, th),
{
    let subs = match subscriptions_of(store, identity) {
        Ok(v) => v,
        Err(e) => return Err(e),
    };
    let ghost sv = texts(subs@);
    let board = store.load_board();
    let ghost lists = store@.board.lists;
    let tickets = store.load_all_tickets();
    let ghost ts = tickets@.map_values(|t: Ticket| t@);
    assert(tickets_in_order(ts, store@.tickets)) by {
        assert(ts.map_values(|t: TicketV| t.id) =~= tickets@.map_values(|t: Ticket| t.id@));
        assert forall|i: int| 0 <= i < ts.len() implies store@.tickets[(#[trigger] ts[i]).id] == ts[i] by {
            assert(ts[i] == tickets@[i]@);
        }
    }
    let mut events: Vec<InboxEvent> = Vec::new();
    let mut i: usize = 0;
    while i < tickets.len()
        invariant
            i <= tickets@.len(),
            ts == tickets@.map_values(|t: Ticket| t@),
            sv == texts(subs@),
            lists == views(board.lists@),
            views(events@) == all_ticket_events(ts.subrange(0, i as int), identity@, since, sv, lists),
        decreases tickets@.len() - i,
    {
        let ghost pre = ts.subrange(0, i + 1);
        assert(pre.drop_last() =~= ts.subrange(0, i as int));
        assert(pre.last() == tickets@[i as int]@);
        let t = &tickets[i];
        let list = last_list(&board.lists, t.id.as_str());
        match reason_for(t, identity, &subs, &list) {
            Some(reason) => {
                push_ticket_events(&mut events, t, identity, since, reason.as_str());
            },
            None => {},
        }
        assert(views(events@) =~= all_ticket_events(pre, identity@, since, sv, lists));
        i = i + 1;
    }
    assert(ts.subrange(0, i as int) =~= ts);
    let ghost tix = views(events@);
    let posts = index(store);
    let ghost th = choose|th: Seq<crate::model::ThreadV>| threads_in_order(th, store@.threads) && views(posts@) == sort_newest(flat_threads(th));
    let ghost pv = views(posts@);
    let all = has_ref(&subs, "board:*") || has_ref(&subs, "forum:*");
    let mut k: usize = 0;
    while k < posts.len()
        invariant
            k <= posts@.len(),
            pv == views(posts@),
            sv == texts(subs@),
            all == (sv.contains("board:*"@) || sv.contains("forum:*"@)),
            views(events@) == tix + forum_events(pv.subrange(0, k as int), identity@, since, sv),
        decreases posts@.len() - k,
    {
        let ghost pre = pv.subrange(0, k + 1);
        assert(pre.drop_last() =~= pv.subrange(0, k as int));
        assert(pre.last() == posts@[k as int]@);
        let p = &posts[k];
        let relevant = all || has_ref(&subs, cat("forum:", p.thread_id.as_str()).as_str());
        if relevant && p.created > since && !same(p.author.as_str(), identity) {
            let e = InboxEvent {
                ts: p.created,
                kind: owned("forum"),
                object: p.id.clone(),
                title: p.thread_title.clone(),
                actor: p.author.clone(),
                detail: snippet(p.body.as_str(), 120),
                reason: owned("subscribed"),
            };
            let ghost before = views(events@);
            events.push(e);
            assert(views(events@) =~= before.push(e@));
        }
        assert(views(events@) =~= tix + forum_events(pre, identity@, since, sv));
        k = k + 1;
    }
    assert(pv.subrange(0, k as int) =~= pv);
    let sorted = sort_newest_first(events);
    assert(views(sorted@) == inbox_spec(store@, identity@, since, ts, th));
    Ok(sorted)
}

// ---------------------------------------------------------------------------
// Laws
// ---------------------------------------------------------------------------

/// Every event is by someone other than `identity`, strictly after `since`.
pub open spec fn foreign_and_new(es: Seq<InboxEventV>, identity: Seq<char>, since: Timestamp) -> bool {
    forall|i: int| 0 <= i < es.len() ==> (#[trigger] es[i]).actor != identity && es[i].ts > since
}

/// Newest first.
pub open spec fn newest_first_order(es: Seq<InboxEventV>) -> bool {
    forall|i: int, j: int| 0 <= i <= j < es.len() ==> (#[trigger] es[i]).ts >= (#[trigger] es[j]).ts
}

proof fn lemma_insert_event_keeps(sorted: Seq<InboxEventV>, x: InboxEventV, identity: Seq<char>, since: Timestamp)
    requires
        foreign_and_new(sorted, identity, since),
        x.actor != identity && x.ts > since,
        newest_first_order(sorted),
    ensures
        foreign_and_new(insert_event(sorted, x), identity, since),
        newest_first_order(insert_event(sorted, x)),
        insert_event(sorted, x).len() == sorted.len() + 1,
    decreases sorted.len(),
{
    if sorted.len() > 0 && sorted[0].ts >= x.ts {
        let t = sorted.drop_first();
        assert forall|i: int, j: int| 0 <= i <= j < t.len() implies (#[trigger] t[i]).ts >= (#[trigger] t[j]).ts by {
            assert(t[i] == sorted[i + 1] && t[j] == sorted[j + 1]);
        }
        assert forall|i: int| 0 <= i < t.len() implies (#[trigger] t[i]).actor != identity && t[i].ts > since by {
            assert(t[i] == sorted[i + 1]);
        }
        lemma_insert_event_keeps(t, x, identity, since);
        let r = insert_event(t, x);
        let whole = seq![sorted[0]] + r;
        assert forall|i: int, j: int| 0 <= i <= j < whole.len() implies (#[trigger] whole[i]).ts >= (#[trigger] whole[j]).ts by {
            if i == 0 && j > 0 {
                assert(whole[j] == r[j - 1]);
                lemma_insert_event_members(t, x, j - 1);
                if r[j - 1] != x {
                    let k = choose|k: int| 0 <= k < t.len() && t[k] == r[j - 1];
                    assert(t[k] == sorted[k + 1]);
                }
            } else if i > 0 {
                assert(whole[i] == r[i - 1] && whole[j] == r[j - 1]);
            }
        }
        assert forall|i: int| 0 <= i < whole.len() implies (#[trigger] whole[i]).actor != identity && whole[i].ts > since by {
            if i > 0 {
                assert(whole[i] == r[i - 1]);
            }
        }
    } else if sorted.len() > 0 {
        let whole = seq![x] + sorted;
        assert forall|i: int, j: int| 0 <= i <= j < whole.len() implies (#[trigger] whole[i]).ts >= (#[trigger] whole[j]).ts by {
            if i == 0 && j > 0 {
                assert(whole[j] == sorted[j - 1]);
                assert(sorted[0].ts >= sorted[j - 1].ts);
            } else if i > 0 {
                assert(whole[i] == sorted[i - 1] && whole[j] == sorted[j - 1]);
            }
        }
        assert forall|i: int| 0 <= i < whole.len() implies (#[trigger] whole[i]).actor != identity && whole[i].ts > since by {
            if i > 0 {
                assert(whole[i] == sorted[i - 1]);
            }
        }
    }
}

proof fn lemma_insert_event_members(sorted: Seq<InboxEventV>, x: InboxEventV, i: int)
    requires
        0 <= i < insert_event(sorted, x).len(),
        insert_event(sorted, x).len() == sorted.len() + 1,
    ensures
        insert_event(sorted, x)[i] == x || exists|k: int| 0 <= k < sorted.len() && sorted[k] == insert_event(sorted, x)[i],
    decreases sorted.len(),
{
    let r = insert_event(sorted, x);
    if sorted.len() == 0 {
    } else if sorted[0].ts < x.ts {
        if i > 0 {
            assert(r[i] == sorted[i - 1]);
        }
    } else {
        let t = sorted.drop_first();
        if i == 0 {
            assert(r[0] == sorted[0]);
        } else {
            lemma_insert_event_len(t, x);
            lemma_insert_event_members(t, x, i - 1);
            assert(r[i] == insert_event(t, x)[i - 1]);
            if insert_event(t, x)[i - 1] != x {
                let k = choose|k: int| 0 <= k < t.len() && t[k] == insert_event(t, x)[i - 1];
                assert(sorted[k + 1] == t[k]);
            }
        }
    }
}

proof fn lemma_insert_event_len(sorted: Seq<InboxEventV>, x: InboxEventV)
    ensures
        insert_event(sorted, x).len() == sorted.len() + 1,
    decreases sorted.len(),
{
    if sorted.len() > 0 && sorted[0].ts >= x.ts {
        lemma_insert_event_len(sorted.drop_first(), x);
    }
}

proof fn lemma_sort_events_keeps(s: Seq<InboxEventV>, identity: Seq<char>, since: Timestamp)
    requires
        foreign_and_new(s, identity, since),
    ensures
        foreign_and_new(sort_events(s), identity, since),
        newest_first_order(sort_events(s)),
    decreases s.len(),
{
    if s.len() > 0 {
        assert forall|i: int| 0 <= i < s.drop_last().len() implies (#[trigger] s.drop_last()[i]).actor != identity && s.drop_last()[i].ts > since by {
            assert(s.drop_last()[i] == s[i]);
        }
        lemma_sort_events_keeps(s.drop_last(), identity, since);
        assert(s.last() == s[s.len() - 1]);
        lemma_insert_event_keeps(sort_events(s.drop_last()), s.last(), identity, since);
    }
}

proof fn lemma_concat_keeps(a: Seq<InboxEventV>, b: Seq<InboxEventV>, identity: Seq<char>, since: Timestamp)
    requires
        foreign_and_new(a, identity, since),
        foreign_and_new(b, identity, since),
    ensures
        foreign_and_new(a + b, identity, since),
{
    assert forall|i: int| 0 <= i < (a + b).len() implies (#[trigger] (a + b)[i]).actor != identity && (a + b)[i].ts > since by {
        if i >= a.len() {
            assert((a + b)[i] == b[i - a.len()]);
        }
    }
}

proof fn lemma_push_keeps(a: Seq<InboxEventV>, x: InboxEventV, identity: Seq<char>, since: Timestamp)
    requires
        foreign_and_new(a, identity, since),
        x.actor != identity && x.ts > since,
    ensures
        foreign_and_new(a.push(x), identity, since),
{
    assert forall|i: int| 0 <= i < a.push(x).len() implies (#[trigger] a.push(x)[i]).actor != identity && a.push(x)[i].ts > since by {
        if i < a.len() {
            assert(a.push(x)[i] == a[i]);
        }
    }
}

proof fn lemma_comment_events_keep(t: TicketV, cs: Seq<CommentV>, identity: Seq<char>, since: Timestamp, reason: Seq<char>)
    ensures
        foreign_and_new(comment_events(t, cs, identity, since, reason), identity, since),
    decreases cs.len(),
{
    if cs.len() > 0 {
        lemma_comment_events_keep(t, cs.drop_last(), identity, since, reason);
        if cs.last().created > since && cs.last().author != identity {
            lemma_push_keeps(comment_events(t, cs.drop_last(), identity, since, reason), comment_event(t, cs.last(), reason), identity, since);
        }
    }
}

proof fn lemma_activity_events_keep(t: TicketV, acts: Seq<ActivityV>, identity: Seq<char>, since: Timestamp, reason: Seq<char>)
    ensures
        foreign_and_new(activity_events(t, acts, identity, since, reason), identity, since),
    decreases acts.len(),
{
    if acts.len() > 0 {
        lemma_activity_events_keep(t, acts.drop_last(), identity, since, reason);
        if acts.last().ts > since && acts.last().actor != identity {
            lemma_push_keeps(activity_events(t, acts.drop_last(), identity, since, reason), activity_event(t, acts.last(), reason), identity, since);
        }
    }
}

proof fn lemma_ticket_events_keep(ts: Seq<TicketV>, identity: Seq<char>, since: Timestamp, subs: Seq<Seq<char>>, lists: Seq<ListV>)
    ensures
        foreign_and_new(all_ticket_events(ts, identity, since, subs, lists), identity, since),
    decreases ts.len(),
{
    if ts.len() > 0 {
        lemma_ticket_events_keep(ts.drop_last(), identity, since, subs, lists);
        let t = ts.last();
        match why(t, identity, subs, last_list_of(lists, t.id)) {
            Some(reason) => {
                lemma_comment_events_keep(t, t.comments, identity, since, reason);
                lemma_activity_events_keep(t, t.activity, identity, since, reason);
                lemma_concat_keeps(comment_events(t, t.comments, identity, since, reason), activity_events(t, t.activity, identity, since, reason), identity, since);
            },
            None => {},
        }
        lemma_concat_keeps(all_ticket_events(ts.drop_last(), identity, since, subs, lists), ticket_events(t, identity, since, subs, lists), identity, since);
    }
}

proof fn lemma_forum_events_keep(ps: Seq<PostViewV>, identity: Seq<char>, since: Timestamp, subs: Seq<Seq<char>>)
    ensures
        foreign_and_new(forum_events(ps, identity, since, subs), identity, since),
    decreases ps.len(),
{
    if ps.len() > 0 {
        lemma_forum_events_keep(ps.drop_last(), identity, since, subs);
        let p = ps.last();
        if follows(p, subs) && p.created > since && p.author != identity {
            lemma_push_keeps(forum_events(ps.drop_last(), identity, since, subs), post_event(p), identity, since);
        }
    }
}

/// The inbox never shows `identity` its own actions, holds only events strictly
/// after `since`, and lists them newest first.
pub proof fn law_inbox_foreign_new_and_ordered(
    s: StoreV,
    identity: Seq<char>,
    since: Timestamp,
    ts: Seq<TicketV>,
    th: Seq<crate::model::ThreadV>,
)
    ensures
        foreign_and_new(inbox_spec(s, identity, since, ts, th), identity, since),
        newest_first_order(inbox_spec(s, identity, since, ts, th)),
{
    let subs = refs_of(s.subscriptions, identity);
    lemma_ticket_events_keep(ts, identity, since, subs, s.board.lists);
    lemma_forum_events_keep(sort_newest(flat_threads(th)), identity, since, subs);
    lemma_concat_keeps(
        all_ticket_events(ts, identity, since, subs, s.board.lists),
        forum_events(sort_newest(flat_threads(th)), identity, since, subs),
        identity,
        since,
    );
    lemma_sort_events_keeps(
        all_ticket_events(ts, identity, since, subs, s.board.lists) + forum_events(sort_newest(flat_threads(th)), identity, since, subs),
        identity,
        since,
    );
}

proof fn lemma_insert_event_has(sorted: Seq<InboxEventV>, x: InboxEventV)
    ensures
        insert_event(sorted, x).contains(x),
        forall|y: InboxEventV| sorted.contains(y) ==> insert_event(sorted, x).contains(y),
    decreases sorted.len(),
{
    let r = insert_event(sorted, x);
    if sorted.len() == 0 {
        assert(r[0] == x);
    } else if sorted[0].ts < x.ts {
        assert(r[0] == x);
        assert forall|y: InboxEventV| sorted.contains(y) implies r.contains(y) by {
            let k = choose|k: int| 0 <= k < sorted.len() && sorted[k] == y;
            assert(r[k + 1] == sorted[k]);
        }
    } else {
        let t = sorted.drop_first();
        lemma_insert_event_has(t, x);
        let rt = insert_event(t, x);
        assert(r == seq![sorted[0]] + rt);
        let kx = choose|k: int| 0 <= k < rt.len() && rt[k] == x;
        assert(r[kx + 1] == x);
        assert forall|y: InboxEventV| sorted.contains(y) implies r.contains(y) by {
            let k = choose|k: int| 0 <= k < sorted.len() && sorted[k] == y;
            if k == 0 {
                assert(r[0] == y);
            } else {
                assert(t[k - 1] == y);
                assert(t.contains(y));
                let m = choose|m: int| 0 <= m < rt.len() && rt[m] == y;
                assert(r[m + 1] == y);
            }
        }
    }
}

/// Sorting keeps every event.
proof fn lemma_sort_events_has(s: Seq<InboxEventV>)
    ensures
        forall|y: InboxEventV| s.contains(y) ==> sort_events(s).contains(y),
    decreases s.len(),
{
    if s.len() > 0 {
        let t = s.drop_last();
        lemma_sort_events_has(t);
        lemma_insert_event_has(sort_events(t), s.last());
        assert forall|y: InboxEventV| s.contains(y) implies sort_events(s).contains(y) by {
            let k = choose|k: int| 0 <= k < s.len() && s[k] == y;
            if k < t.len() {
                assert(t[k] == y);
                assert(t.contains(y));
            }
        }
    }
}

proof fn lemma_comment_events_has(t: TicketV, cs: Seq<CommentV>, identity: Seq<char>, since: Timestamp, reason: Seq<char>, j: int)
    requires
        0 <= j < cs.len(),
        cs[j].created > since,
        cs[j].author != identity,
    ensures
        comment_events(t, cs, identity, since, reason).contains(comment_event(t, cs[j], reason)),
    decreases cs.len(),
{
    let r = comment_events(t, cs, identity, since, reason);
    let rest = comment_events(t, cs.drop_last(), identity, since, reason);
    if j == cs.len() - 1 {
        assert(r == rest.push(comment_event(t, cs[j], reason)));
        assert(r[rest.len() as int] == comment_event(t, cs[j], reason));
    } else {
        assert(cs.drop_last()[j] == cs[j]);
        lemma_comment_events_has(t, cs.drop_last(), identity, since, reason, j);
        let k = choose|k: int| 0 <= k < rest.len() && rest[k] == comment_event(t, cs[j], reason);
        assert(r[k] == rest[k]);
    }
}

proof fn lemma_activity_events_has(t: TicketV, acts: Seq<ActivityV>, identity: Seq<char>, since: Timestamp, reason: Seq<char>, j: int)
    requires
        0 <= j < acts.len(),
        acts[j].ts > since,
        acts[j].actor != identity,
    ensures
        activity_events(t, acts, identity, since, reason).contains(activity_event(t, acts[j], reason)),
    decreases acts.len(),
{
    let r = activity_events(t, acts, identity, since, reason);
    let rest = activity_events(t, acts.drop_last(), identity, since, reason);
    if j == acts.len() - 1 {
        assert(r == rest.push(activity_event(t, acts[j], reason)));
        assert(r[rest.len() as int] == activity_event(t, acts[j], reason));
    } else {
        assert(acts.drop_last()[j] == acts[j]);
        lemma_activity_events_has(t, acts.drop_last(), identity, since, reason, j);
        let k = choose|k: int| 0 <= k < rest.len() && rest[k] == activity_event(t, acts[j], reason);
        assert(r[k] == rest[k]);
    }
}

proof fn lemma_all_ticket_events_has(
    ts: Seq<TicketV>,
    identity: Seq<char>,
    since: Timestamp,
    subs: Seq<Seq<char>>,
    lists: Seq<ListV>,
    i: int,
    x: InboxEventV,
)
    requires
        0 <= i < ts.len(),
        ticket_events(ts[i], identity, since, subs, lists).contains(x),
    ensures
        all_ticket_events(ts, identity, since, subs, lists).contains(x),
    decreases ts.len(),
{
    let rest = all_ticket_events(ts.drop_last(), identity, since, subs, lists);
    let last = ticket_events(ts.last(), identity, since, subs, lists);
    let r = all_ticket_events(ts, identity, since, subs, lists);
    assert(r == rest + last);
    if i == ts.len() - 1 {
        let k = choose|k: int| 0 <= k < last.len() && last[k] == x;
        assert(r[rest.len() + k] == x);
    } else {
        assert(ts.drop_last()[i] == ts[i]);
        lemma_all_ticket_events_has(ts.drop_last(), identity, since, subs, lists, i, x);
        let k = choose|k: int| 0 <= k < rest.len() && rest[k] == x;
        assert(r[k] == x);
    }
}

/// A ticket of the store, at some place in the order `ts`.
proof fn lemma_ticket_in_order(ts: Seq<TicketV>, m: Map<Seq<char>, TicketV>, id: Seq<char>) -> (i: int)
    requires
        tickets_in_order(ts, m),
        m.contains_key(id),
    ensures
        0 <= i < ts.len(),
        ts[i] == m[id],
        m[id].id == id,
{
    let ids = ts.map_values(|t: TicketV| t.id);
    assert(ids.contains(id));
    let i = choose|i: int| 0 <= i < ids.len() && ids[i] == id;
    assert(ids[i] == ts[i].id);
    i
}

/// Every comment and every activity entry of `t` made strictly after `since` by
/// someone other than `identity` is an event of `es`, with the reason `reason`.
pub open spec fn ticket_events_in(es: Seq<InboxEventV>, t: TicketV, identity: Seq<char>, since: Timestamp, reason: Seq<char>) -> bool {
    &&& forall|j: int| 0 <= j < t.comments.len() && (#[trigger] t.comments[j]).created > since && t.comments[j].author != identity
        ==> es.contains(InboxEventV {
            ts: t.comments[j].created,
            kind: "comment"@,
            object: t.id,
            title: t.title,
            actor: t.comments[j].author,
            detail: snippet_spec(t.comments[j].body, 120),
            reason: reason,
        })
    &&& forall|j: int| 0 <= j < t.activity.len() && (#[trigger] t.activity[j]).ts > since && t.activity[j].actor != identity
        ==> es.contains(InboxEventV {
            ts: t.activity[j].ts,
            kind: "activity"@,
            object: t.id,
            title: t.title,
            actor: t.activity[j].actor,
            detail: trim_spec(t.activity[j].kind + seq![' '] + t.activity[j].detail),
            reason: reason,
        })
}

/// The events of a ticket that concerns `identity` for `reason` are all in its
/// inbox.
proof fn lemma_ticket_events_in_inbox(
    s: StoreV,
    identity: Seq<char>,
    since: Timestamp,
    ts: Seq<TicketV>,
    th: Seq<crate::model::ThreadV>,
    id: Seq<char>,
    reason: Seq<char>,
)
    requires
        tickets_in_order(ts, s.tickets),
        s.tickets.contains_key(id),
        why(s.tickets[id], identity, refs_of(s.subscriptions, identity), last_list_of(s.board.lists, id)) == Some(reason),
    ensures
        ticket_events_in(inbox_spec(s, identity, since, ts, th), s.tickets[id], identity, since, reason),
{
    let t = s.tickets[id];
    let i = lemma_ticket_in_order(ts, s.tickets, id);
    let subs = refs_of(s.subscriptions, identity);
    let lists = s.board.lists;
    let a = all_ticket_events(ts, identity, since, subs, lists);
    let f = forum_events(sort_newest(flat_threads(th)), identity, since, subs);
    assert(t.id == id);
    let ce = comment_events(t, t.comments, identity, since, reason);
    let ae = activity_events(t, t.activity, identity, since, reason);
    assert(ticket_events(t, identity, since, subs, lists) == ce + ae);
    lemma_sort_events_has(a + f);
    assert forall|j: int| 0 <= j < t.comments.len() && (#[trigger] t.comments[j]).created > since && t.comments[j].author != identity
        implies inbox_spec(s, identity, since, ts, th).contains(comment_event(t, t.comments[j], reason)) by {
        let x = comment_event(t, t.comments[j], reason);
        lemma_comment_events_has(t, t.comments, identity, since, reason, j);
        let k = choose|k: int| 0 <= k < ce.len() && ce[k] == x;
        assert((ce + ae)[k] == x);
        lemma_all_ticket_events_has(ts, identity, since, subs, lists, i, x);
        let k2 = choose|k2: int| 0 <= k2 < a.len() && a[k2] == x;
        assert((a + f)[k2] == x);
        assert((a + f).contains(x));
        assert(inbox_spec(s, identity, since, ts, th) == sort_events(a + f));
    }
    assert forall|j: int| 0 <= j < t.activity.len() && (#[trigger] t.activity[j]).ts > since && t.activity[j].actor != identity
        implies inbox_spec(s, identity, since, ts, th).contains(activity_event(t, t.activity[j], reason)) by {
        let x = activity_event(t, t.activity[j], reason);
        lemma_activity_events_has(t, t.activity, identity, since, reason, j);
        let k = choose|k: int| 0 <= k < ae.len() && ae[k] == x;
        assert((ce + ae)[ce.len() + k] == x);
        lemma_all_ticket_events_has(ts, identity, since, subs, lists, i, x);
        let k2 = choose|k2: int| 0 <= k2 < a.len() && a[k2] == x;
        assert((a + f)[k2] == x);
        assert((a + f).contains(x));
        assert(inbox_spec(s, identity, since, ts, th) == sort_events(a + f));
    }
}

/// A ticket assigned to `identity` reaches its inbox: every comment and every
/// activity entry on it made strictly after `since` by someone else is there,
/// with the reason `assigned`, whatever else relates the identity to it.
pub proof fn law_inbox_has_assigned_ticket_events(
    s: StoreV,
    identity: Seq<char>,
    since: Timestamp,
    ts: Seq<TicketV>,
    th: Seq<crate::model::ThreadV>,
    id: Seq<char>,
)
    requires
        tickets_in_order(ts, s.tickets),
        s.tickets.contains_key(id),
        s.tickets[id].assignees.contains(identity),
    ensures
        ticket_events_in(inbox_spec(s, identity, since, ts, th), s.tickets[id], identity, since, "assigned"@),
{
    lemma_ticket_events_in_inbox(s, identity, since, ts, th, id, "assigned"@);
}

/// A ticket that `identity` created, and is not assigned to, reaches its inbox
/// with the reason `authored`.
pub proof fn law_inbox_has_authored_ticket_events(
    s: StoreV,
    identity: Seq<char>,
    since: Timestamp,
    ts: Seq<TicketV>,
    th: Seq<crate::model::ThreadV>,
    id: Seq<char>,
    k: int,
)
    requires
        tickets_in_order(ts, s.tickets),
        s.tickets.contains_key(id),
        !s.tickets[id].assignees.contains(identity),
        0 <= k < s.tickets[id].activity.len(),
        s.tickets[id].activity[k].kind == "created"@,
        s.tickets[id].activity[k].actor == identity,
    ensures
        ticket_events_in(inbox_spec(s, identity, since, ts, th), s.tickets[id], identity, since, "authored"@),
{
    assert(authored_by(s.tickets[id], identity));
    lemma_ticket_events_in_inbox(s, identity, since, ts, th, id, "authored"@);
}

/// A ticket that `identity` neither is assigned to nor created reaches its
/// inbox with the reason `subscribed` when it subscribes to the ticket or to the
/// whole board.
pub proof fn law_inbox_has_subscribed_ticket_events(
    s: StoreV,
    identity: Seq<char>,
    since: Timestamp,
    ts: Seq<TicketV>,
    th: Seq<crate::model::ThreadV>,
    id: Seq<char>,
)
    requires
        tickets_in_order(ts, s.tickets),
        s.tickets.contains_key(id),
        !s.tickets[id].assignees.contains(identity),
        forall|k: int| 0 <= k < s.tickets[id].activity.len() ==> !((#[trigger] s.tickets[id].activity[k]).kind == "created"@
            && s.tickets[id].activity[k].actor == identity),
        refs_of(s.subscriptions, identity).contains(id) || refs_of(s.subscriptions, identity).contains("board:*"@),
    ensures
        ticket_events_in(inbox_spec(s, identity, since, ts, th), s.tickets[id], identity, since, "subscribed"@),
{
    let _ = lemma_ticket_in_order(ts, s.tickets, id);
    lemma_ticket_events_in_inbox(s, identity, since, ts, th, id, "subscribed"@);
}

proof fn lemma_forum_events_has(ps: Seq<PostViewV>, identity: Seq<char>, since: Timestamp, subs: Seq<Seq<char>>, j: int)
    requires
        0 <= j < ps.len(),
        follows(ps[j], subs),
        ps[j].created > since,
        ps[j].author != identity,
    ensures
        forum_events(ps, identity, since, subs).contains(post_event(ps[j])),
    decreases ps.len(),
{
    let r = forum_events(ps, identity, since, subs);
    let rest = forum_events(ps.drop_last(), identity, since, subs);
    if j == ps.len() - 1 {
        assert(r[rest.len() as int] == post_event(ps[j]));
    } else {
        assert(ps.drop_last()[j] == ps[j]);
        lemma_forum_events_has(ps.drop_last(), identity, since, subs, j);
        let k = choose|k: int| 0 <= k < rest.len() && rest[k] == post_event(ps[j]);
        assert(r[k] == rest[k]);
    }
}

/// Every post of a followed thread (the identity subscribes to the whole
/// board, to the whole forum, or to that thread) made strictly after `since` by
/// someone else is in the inbox, with the reason `subscribed`.
pub proof fn law_inbox_has_followed_posts(
    s: StoreV,
    identity: Seq<char>,
    since: Timestamp,
    ts: Seq<TicketV>,
    th: Seq<crate::model::ThreadV>,
)
    ensures
        forall|k: int| 0 <= k < flat_threads(th).len() && ({
            let subs = refs_of(s.subscriptions, identity);
            let p = #[trigger] flat_threads(th)[k];
            &&& subs.contains("board:*"@) || subs.contains("forum:*"@) || subs.contains("forum:"@ + p.thread_id)
            &&& p.created > since
            &&& p.author != identity
        }) ==> inbox_spec(s, identity, since, ts, th).contains(InboxEventV {
            ts: flat_threads(th)[k].created,
            kind: "forum"@,
            object: flat_threads(th)[k].id,
            title: flat_threads(th)[k].thread_title,
            actor: flat_threads(th)[k].author,
            detail: snippet_spec(flat_threads(th)[k].body, 120),
            reason: "subscribed"@,
        }),
{
    let subs = refs_of(s.subscriptions, identity);
    let all = flat_threads(th);
    let ps = sort_newest(all);
    let a = all_ticket_events(ts, identity, since, subs, s.board.lists);
    let f = forum_events(ps, identity, since, subs);
    crate::forum::lemma_sort_newest_has(all);
    lemma_sort_events_has(a + f);
    assert forall|k: int| 0 <= k < all.len() && ({
        let p = #[trigger] all[k];
        &&& subs.contains("board:*"@) || subs.contains("forum:*"@) || subs.contains("forum:"@ + p.thread_id)
        &&& p.created > since
        &&& p.author != identity
    }) implies inbox_spec(s, identity, since, ts, th).contains(post_event(all[k])) by {
        let p = all[k];
        assert(all.contains(p));
        let j = choose|j: int| 0 <= j < ps.len() && ps[j] == p;
        lemma_forum_events_has(ps, identity, since, subs, j);
        let m = choose|m: int| 0 <= m < f.len() && f[m] == post_event(p);
        assert((a + f)[a.len() + m] == post_event(p));
        assert((a + f).contains(post_event(p)));
        assert(inbox_spec(s, identity, since, ts, th) == sort_events(a + f));
    }
}

/// Sorting adds no event.
proof fn lemma_sort_events_from(s: Seq<InboxEventV>)
    ensures
        sort_events(s).len() == s.len(),
        forall|k: int| 0 <= k < sort_events(s).len() ==> s.contains(#[trigger] sort_events(s)[k]),
    decreases s.len(),
{
    if s.len() > 0 {
        let t = s.drop_last();
        lemma_sort_events_from(t);
        let st = sort_events(t);
        lemma_insert_event_len(st, s.last());
        assert forall|k: int| 0 <= k < sort_events(s).len() implies s.contains(#[trigger] sort_events(s)[k]) by {
            lemma_insert_event_members(st, s.last(), k);
            if sort_events(s)[k] == s.last() {
                assert(s[s.len() - 1] == s.last());
            } else {
                let m = choose|m: int| 0 <= m < st.len() && st[m] == sort_events(s)[k];
                assert(t.contains(st[m]));
                let w = choose|w: int| 0 <= w < t.len() && t[w] == st[m];
                assert(s[w] == t[w]);
            }
        }
    }
}

/// The comment events of `t` are comment events about `t` for `reason`.
proof fn lemma_comment_events_from(t: TicketV, cs: Seq<CommentV>, identity: Seq<char>, since: Timestamp, reason: Seq<char>)
    ensures
        forall|k: int| 0 <= k < comment_events(t, cs, identity, since, reason).len() ==> {
            let e = #[trigger] comment_events(t, cs, identity, since, reason)[k];
            e.kind == "comment"@ && e.object == t.id && e.reason == reason
        },
    decreases cs.len(),
{
    if cs.len() > 0 {
        lemma_comment_events_from(t, cs.drop_last(), identity, since, reason);
        let rest = comment_events(t, cs.drop_last(), identity, since, reason);
        let r = comment_events(t, cs, identity, since, reason);
        assert forall|k: int| 0 <= k < r.len() implies {
            let e = #[trigger] r[k];
            e.kind == "comment"@ && e.object == t.id && e.reason == reason
        } by {
            if k < rest.len() {
                assert(r[k] == rest[k]);
            }
        }
    }
}

/// The activity events of `t` are activity events about `t` for `reason`.
proof fn lemma_activity_events_from(t: TicketV, acts: Seq<ActivityV>, identity: Seq<char>, since: Timestamp, reason: Seq<char>)
    ensures
        forall|k: int| 0 <= k < activity_events(t, acts, identity, since, reason).len() ==> {
            let e = #[trigger] activity_events(t, acts, identity, since, reason)[k];
            e.kind == "activity"@ && e.object == t.id && e.reason == reason
        },
    decreases acts.len(),
{
    if acts.len() > 0 {
        lemma_activity_events_from(t, acts.drop_last(), identity, since, reason);
        let rest = activity_events(t, acts.drop_last(), identity, since, reason);
        let r = activity_events(t, acts, identity, since, reason);
        assert forall|k: int| 0 <= k < r.len() implies {
            let e = #[trigger] r[k];
            e.kind == "activity"@ && e.object == t.id && e.reason == reason
        } by {
            if k < rest.len() {
                assert(r[k] == rest[k]);
            }
        }
    }
}

/// The list whose ID `last_list_of` gives holds the card.
proof fn lemma_last_list_of(lists: Seq<ListV>, id: Seq<char>)
    ensures
        last_list_of(lists, id) matches Some(l) ==> exists|j: int| 0 <= j < lists.len() && card_in(lists[j], id) && lists[j].id == l,
    decreases lists.len(),
{
    if lists.len() > 0 {
        lemma_last_list_of(lists.drop_last(), id);
        if !card_in(lists.last(), id) {
            if let Some(l) = last_list_of(lists, id) {
                let j = choose|j: int| 0 <= j < lists.drop_last().len() && card_in(lists.drop_last()[j], id) && lists.drop_last()[j].id == l;
                assert(lists[j] == lists.drop_last()[j]);
            }
        } else {
            assert(lists[lists.len() - 1] == lists.last());
        }
    }
}

/// Why a ticket concerns `identity`, in plain terms: the inbox's `reason` is
/// `assigned` when it is an assignee, `authored` when it created the ticket,
/// `subscribed` when it subscribes to the whole board, to the ticket or to a
/// list holding its card.
pub open spec fn concerns(t: TicketV, identity: Seq<char>, subs: Seq<Seq<char>>, lists: Seq<ListV>, reason: Seq<char>) -> bool {
    ||| reason == "assigned"@ && t.assignees.contains(identity)
    ||| reason == "authored"@ && exists|k: int| 0 <= k < t.activity.len() && (#[trigger] t.activity[k]).kind == "created"@
        && t.activity[k].actor == identity
    ||| reason == "subscribed"@ && (subs.contains("board:*"@) || subs.contains(t.id) || exists|j: int|
        0 <= j < lists.len() && card_in(#[trigger] lists[j], t.id) && subs.contains("list:"@ + lists[j].id))
}

proof fn lemma_why_concerns(t: TicketV, identity: Seq<char>, subs: Seq<Seq<char>>, lists: Seq<ListV>)
    ensures
        why(t, identity, subs, last_list_of(lists, t.id)) matches Some(r) ==> concerns(t, identity, subs, lists, r),
{
    lemma_last_list_of(lists, t.id);
}

/// Every ticket event comes from a ticket of `ts` that concerns the identity.
proof fn lemma_all_ticket_events_from(ts: Seq<TicketV>, identity: Seq<char>, since: Timestamp, subs: Seq<Seq<char>>, lists: Seq<ListV>)
    ensures
        forall|k: int| 0 <= k < all_ticket_events(ts, identity, since, subs, lists).len() ==> {
            let e = #[trigger] all_ticket_events(ts, identity, since, subs, lists)[k];
            (e.kind == "comment"@ || e.kind == "activity"@) && exists|i: int| 0 <= i < ts.len() && ts[i].id == e.object
                && concerns(ts[i], identity, subs, lists, e.reason)
        },
    decreases ts.len(),
{
    if ts.len() > 0 {
        let pre = ts.drop_last();
        let t = ts.last();
        lemma_all_ticket_events_from(pre, identity, since, subs, lists);
        let a = all_ticket_events(pre, identity, since, subs, lists);
        let b = ticket_events(t, identity, since, subs, lists);
        lemma_why_concerns(t, identity, subs, lists);
        match why(t, identity, subs, last_list_of(lists, t.id)) {
            Some(reason) => {
                lemma_comment_events_from(t, t.comments, identity, since, reason);
                lemma_activity_events_from(t, t.activity, identity, since, reason);
            },
            None => {},
        }
        assert forall|k: int| 0 <= k < (a + b).len() implies {
            let e = #[trigger] (a + b)[k];
            (e.kind == "comment"@ || e.kind == "activity"@) && exists|i: int| 0 <= i < ts.len() && ts[i].id == e.object
                && concerns(ts[i], identity, subs, lists, e.reason)
        } by {
            if k < a.len() {
                let e = a[k];
                assert((a + b)[k] == e);
                let i = choose|i: int| 0 <= i < pre.len() && pre[i].id == e.object && concerns(pre[i], identity, subs, lists, e.reason);
                assert(ts[i] == pre[i]);
            } else {
                let e = b[k - a.len()];
                assert((a + b)[k] == e);
                let reason = why(t, identity, subs, last_list_of(lists, t.id))->Some_0;
                let ce = comment_events(t, t.comments, identity, since, reason);
                let ae = activity_events(t, t.activity, identity, since, reason);
                let m = k - a.len();
                if m < ce.len() {
                    assert(b[m] == ce[m]);
                } else {
                    assert(b[m] == ae[m - ce.len()]);
                }
                assert(ts[ts.len() - 1] == t);
            }
        }
        assert(all_ticket_events(ts, identity, since, subs, lists) == a + b);
    }
}

/// Every forum event is the event of a followed post of `ps`.
proof fn lemma_forum_events_from(ps: Seq<PostViewV>, identity: Seq<char>, since: Timestamp, subs: Seq<Seq<char>>)
    ensures
        forall|k: int| 0 <= k < forum_events(ps, identity, since, subs).len() ==> exists|j: int| 0 <= j < ps.len()
            && #[trigger] forum_events(ps, identity, since, subs)[k] == post_event(ps[j]) && follows(ps[j], subs),
    decreases ps.len(),
{
    if ps.len() > 0 {
        let pre = ps.drop_last();
        lemma_forum_events_from(pre, identity, since, subs);
        let r = forum_events(ps, identity, since, subs);
        let rest = forum_events(pre, identity, since, subs);
        assert forall|k: int| 0 <= k < r.len() implies exists|j: int| 0 <= j < ps.len() && #[trigger] r[k] == post_event(ps[j])
            && follows(ps[j], subs) by {
            if k < rest.len() {
                assert(r[k] == rest[k]);
                let j = choose|j: int| 0 <= j < pre.len() && rest[k] == post_event(pre[j]) && follows(pre[j], subs);
                assert(ps[j] == pre[j]);
            } else {
                assert(ps[ps.len() - 1] == ps.last());
            }
        }
    }
}

/// Nothing reaches the inbox that does not concern the identity: each event is
/// a comment or an activity entry on a ticket that it is assigned to (reason
/// `assigned`), created (`authored`) or subscribes to, directly, through a list
/// holding its card or through the whole board (`subscribed`); or a post of a
/// forum thread that it follows (`subscribed`).
pub proof fn law_inbox_events_concern_identity(
    s: StoreV,
    identity: Seq<char>,
    since: Timestamp,
    ts: Seq<TicketV>,
    th: Seq<crate::model::ThreadV>,
)
    ensures
        forall|k: int| 0 <= k < inbox_spec(s, identity, since, ts, th).len() ==> {
            let e = #[trigger] inbox_spec(s, identity, since, ts, th)[k];
            let subs = refs_of(s.subscriptions, identity);
            ||| (e.kind == "comment"@ || e.kind == "activity"@) && exists|i: int| 0 <= i < ts.len() && ts[i].id == e.object
                && concerns(ts[i], identity, subs, s.board.lists, e.reason)
            ||| e.kind == "forum"@ && e.reason == "subscribed"@ && exists|j: int| 0 <= j < flat_threads(th).len()
                && (#[trigger] flat_threads(th)[j]).id == e.object && (subs.contains("board:*"@) || subs.contains("forum:*"@)
                || subs.contains("forum:"@ + flat_threads(th)[j].thread_id))
        },
{
    let subs = refs_of(s.subscriptions, identity);
    let all = flat_threads(th);
    let ps = sort_newest(all);
    let a = all_ticket_events(ts, identity, since, subs, s.board.lists);
    let f = forum_events(ps, identity, since, subs);
    lemma_all_ticket_events_from(ts, identity, since, subs, s.board.lists);
    lemma_forum_events_from(ps, identity, since, subs);
    lemma_sort_events_from(a + f);
    crate::forum::lemma_sort_newest_from(all);
    let out = inbox_spec(s, identity, since, ts, th);
    assert(out == sort_events(a + f));
    assert forall|k: int| 0 <= k < out.len() implies {
        let e = #[trigger] out[k];
        ||| (e.kind == "comment"@ || e.kind == "activity"@) && exists|i: int| 0 <= i < ts.len() && ts[i].id == e.object
            && concerns(ts[i], identity, subs, s.board.lists, e.reason)
        ||| e.kind == "forum"@ && e.reason == "subscribed"@ && exists|j: int| 0 <= j < all.len()
            && (#[trigger] all[j]).id == e.object && (subs.contains("board:*"@) || subs.contains("forum:*"@)
            || subs.contains("forum:"@ + all[j].thread_id))
    } by {
        let e = out[k];
        assert((a + f).contains(e));
        let w = choose|w: int| 0 <= w < (a + f).len() && (a + f)[w] == e;
        if w < a.len() {
            assert(a[w] == e);
        } else {
            assert(f[w - a.len()] == e);
            let j = choose|j: int| 0 <= j < ps.len() && f[w - a.len()] == post_event(ps[j]) && follows(ps[j], subs);
            assert(all.contains(ps[j]));
            let j2 = choose|j2: int| 0 <= j2 < all.len() && all[j2] == ps[j];
            assert(all[j2].id == e.object);
        }
    }
}

/// The subscription round trip over a list of entries with distinct
/// identities (see [`law_subscribe_unsubscribe`]).
proof fn lemma_subscribe_unsubscribe(
    old: Seq<(Seq<char>, Seq<Seq<char>>)>,
    new: Seq<(Seq<char>, Seq<Seq<char>>)>,
    identity: Seq<char>,
    reference: Seq<char>,
)
    requires
        crate::keyed::keys_distinct(old, sub_key()),
        subscribed(old, new, identity, reference),
    ensures
        refs_of(new, identity).contains(reference),
        forall|y: Seq<char>| refs_of(old, identity).contains(y) ==> refs_of(new, identity).contains(y),
        !refs_of(unsubscribed(new, identity, reference), identity).contains(reference),
        forall|y: Seq<char>| y != reference ==> (refs_of(unsubscribed(new, identity, reference), identity).contains(y)
            <==> refs_of(old, identity).contains(y)),
{
    let i = first_index(old, sub_key(), identity);
    let k: int;
    if 0 <= i {
        lemma_first_index_facts(old, identity);
        assert forall|j: int| 0 <= j < i implies sub_key()(#[trigger] new[j]) != identity by {
            assert(new[j] == old[j]);
        }
        lemma_first_index(new, sub_key(), identity, i);
        k = i;
        assert forall|a: int, b: int| 0 <= a < new.len() && 0 <= b < new.len() && a != b implies sub_key()(new[a]) != sub_key()(new[b]) by {
            assert(sub_key()(new[a]) == sub_key()(old[a]));
            assert(sub_key()(new[b]) == sub_key()(old[b]));
        }
    } else {
        lemma_first_index_facts(old, identity);
        assert forall|j: int| 0 <= j < old.len() implies sub_key()(#[trigger] new[j]) != identity by {
            assert(new[j] == old[j]);
        }
        lemma_first_index(new, sub_key(), identity, old.len() as int);
        assert(new[old.len() as int].1[0] == reference);
        k = old.len() as int;
        assert forall|a: int, b: int| 0 <= a < new.len() && 0 <= b < new.len() && a != b implies sub_key()(new[a]) != sub_key()(new[b]) by {
            if a < old.len() {
                assert(new[a] == old[a]);
            }
            if b < old.len() {
                assert(new[b] == old[b]);
            }
        }
    }
    assert(first_index(new, sub_key(), identity) == k);
    let rest = without(new[k].1, reference);
    crate::ops::lemma_without_drops(new[k].1, reference);
    let u = unsubscribed(new, identity, reference);
    if rest.len() == 0 {
        assert forall|j: int| 0 <= j < u.len() implies sub_key()(#[trigger] u[j]) != identity by {
            if j < k {
                assert(u[j] == new[j]);
            } else {
                assert(u[j] == new[j + 1]);
                assert(sub_key()(new[k]) == identity);
            }
        }
        lemma_first_index_none(u, sub_key(), identity);
    } else {
        assert forall|j: int| 0 <= j < k implies sub_key()(#[trigger] u[j]) != identity by {
            assert(u[j] == new[j]);
        }
        lemma_first_index(u, sub_key(), identity, k);
    }
    assert forall|y: Seq<char>| y != reference implies (refs_of(u, identity).contains(y)
        <==> refs_of(old, identity).contains(y)) by {
        if 0 <= i {
            assert(new[k].1.contains(y) <==> old[i].1.contains(y));
        } else {
            assert(new[k].1 == seq![reference]);
            if new[k].1.contains(y) {
                let w = choose|w: int| 0 <= w < new[k].1.len() && new[k].1[w] == y;
                assert(w == 0);
            }
        }
        if new[k].1.contains(y) {
            crate::ops::lemma_without_keeps(new[k].1, reference, y);
        }
    }
}

/// What `first_index` tells: the key there, and none before; or no key at all.
proof fn lemma_first_index_facts(s: Seq<(Seq<char>, Seq<Seq<char>>)>, identity: Seq<char>)
    ensures
        0 <= first_index(s, sub_key(), identity) ==> first_index(s, sub_key(), identity) < s.len()
            && s[first_index(s, sub_key(), identity)].0 == identity,
        first_index(s, sub_key(), identity) < 0 ==> forall|j: int| 0 <= j < s.len() ==> (#[trigger] s[j]).0 != identity,
{
    if crate::keyed::keyed_has(s, sub_key(), identity) {
        crate::keyed::lemma_first_index_found(s, sub_key(), identity);
    } else {
        assert forall|j: int| 0 <= j < s.len() implies (#[trigger] s[j]).0 != identity by {
            if s[j].0 == identity {
                assert(sub_key()(s[j]) == identity);
            }
        }
    }
}

/// On every well-formed store: after a subscription, the identity subscribes to
/// the reference (and still to everything it did before), so subscribing again
/// changes nothing; after an
/// unsubscription, it no longer does, and subscribes to exactly what it did
/// before the subscription, but for the reference.
pub proof fn law_subscribe_unsubscribe(
    s: &Store,
    new: Seq<(Seq<char>, Seq<Seq<char>>)>,
    identity: Seq<char>,
    reference: Seq<char>,
)
    requires
        s.wf(),
        subscribed(s@.subscriptions, new, identity, reference),
    ensures
        refs_of(new, identity).contains(reference),
        forall|y: Seq<char>| refs_of(s@.subscriptions, identity).contains(y) ==> refs_of(new, identity).contains(y),
        !refs_of(unsubscribed(new, identity, reference), identity).contains(reference),
        forall|y: Seq<char>| y != reference ==> (refs_of(unsubscribed(new, identity, reference), identity).contains(y)
            <==> refs_of(s@.subscriptions, identity).contains(y)),
{
    s.lemma_subs_distinct();
    lemma_subscribe_unsubscribe(s@.subscriptions, new, identity, reference);
}

} // verus!
