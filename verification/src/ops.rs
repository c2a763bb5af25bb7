//! High-level board operations shared by every front-end (CLI, daemon, desktop).
//! Each one reads what it needs from the [`Store`], changes the model, and writes
//! it back, so the mutation rules live in exactly one place.

use vstd::prelude::*;

use crate::error::Error;
use crate::id::{ticket_id, ticket_id_spec};
use crate::model::{
    card_in, find_card, find_list, first_list_index, is_first_card,
    opt_text, texts, views, ActivityV, Board, BoardV, List, ListV, Ticket, TicketV, Timestamp,
    FORMAT_VERSION,
};
use crate::error::not_found_tail;
use crate::id::{comment_id_spec};
use crate::keyed::{first_index, lemma_first_index, lemma_first_index_none, lemma_remove_key_step, remove_key};
use crate::model::{ChecklistItem, ChecklistItemV, Comment, CommentV, Identity, IdentityKind, IdentityV, LabelDef, LabelDefV, next_label_color, next_label_color_spec};
use crate::config::GlobalConfig;
use crate::git::{blob_hash, blob_hash_spec, email_char, opt_view, pair_view};
use crate::model::{Attachment, AttachmentSource, AttachmentV};
use crate::text::{trim_char, trim_matches, string_of};
use crate::text::{is_blank, trim, trim_spec};
use crate::id::{acceptance_id_spec, checklist_id_spec};
use crate::store::{valid_ticket_id_spec, with_board, Store, StoreV};
use crate::text::{cat, cat3, decimal, decimal_string, owned, with_number};
use crate::id::{slug, slug_spec};
use vstd::set_lib::{lemma_int_range, lemma_len_subset, lemma_map_size, set_int_range};

verus! {

// ---------------------------------------------------------------------------
// Cards on lists
// ---------------------------------------------------------------------------

/// `cards` without any occurrence of `id`.
pub open spec fn without(cards: Seq<Seq<char>>, id: Seq<char>) -> Seq<Seq<char>>
    decreases cards.len(),
{
    if cards.len() == 0 {
        Seq::empty()
    } else {
        let rest = without(cards.drop_last(), id);
        if cards.last() == id {
            rest
        } else {
            rest.push(cards.last())
        }
    }
}

/// Taking off a card that is not there changes nothing.
pub proof fn lemma_without_absent(cards: Seq<Seq<char>>, id: Seq<char>)
    requires
        forall|m: int| 0 <= m < cards.len() ==> cards[m] != id,
    ensures
        without(cards, id) == cards,
    decreases cards.len(),
{
    if cards.len() > 0 {
        lemma_without_absent(cards.drop_last(), id);
        assert(cards.drop_last().push(cards.last()) =~= cards);
    }
}

/// Taking off a card leaves it nowhere, and adds nothing.
pub proof fn lemma_without_drops(cards: Seq<Seq<char>>, id: Seq<char>)
    ensures
        !without(cards, id).contains(id),
        forall|y: Seq<char>| #[trigger] without(cards, id).contains(y) ==> cards.contains(y),
    decreases cards.len(),
{
    if cards.len() > 0 {
        let rest = without(cards.drop_last(), id);
        lemma_without_drops(cards.drop_last(), id);
        assert forall|y: Seq<char>| #[trigger] without(cards, id).contains(y) implies cards.contains(y) by {
            let w = without(cards, id);
            let k = choose|k: int| 0 <= k < w.len() && w[k] == y;
            if k < rest.len() {
                assert(rest[k] == y);
                assert(rest.contains(y));
                let m = choose|m: int| 0 <= m < cards.drop_last().len() && cards.drop_last()[m] == y;
                assert(cards[m] == y);
            } else {
                assert(cards[cards.len() - 1] == y);
            }
        }
        if without(cards, id).contains(id) {
            let w = without(cards, id);
            let k = choose|k: int| 0 <= k < w.len() && w[k] == id;
            if k < rest.len() {
                assert(rest[k] == id);
            }
        }
    }
}

/// Taking off a card keeps every other card.
pub proof fn lemma_without_keeps(cards: Seq<Seq<char>>, id: Seq<char>, y: Seq<char>)
    requires
        cards.contains(y),
        y != id,
    ensures
        without(cards, id).contains(y),
    decreases cards.len(),
{
    let t = cards.drop_last();
    if cards.last() == y {
        assert(without(cards, id).last() == y);
    } else {
        let w = choose|w: int| 0 <= w < cards.len() && cards[w] == y;
        assert(t[w] == y);
        lemma_without_keeps(t, id, y);
        let r = without(t, id);
        let v = choose|v: int| 0 <= v < r.len() && r[v] == y;
        if cards.last() != id {
            assert(without(cards, id)[v] == y);
        }
    }
}

/// Taking off a card that is there once, at `k`, drops position `k`.
pub proof fn lemma_without_once(cards: Seq<Seq<char>>, id: Seq<char>, k: int)
    requires
        0 <= k < cards.len(),
        cards[k] == id,
        forall|m: int| 0 <= m < cards.len() && m != k ==> cards[m] != id,
    ensures
        without(cards, id) == cards.remove(k),
    decreases cards.len(),
{
    if k == cards.len() - 1 {
        lemma_without_absent(cards.drop_last(), id);
        assert(cards.remove(k) =~= cards.drop_last());
    } else {
        lemma_without_once(cards.drop_last(), id, k);
        assert(cards.remove(k) =~= cards.drop_last().remove(k).push(cards.last()));
    }
}

/// Every list with the card `id` taken off it.
pub open spec fn strip_card(lists: Seq<ListV>, id: Seq<char>) -> Seq<ListV> {
    Seq::new(lists.len(), |i: int| ListV { cards: without(lists[i].cards, id), ..lists[i] })
}

/// The lists with `id` appended to the cards of list `i`.
pub open spec fn push_card_spec(lists: Seq<ListV>, i: int, id: Seq<char>) -> Seq<ListV> {
    lists.update(i, ListV { cards: lists[i].cards.push(id), ..lists[i] })
}

/// The lists with `id` inserted at position `p` of list `i`.
pub open spec fn insert_card_spec(lists: Seq<ListV>, i: int, p: int, id: Seq<char>) -> Seq<ListV> {
    lists.update(i, ListV { cards: lists[i].cards.insert(p, id), ..lists[i] })
}

/// `min(p, n)`.
pub open spec fn clamp(p: int, n: int) -> int {
    if p < n {
        p
    } else {
        n
    }
}

/// `id` is on list `i`, and on no list before it.
pub open spec fn holds_first(lists: Seq<ListV>, id: Seq<char>, i: int) -> bool {
    &&& 0 <= i < lists.len()
    &&& card_in(lists[i], id)
    &&& forall|j: int| 0 <= j < i ==> !card_in(#[trigger] lists[j], id)
}

/// A copy of `cards` without `id`.
pub fn remove_card(cards: &Vec<String>, id: &str) -> (r: Vec<String>)
    ensures
        texts(r@) == without(texts(cards@), id@),
{
    let mut out: Vec<String> = Vec::new();
    let mut i: usize = 0;
    while i < cards.len()
        invariant
            i <= cards@.len(),
            texts(out@) == without(texts(cards@).subrange(0, i as int), id@),
        decreases cards@.len() - i,
    {
        let ghost before = out@;
        assert(texts(cards@).subrange(0, i + 1).drop_last() =~= texts(cards@).subrange(0, i as int));
        if !crate::text::same(cards[i].as_str(), id) {
            out.push(cards[i].clone());
            assert(texts(out@) =~= texts(before).push(cards@[i as int]@));
        }
        i = i + 1;
    }
    assert(texts(cards@).subrange(0, cards@.len() as int) =~= texts(cards@));
    out
}

/// Take the card `id` off every list.
pub fn strip_lists(lists: &mut Vec<List>, id: &str)
    ensures
        views(final(lists)@) == strip_card(views(old(lists)@), id@),
{
    let ghost orig = views(lists@);
    let mut i: usize = 0;
    while i < lists.len()
        invariant
            i <= lists@.len(),
            lists@.len() == orig.len(),
            forall|k: int| 0 <= k < i ==> (#[trigger] lists@[k])@ == strip_card(orig, id@)[k],
            forall|k: int| i <= k < lists@.len() ==> (#[trigger] lists@[k])@ == orig[k],
        decreases lists@.len() - i,
    {
        let l = List {
            id: lists[i].id.clone(),
            name: lists[i].name.clone(),
            color: lists[i].color.clone(),
            wip_limit: lists[i].wip_limit,
            cards: remove_card(&lists[i].cards, id),
        };
        lists.set(i, l);
        i = i + 1;
    }
    assert(views(lists@) =~= strip_card(orig, id@));
}

/// Append `id` to the cards of list `i`.
pub fn push_card(lists: &mut Vec<List>, i: usize, id: &str)
    requires
        i < old(lists)@.len(),
    ensures
        views(final(lists)@) == push_card_spec(views(old(lists)@), i as int, id@),
{
    let mut l = lists[i].clone();
    let ghost before = l.cards@;
    l.cards.push(owned(id));
    assert(texts(l.cards@) =~= texts(before).push(id@));
    let ghost old_lists = lists@;
    lists.set(i, l);
    assert(views(lists@) =~= push_card_spec(views(old_lists), i as int, id@));
}

/// Insert `id` at position `p` (clamped to the list's length) of list `i`.
/// Returns the position used.
pub fn insert_card(lists: &mut Vec<List>, i: usize, p: usize, id: &str) -> (used: usize)
    requires
        i < old(lists)@.len(),
    ensures
        used == clamp(p as int, old(lists)@[i as int].cards@.len() as int),
        views(final(lists)@) == insert_card_spec(views(old(lists)@), i as int, used as int, id@),
{
    let mut l = lists[i].clone();
    let n = l.cards.len();
    let at = if p < n {
        p
    } else {
        n
    };
    let ghost before = l.cards@;
    l.cards.insert(at, owned(id));
    assert(texts(l.cards@) =~= texts(before).insert(at as int, id@));
    let ghost old_lists = lists@;
    lists.set(i, l);
    assert(views(lists@) =~= insert_card_spec(views(old_lists), i as int, at as int, id@));
    at
}

// ---------------------------------------------------------------------------
// Tickets
// ---------------------------------------------------------------------------

/// Specification for a new ticket. Only `title` is required.
#[derive(Debug)]
pub struct NewTicket {
    /// Short title.
    pub title: String,
    /// Optional long-form body.
    pub body: Option<String>,
    /// Optional priority.
    pub priority: Option<String>,
    /// Target list ID; defaults to the board's first list.
    pub list: Option<String>,
    /// Labels to apply.
    pub labels: Vec<String>,
    /// Assignees.
    pub assignees: Vec<String>,
}

impl Default for NewTicket {
    fn default() -> (n: Self)
        ensures
            n.title@.len() == 0,
            n.body is None,
            n.priority is None,
            n.list is None,
            n.labels@.len() == 0,
            n.assignees@.len() == 0,
    {
        NewTicket {
            title: String::new(),
            body: None,
            priority: None,
            list: None,
            labels: Vec::new(),
            assignees: Vec::new(),
        }
    }
}

/// `created`.
pub open spec fn kind_created() -> Seq<char> {
    seq!['c', 'r', 'e', 'a', 't', 'e', 'd']
}

/// `moved`.
pub open spec fn kind_moved() -> Seq<char> {
    seq!['m', 'o', 'v', 'e', 'd']
}

/// "board has no lists".
pub open spec fn no_lists_msg() -> Seq<char> {
    seq!['b', 'o', 'a', 'r', 'd', ' ', 'h', 'a', 's', ' ', 'n', 'o', ' ', 'l', 'i', 's', 't', 's']
}

/// The index of the list a new ticket goes to: the named one, or the first.
pub open spec fn target_list(lists: Seq<ListV>, list: Option<Seq<char>>) -> Option<int> {
    match list {
        Some(l) => first_list_index(lists, l),
        None => if lists.len() > 0 {
            Some(0)
        } else {
            None
        },
    }
}

/// Where a new ticket goes. Naming a list `l`: the ticket's card is appended to
/// the first list whose ID is `l`, and when no list has that ID there is no
/// target (creation fails with `ListNotFound`). Naming none: the first list of
/// the board, if there is one.
pub proof fn law_create_ticket_target(lists: Seq<ListV>, l: Seq<char>, id: Seq<char>)
    ensures
        match target_list(lists, Some(l)) {
            Some(i) => {
                &&& 0 <= i < lists.len()
                &&& lists[i].id == l
                &&& forall|j: int| 0 <= j < i ==> lists[j].id != l
                &&& push_card_spec(lists, i, id)[i].id == l
                &&& push_card_spec(lists, i, id)[i].cards == lists[i].cards.push(id)
            },
            None => forall|j: int| 0 <= j < lists.len() ==> lists[j].id != l,
        },
        (exists|j: int| 0 <= j < lists.len() && lists[j].id == l) ==> target_list(lists, Some(l)) is Some,
        lists.len() > 0 ==> target_list(lists, None) == Some(0int),
        lists.len() == 0 ==> target_list(lists, None) is None,
{
    if exists|j: int| 0 <= j < lists.len() && lists[j].id == l {
        let j = choose|j: int| 0 <= j < lists.len() && lists[j].id == l;
        lemma_first_list_exists(lists, l, j);
    }
}

/// Some list has ID `l` at or before `j`, so there is a first one.
proof fn lemma_first_list_exists(lists: Seq<ListV>, l: Seq<char>, j: int)
    requires
        0 <= j < lists.len(),
        lists[j].id == l,
    ensures
        exists|i: int| 0 <= i < lists.len() && lists[i].id == l && forall|k: int| 0 <= k < i ==> lists[k].id != l,
    decreases j,
{
    if exists|k: int| 0 <= k < j && lists[k].id == l {
        let k = choose|k: int| 0 <= k < j && lists[k].id == l;
        lemma_first_list_exists(lists, l, k);
    } else {
        assert(forall|k: int| 0 <= k < j ==> lists[k].id != l);
    }
}

/// The ticket [`create_ticket`] makes.
pub open spec fn created_ticket(spec: NewTicket, id: Seq<char>, actor: Seq<char>, now: Timestamp) -> TicketV {
    TicketV {
        version: FORMAT_VERSION,
        id: id,
        title: spec.title@,
        body: match spec.body {
            Some(b) => b@,
            None => Seq::empty(),
        },
        kind: None,
        priority: opt_text(spec.priority),
        labels: texts(spec.labels@),
        tags: Seq::empty(),
        assignees: texts(spec.assignees@),
        relations: Seq::empty(),
        attachments: Seq::empty(),
        checklist: Seq::empty(),
        acceptance: Seq::empty(),
        comments: Seq::empty(),
        activity: seq![ActivityV { ts: now, actor: actor, kind: kind_created(), detail: Seq::empty() }],
        next_comment: 1,
        next_check: 1,
        next_accept: 1,
        created: now,
        updated: now,
    }
}

/// Ticket IDs are `T-` and a decimal counter, which is a well-formed ID.
pub proof fn lemma_ticket_id_valid(n: nat)
    ensures
        valid_ticket_id_spec(ticket_id_spec(n)),
{
    crate::text::lemma_decimal_digits(n);
    let id = ticket_id_spec(n);
    assert(id.subrange(2, id.len() as int) =~= crate::text::decimal(n));
}

/// Resolve the list a new ticket goes to.
fn pick_list(board: &Board, list: &Option<String>) -> (r: Result<usize, Error>)
    ensures
        r matches Ok(i) ==> i < board.lists@.len() && target_list(board@.lists, opt_text(*list)) == Some(i as int),
        match target_list(board@.lists, opt_text(*list)) {
            Some(i) => r == Ok::<usize, Error>(i as usize),
            None => match list {
                Some(l) => r matches Err(Error::ListNotFound(s)) && s@ == l@,
                None => r matches Err(Error::Message(m)) && m@ == no_lists_msg(),
            },
        },
{
    match list {
        Some(l) => match find_list(&board.lists, l.as_str()) {
            Some(i) => {
                proof {
                    crate::model::lemma_first_list_index(board@.lists, l@, i as int);
                }
                Ok(i)
            },
            None => {
                proof {
                    crate::model::lemma_no_list_index(board@.lists, l@);
                }
                Err(Error::ListNotFound(l.clone()))
            },
        },
        None => {
            if board.lists.len() > 0 {
                Ok(0)
            } else {
                proof {
                    reveal_strlit("board has no lists");
                }
                Err(Error::msg("board has no lists"))
            }
        },
    }
}

/// Create a ticket, allocate its ID, place it at the end of a list (the board's
/// first list unless `spec.list` names one), and store both the ticket and the
/// board. Returns the created ticket.
pub fn create_ticket(store: &mut Store, spec: NewTicket, actor: &str, now: Timestamp) -> (r: Result<Ticket, Error>)
    requires
        old(store).wf(),
        old(store)@.board.next_ticket < u64::MAX,
    ensures
        final(store).wf(),
        ({
            let b = old(store)@.board;
            let id = ticket_id_spec(b.next_ticket as nat);
            match target_list(b.lists, opt_text(spec.list)) {
                Some(i) => r matches Ok(t) && t@ == created_ticket(spec, id, actor@, now) && final(store)@ == (StoreV {
                    board: BoardV {
                        lists: push_card_spec(b.lists, i, id),
                        next_ticket: (b.next_ticket + 1) as u64,
                        updated: now,
                        ..b
                    },
                    tickets: old(store)@.tickets.insert(id, t@),
                    ..old(store)@
                }),
                None => final(store)@ == old(store)@ && match spec.list {
                    Some(l) => r matches Err(Error::ListNotFound(s)) && s@ == l@,
                    None => r matches Err(Error::Message(m)) && m@ == no_lists_msg(),
                },
            }
        }),
{
    let mut board = store.load_board();
    let i = match pick_list(&board, &spec.list) {
        Ok(i) => i,
        Err(e) => return Err(e),
    };
    let id = ticket_id(board.next_ticket);
    board.next_ticket = board.next_ticket + 1;
    let mut ticket = Ticket::new(id.as_str(), spec.title.as_str(), now);
    ticket.body = match spec.body {
        Some(b) => b,
        None => String::new(),
    };
    ticket.priority = spec.priority;
    ticket.labels = spec.labels;
    ticket.assignees = spec.assignees;
    proof {
        reveal_strlit("created");
        reveal_strlit("");
        assert("created"@ =~= kind_created());
        assert(""@ =~= Seq::<char>::empty());
        assert(ticket@.activity =~= Seq::<ActivityV>::empty());
    }
    ticket.log_activity(actor, "created", "", now);
    push_card(&mut board.lists, i, id.as_str());
    board.updated = now;
    proof {
        lemma_ticket_id_valid(old(store)@.board.next_ticket as nat);
        assert(ticket@.activity =~= seq![ActivityV { ts: now, actor: actor@, kind: kind_created(), detail: Seq::empty() }]);
        assert(ticket@ =~= created_ticket(spec, ticket_id_spec(old(store)@.board.next_ticket as nat), actor@, now));
    }
    let ghost b0 = old(store)@.board;
    let ghost id0 = ticket_id_spec(b0.next_ticket as nat);
    assert(board@ == BoardV {
        lists: push_card_spec(b0.lists, i as int, id0),
        next_ticket: (b0.next_ticket + 1) as u64,
        updated: now,
        ..b0
    });
    let _ = store.save_ticket(&ticket);
    assert(store@.tickets == old(store)@.tickets.insert(id0, ticket@));
    store.save_board(&board);
    assert(target_list(b0.lists, opt_text(spec.list)) == Some(i as int));
    Ok(ticket)
}

/// The lists after moving card `id` to list `d`, at `pos` or at the end.
pub open spec fn moved_lists(lists: Seq<ListV>, id: Seq<char>, d: int, pos: Option<usize>) -> Seq<ListV> {
    let st = strip_card(lists, id);
    let n = st[d].cards.len() as int;
    let p = match pos {
        Some(p) => clamp(p as int, n),
        None => n,
    };
    insert_card_spec(st, d, p, id)
}

/// Where a move puts the card. On the destination list `d` the card sits at
/// index `min(p, n)` for a given position `p` (at the end, `n`, for none), where
/// `n` is the number of the list's other cards, which keep their order; the card
/// is on no other list, and the other lists keep their other cards in order.
pub proof fn law_move_ticket_position(lists: Seq<ListV>, id: Seq<char>, d: int, pos: Option<usize>)
    requires
        0 <= d < lists.len(),
    ensures
        ({
            let m = moved_lists(lists, id, d, pos);
            let others = without(lists[d].cards, id);
            let n = others.len() as int;
            let q = match pos {
                Some(p) => if (p as int) < n { p as int } else { n },
                None => n,
            };
            &&& m.len() == lists.len()
            &&& m[d].cards.len() == n + 1
            &&& m[d].cards[q] == id
            &&& m[d].cards.remove(q) == others
            &&& !others.contains(id)
            &&& forall|j: int| 0 <= j < m.len() ==> (#[trigger] m[j]).id == lists[j].id && m[j].name == lists[j].name
            &&& forall|j: int| 0 <= j < m.len() && j != d ==> (#[trigger] m[j]).cards == without(lists[j].cards, id)
                && !m[j].cards.contains(id)
        }),
{
    let m = moved_lists(lists, id, d, pos);
    let others = without(lists[d].cards, id);
    let n = others.len() as int;
    let q = match pos {
        Some(p) => if (p as int) < n { p as int } else { n },
        None => n,
    };
    lemma_without_drops(lists[d].cards, id);
    assert(m[d].cards == others.insert(q, id));
    assert(others.insert(q, id).remove(q) =~= others);
    assert forall|j: int| 0 <= j < m.len() && j != d implies (#[trigger] m[j]).cards == without(lists[j].cards, id)
        && !m[j].cards.contains(id) by {
        lemma_without_drops(lists[j].cards, id);
    }
}

/// The first list holding card `id` is the list `to`.
pub open spec fn was_on(lists: Seq<ListV>, id: Seq<char>, to: Seq<char>) -> bool {
    exists|i: int| holds_first(lists, id, i) && lists[i].id == to
}

/// The ticket after a move: touched, and, when its list changed, with a `moved`
/// activity naming the destination list.
pub open spec fn moved_ticket(t: TicketV, changed: bool, actor: Seq<char>, dest: Seq<char>, now: Timestamp) -> TicketV {
    TicketV {
        updated: now,
        activity: if changed {
            t.activity.push(ActivityV { ts: now, actor: actor, kind: kind_moved(), detail: dest })
        } else {
            t.activity
        },
        ..t
    }
}

/// What a move logs: when the first list holding the card is list `i`, whose
/// ID is the destination, nothing; otherwise (the card on another list first,
/// or on none) one `moved` entry naming the destination list, by the actor, at
/// `now`. The ticket is touched either way and keeps everything else.
pub proof fn law_move_ticket_logs_list_change(
    lists: Seq<ListV>,
    id: Seq<char>,
    to: Seq<char>,
    t: TicketV,
    actor: Seq<char>,
    dest: Seq<char>,
    now: Timestamp,
    i: int,
)
    ensures
        holds_first(lists, id, i) && lists[i].id == to ==> moved_ticket(t, !was_on(lists, id, to), actor, dest, now)
            == (TicketV { updated: now, ..t }),
        holds_first(lists, id, i) && lists[i].id != to ==> moved_ticket(t, !was_on(lists, id, to), actor, dest, now)
            == (TicketV {
            updated: now,
            activity: t.activity.push(ActivityV { ts: now, actor: actor, kind: "moved"@, detail: dest }),
            ..t
        }),
        (forall|j: int| 0 <= j < lists.len() ==> !card_in(#[trigger] lists[j], id)) ==> moved_ticket(
            t,
            !was_on(lists, id, to),
            actor,
            dest,
            now,
        ) == (TicketV {
            updated: now,
            activity: t.activity.push(ActivityV { ts: now, actor: actor, kind: "moved"@, detail: dest }),
            ..t
        }),
{
    assert(kind_moved() =~= "moved"@) by {
        reveal_strlit("moved");
    }
    if holds_first(lists, id, i) {
        assert forall|j: int| holds_first(lists, id, j) implies j == i by {
            if j < i {
                assert(!card_in(lists[j], id));
            } else if j > i {
                assert(!card_in(lists[i], id));
            }
        }
    }
}

proof fn lemma_first_card_holds(lists: Seq<ListV>, id: Seq<char>, i: int, k: int)
    requires
        is_first_card(lists, id, i, k),
    ensures
        holds_first(lists, id, i),
        forall|j: int| holds_first(lists, id, j) ==> j == i,
{
    assert(card_in(lists[i], id));
    assert forall|j: int| holds_first(lists, id, j) implies j == i by {
        if j < i {
            assert(!card_in(lists[j], id));
        } else if j > i {
            assert(!card_in(lists[i], id));
        }
    }
}

/// Whether card `id` currently sits first on the list `to`.
fn first_holder_is(lists: &Vec<List>, id: &str, to: &str) -> (r: bool)
    ensures
        r == was_on(views(lists@), id@, to@),
{
    match find_card(lists, id) {
        Some((i, k)) => {
            proof {
                lemma_first_card_holds(views(lists@), id@, i as int, k as int);
            }
            let r = crate::text::same(lists[i].id.as_str(), to);
            proof {
                assert(views(lists@)[i as int] == lists@[i as int]@);
                if r {
                    assert(holds_first(views(lists@), id@, i as int) && views(lists@)[i as int].id == to@);
                }
            }
            r
        },
        None => {
            proof {
                assert forall|j: int| !holds_first(views(lists@), id@, j) by {
                    if 0 <= j < views(lists@).len() {
                        assert(views(lists@)[j] == lists@[j]@);
                    }
                }
            }
            false
        },
    }
}

/// Move a ticket to `to_list` at an optional 0-based `position` (clamped; appended
/// when `None`), taking it off whatever list held it. The ticket is touched, and
/// a `moved` activity naming the destination list is logged when the list changed.
pub fn move_ticket(
    store: &mut Store,
    ticket_id: &str,
    to_list: &str,
    position: Option<usize>,
    actor: &str,
    now: Timestamp,
) -> (r: Result<(), Error>)
    requires
        old(store).wf(),
    ensures
        final(store).wf(),
        ({
            let s = old(store)@;
            let b = s.board;
            if !s.tickets.contains_key(ticket_id@) {
                r matches Err(Error::TicketNotFound(x)) && x@ == ticket_id@ && final(store)@ == s
            } else {
                match first_list_index(b.lists, to_list@) {
                    None => r matches Err(Error::ListNotFound(x)) && x@ == to_list@ && final(store)@ == s,
                    Some(d) => r is Ok && final(store)@ == (StoreV {
                        board: BoardV { lists: moved_lists(b.lists, ticket_id@, d, position), updated: now, ..b },
                        tickets: s.tickets.insert(
                            ticket_id@,
                            moved_ticket(s.tickets[ticket_id@], !was_on(b.lists, ticket_id@, to_list@), actor@, b.lists[d].name, now),
                        ),
                        ..s
                    }),
                }
            }
        }),
{
    let mut ticket = match store.load_ticket(ticket_id) {
        Ok(t) => t,
        Err(e) => return Err(e),
    };
    let mut board = store.load_board();
    let d = match find_list(&board.lists, to_list) {
        Some(d) => {
            proof {
                crate::model::lemma_first_list_index(board@.lists, to_list@, d as int);
            }
            d
        },
        None => {
            proof {
                crate::model::lemma_no_list_index(board@.lists, to_list@);
            }
            return Err(Error::ListNotFound(owned(to_list)));
        },
    };
    let dest_name = board.lists[d].name.clone();
    assert(dest_name@ == board@.lists[d as int].name);
    let stayed = first_holder_is(&board.lists, ticket_id, to_list);
    let ghost b0 = board@;
    strip_lists(&mut board.lists, ticket_id);
    assert(views(board.lists@).len() == board.lists@.len());
    assert(views(board.lists@)[d as int] == board.lists@[d as int]@);
    let p = match position {
        Some(p) => p,
        None => board.lists[d].cards.len(),
    };
    insert_card(&mut board.lists, d, p, ticket_id);
    board.updated = now;
    ticket.updated = now;
    if !stayed {
        proof {
            reveal_strlit("moved");
            assert("moved"@ =~= kind_moved());
        }
        ticket.log_activity(actor, "moved", dest_name.as_str(), now);
    }
    assert(board@ == BoardV { lists: moved_lists(b0.lists, ticket_id@, d as int, position), updated: now, ..b0 });
    proof {
        store.lemma_ids_valid();
    }
    let _ = store.save_ticket(&ticket);
    store.save_board(&board);
    Ok(())
}

/// Delete a ticket and take its card off the board.
pub fn delete_ticket(store: &mut Store, ticket_id: &str, now: Timestamp) -> (r: Result<(), Error>)
    requires
        old(store).wf(),
    ensures
        final(store).wf(),
        !old(store)@.tickets.contains_key(ticket_id@) ==> (r matches Err(Error::TicketNotFound(x))
            && x@ == ticket_id@ && final(store)@ == old(store)@),
        old(store)@.tickets.contains_key(ticket_id@) ==> r is Ok && final(store)@ == (StoreV {
            board: BoardV { lists: strip_card(old(store)@.board.lists, ticket_id@), updated: now, ..old(store)@.board },
            tickets: old(store)@.tickets.remove(ticket_id@),
            ..old(store)@
        }),
{
    match store.delete_ticket(ticket_id) {
        Ok(()) => {},
        Err(e) => return Err(e),
    }
    let mut board = store.load_board();
    strip_lists(&mut board.lists, ticket_id);
    board.updated = now;
    store.save_board(&board);
    Ok(())
}

// ---------------------------------------------------------------------------
// Comments
// ---------------------------------------------------------------------------

/// The key of a comment: its ID.
pub open spec fn comment_key() -> spec_fn(CommentV) -> Seq<char> {
    |c: CommentV| c.id
}

/// "comment `<id>` not found".
pub open spec fn comment_not_found(id: Seq<char>) -> Seq<char> {
    seq!['c', 'o', 'm', 'm', 'e', 'n', 't', ' ', '`'] + id + not_found_tail()
}

fn comment_missing(id: &str) -> (e: Error)
    ensures
        e matches Error::Message(m) && m@ == comment_not_found(id@),
{
    proof {
        reveal_strlit("comment `");
        reveal_strlit("` not found");
    }
    Error::Message(cat3("comment `", id, "` not found"))
}

/// The position of the first comment with ID `id`.
fn comment_pos(cs: &Vec<Comment>, id: &str) -> (r: Option<usize>)
    ensures
        r matches Some(j) ==> j < cs@.len() && first_index(views(cs@), comment_key(), id@) == j,
        r is None ==> first_index(views(cs@), comment_key(), id@) == -1,
{
    let mut j: usize = 0;
    while j < cs.len()
        invariant
            j <= cs@.len(),
            forall|m: int| 0 <= m < j ==> comment_key()(#[trigger] views(cs@)[m]) != id@,
        decreases cs@.len() - j,
    {
        if crate::text::same(cs[j].id.as_str(), id) {
            proof {
                lemma_first_index(views(cs@), comment_key(), id@, j as int);
            }
            return Some(j);
        }
        assert(views(cs@)[j as int] == cs@[j as int]@);
        j = j + 1;
    }
    proof {
        lemma_first_index_none(views(cs@), comment_key(), id@);
    }
    None
}

/// Append a comment to a ticket. Returns the new comment ID.
pub fn add_comment(store: &mut Store, ticket_id: &str, author: &str, body: &str, now: Timestamp) -> (r: Result<String, Error>)
    requires
        old(store).wf(),
        old(store)@.tickets.contains_key(ticket_id@) ==> old(store)@.tickets[ticket_id@].next_comment < u64::MAX,
    ensures
        final(store).wf(),
        !old(store)@.tickets.contains_key(ticket_id@) ==> (r matches Err(Error::TicketNotFound(x))
            && x@ == ticket_id@ && final(store)@ == old(store)@),
        old(store)@.tickets.contains_key(ticket_id@) ==> ({
            let t = old(store)@.tickets[ticket_id@];
            r matches Ok(cid) && cid@ == comment_id_spec(t.next_comment as nat) && final(store)@ == (StoreV {
                tickets: old(store)@.tickets.insert(ticket_id@, TicketV {
                    comments: t.comments.push(CommentV { id: cid@, author: author@, body: body@, created: now, edited: None }),
                    next_comment: (t.next_comment + 1) as u64,
                    updated: now,
                    ..t
                }),
                ..old(store)@
            })
        }),
{
    let mut ticket = match store.load_ticket(ticket_id) {
        Ok(t) => t,
        Err(e) => return Err(e),
    };
    let id = ticket.add_comment(author, body, now);
    proof {
        store.lemma_ids_valid();
    }
    let _ = store.save_ticket(&ticket);
    Ok(id)
}

/// Delete a comment from a ticket by its ID. Errors if the comment is absent.
/// `next_comment` is not decremented, so IDs are never reused.
pub fn delete_comment(store: &mut Store, ticket_id: &str, comment_id: &str, now: Timestamp) -> (r: Result<(), Error>)
    requires
        old(store).wf(),
    ensures
        final(store).wf(),
        !old(store)@.tickets.contains_key(ticket_id@) ==> (r matches Err(Error::TicketNotFound(x))
            && x@ == ticket_id@ && final(store)@ == old(store)@),
        old(store)@.tickets.contains_key(ticket_id@) ==> ({
            let t = old(store)@.tickets[ticket_id@];
            if first_index(t.comments, comment_key(), comment_id@) == -1 {
                r matches Err(Error::Message(m)) && m@ == comment_not_found(comment_id@) && final(store)@ == old(store)@
            } else {
                r is Ok && final(store)@ == (StoreV {
                    tickets: old(store)@.tickets.insert(ticket_id@, TicketV {
                        comments: remove_key(t.comments, comment_key(), comment_id@),
                        updated: now,
                        ..t
                    }),
                    ..old(store)@
                })
            }
        }),
{
    let mut ticket = match store.load_ticket(ticket_id) {
        Ok(t) => t,
        Err(e) => return Err(e),
    };
    if comment_pos(&ticket.comments, comment_id).is_none() {
        return Err(comment_missing(comment_id));
    }
    let ghost cv = views(ticket.comments@);
    let mut kept: Vec<Comment> = Vec::new();
    let mut i: usize = 0;
    while i < ticket.comments.len()
        invariant
            i <= ticket.comments@.len(),
            cv == views(ticket.comments@),
            views(kept@) == remove_key(cv.subrange(0, i as int), comment_key(), comment_id@),
        decreases ticket.comments@.len() - i,
    {
        proof {
            lemma_remove_key_step(cv, comment_key(), comment_id@, i as int);
        }
        let ghost before = kept@;
        if !crate::text::same(ticket.comments[i].id.as_str(), comment_id) {
            kept.push(ticket.comments[i].clone());
            assert(views(kept@) =~= views(before).push(cv[i as int]));
        }
        i = i + 1;
    }
    assert(cv.subrange(0, i as int) =~= cv);
    ticket.comments = kept;
    ticket.updated = now;
    proof {
        store.lemma_ids_valid();
    }
    let _ = store.save_ticket(&ticket);
    Ok(())
}

/// Edit a comment's body in place, stamping it as edited. Errors if the comment
/// is absent.
pub fn edit_comment(store: &mut Store, ticket_id: &str, comment_id: &str, body: &str, now: Timestamp) -> (r: Result<(), Error>)
    requires
        old(store).wf(),
    ensures
        final(store).wf(),
        !old(store)@.tickets.contains_key(ticket_id@) ==> (r matches Err(Error::TicketNotFound(x))
            && x@ == ticket_id@ && final(store)@ == old(store)@),
        old(store)@.tickets.contains_key(ticket_id@) ==> ({
            let t = old(store)@.tickets[ticket_id@];
            let j = first_index(t.comments, comment_key(), comment_id@);
            if j == -1 {
                r matches Err(Error::Message(m)) && m@ == comment_not_found(comment_id@) && final(store)@ == old(store)@
            } else {
                r is Ok && final(store)@ == (StoreV {
                    tickets: old(store)@.tickets.insert(ticket_id@, TicketV {
                        comments: t.comments.update(j, CommentV { body: body@, edited: Some(now), ..t.comments[j] }),
                        updated: now,
                        ..t
                    }),
                    ..old(store)@
                })
            }
        }),
{
    let mut ticket = match store.load_ticket(ticket_id) {
        Ok(t) => t,
        Err(e) => return Err(e),
    };
    let j = match comment_pos(&ticket.comments, comment_id) {
        Some(j) => j,
        None => return Err(comment_missing(comment_id)),
    };
    let c = Comment {
        id: ticket.comments[j].id.clone(),
        author: ticket.comments[j].author.clone(),
        body: owned(body),
        created: ticket.comments[j].created,
        edited: Some(now),
    };
    let ghost before = ticket.comments@;
    ticket.comments.set(j, c);
    assert(views(ticket.comments@) =~= views(before).update(j as int, c@));
    ticket.updated = now;
    proof {
        store.lemma_ids_valid();
    }
    let _ = store.save_ticket(&ticket);
    Ok(())
}

// ---------------------------------------------------------------------------
// Checklist and acceptance criteria
// ---------------------------------------------------------------------------

/// Which tickable list on a ticket an operation targets.
#[derive(Debug, Clone, Copy, PartialEq, Eq, Structural)]
pub enum Checks {
    /// The worker-facing to-do checklist (`ck-<n>` items).
    Checklist,
    /// The acceptance criteria the finished work is checked against (`ac-<n>` items).
    Acceptance,
}

/// The items of the targeted list.
pub open spec fn items_of(t: TicketV, kind: Checks) -> Seq<ChecklistItemV> {
    match kind {
        Checks::Checklist => t.checklist,
        Checks::Acceptance => t.acceptance,
    }
}

/// The ticket with the targeted list replaced by `items`.
pub open spec fn with_items(t: TicketV, kind: Checks, items: Seq<ChecklistItemV>) -> TicketV {
    match kind {
        Checks::Checklist => TicketV { checklist: items, ..t },
        Checks::Acceptance => TicketV { acceptance: items, ..t },
    }
}

/// The counter the targeted list allocates IDs from.
pub open spec fn next_item(t: TicketV, kind: Checks) -> u64 {
    match kind {
        Checks::Checklist => t.next_check,
        Checks::Acceptance => t.next_accept,
    }
}

/// The ID of the `n`-th item of the targeted list.
pub open spec fn item_id_spec(kind: Checks, n: nat) -> Seq<char> {
    match kind {
        Checks::Checklist => checklist_id_spec(n),
        Checks::Acceptance => acceptance_id_spec(n),
    }
}

/// The key of an item: its ID.
pub open spec fn item_key() -> spec_fn(ChecklistItemV) -> Seq<char> {
    |c: ChecklistItemV| c.id
}

/// "<noun> `<id>` not found".
pub open spec fn item_not_found(kind: Checks, id: Seq<char>) -> Seq<char> {
    (match kind {
        Checks::Checklist => seq!['c', 'h', 'e', 'c', 'k', 'l', 'i', 's', 't', ' ', 'i', 't', 'e', 'm', ' ', '`'],
        Checks::Acceptance => seq!['a', 'c', 'c', 'e', 'p', 't', 'a', 'n', 'c', 'e', ' ', 'c', 'r', 'i', 't', 'e', 'r', 'i', 'o', 'n', ' ', '`'],
    }) + id + not_found_tail()
}

fn item_missing(kind: Checks, id: &str) -> (e: Error)
    ensures
        e matches Error::Message(m) && m@ == item_not_found(kind, id@),
{
    proof {
        reveal_strlit("checklist item `");
        reveal_strlit("acceptance criterion `");
        reveal_strlit("` not found");
    }
    match kind {
        Checks::Checklist => Error::Message(cat3("checklist item `", id, "` not found")),
        Checks::Acceptance => Error::Message(cat3("acceptance criterion `", id, "` not found")),
    }
}

/// A copy of the targeted list.
fn take_items(t: &Ticket, kind: Checks) -> (v: Vec<ChecklistItem>)
    ensures
        views(v@) == items_of(t@, kind),
{
    match kind {
        Checks::Checklist => crate::model::clone_exact(&t.checklist),
        Checks::Acceptance => crate::model::clone_exact(&t.acceptance),
    }
}

/// Put `items` in place of the targeted list.
fn put_items(t: &mut Ticket, kind: Checks, items: Vec<ChecklistItem>)
    ensures
        final(t)@ == with_items(old(t)@, kind, views(items@)),
{
    match kind {
        Checks::Checklist => t.checklist = items,
        Checks::Acceptance => t.acceptance = items,
    }
}

/// The position of the first item with ID `id`.
fn item_pos(cs: &Vec<ChecklistItem>, id: &str) -> (r: Option<usize>)
    ensures
        r matches Some(j) ==> j < cs@.len() && first_index(views(cs@), item_key(), id@) == j,
        r is None ==> first_index(views(cs@), item_key(), id@) == -1,
{
    let mut j: usize = 0;
    while j < cs.len()
        invariant
            j <= cs@.len(),
            forall|m: int| 0 <= m < j ==> item_key()(#[trigger] views(cs@)[m]) != id@,
        decreases cs@.len() - j,
    {
        if crate::text::same(cs[j].id.as_str(), id) {
            proof {
                lemma_first_index(views(cs@), item_key(), id@, j as int);
            }
            return Some(j);
        }
        assert(views(cs@)[j as int] == cs@[j as int]@);
        j = j + 1;
    }
    proof {
        lemma_first_index_none(views(cs@), item_key(), id@);
    }
    None
}

/// The store after replacing ticket `id` with `t`.
pub open spec fn with_ticket(s: StoreV, id: Seq<char>, t: TicketV) -> StoreV {
    StoreV { tickets: s.tickets.insert(id, t), ..s }
}

/// Append an item to a ticket's checklist or acceptance criteria. Returns the
/// new item's ID.
pub fn checks_add(store: &mut Store, kind: Checks, ticket_id: &str, text: &str, now: Timestamp) -> (r: Result<String, Error>)
    requires
        old(store).wf(),
        old(store)@.tickets.contains_key(ticket_id@) ==> next_item(old(store)@.tickets[ticket_id@], kind) < u64::MAX,
    ensures
        final(store).wf(),
        !old(store)@.tickets.contains_key(ticket_id@) ==> (r matches Err(Error::TicketNotFound(x))
            && x@ == ticket_id@ && final(store)@ == old(store)@),
        old(store)@.tickets.contains_key(ticket_id@) ==> ({
            let t = old(store)@.tickets[ticket_id@];
            let n = next_item(t, kind);
            let t2 = with_items(t, kind, items_of(t, kind).push(ChecklistItemV { id: item_id_spec(kind, n as nat), text: text@, done: false }));
            r matches Ok(id) && id@ == item_id_spec(kind, n as nat) && final(store)@ == with_ticket(old(store)@, ticket_id@, match kind {
                Checks::Checklist => TicketV { next_check: (n + 1) as u64, updated: now, ..t2 },
                Checks::Acceptance => TicketV { next_accept: (n + 1) as u64, updated: now, ..t2 },
            })
        }),
{
    let mut ticket = match store.load_ticket(ticket_id) {
        Ok(t) => t,
        Err(e) => return Err(e),
    };
    let id = match kind {
        Checks::Checklist => ticket.add_checklist_item(text, now),
        Checks::Acceptance => ticket.add_acceptance_item(text, now),
    };
    proof {
        store.lemma_ids_valid();
    }
    let _ = store.save_ticket(&ticket);
    Ok(id)
}

/// Set an item's checked state; `done = None` toggles it. Returns the new state.
pub fn checks_set(
    store: &mut Store,
    kind: Checks,
    ticket_id: &str,
    item_id: &str,
    done: Option<bool>,
    now: Timestamp,
) -> (r: Result<bool, Error>)
    requires
        old(store).wf(),
    ensures
        final(store).wf(),
        !old(store)@.tickets.contains_key(ticket_id@) ==> (r matches Err(Error::TicketNotFound(x))
            && x@ == ticket_id@ && final(store)@ == old(store)@),
        old(store)@.tickets.contains_key(ticket_id@) ==> ({
            let t = old(store)@.tickets[ticket_id@];
            let items = items_of(t, kind);
            let j = first_index(items, item_key(), item_id@);
            if j == -1 {
                r matches Err(Error::Message(m)) && m@ == item_not_found(kind, item_id@) && final(store)@ == old(store)@
            } else {
                let d = match done {
                    Some(d) => d,
                    None => !items[j].done,
                };
                r == Ok::<bool, Error>(d) && final(store)@ == with_ticket(old(store)@, ticket_id@, TicketV {
                    updated: now,
                    ..with_items(t, kind, items.update(j, ChecklistItemV { done: d, ..items[j] }))
                })
            }
        }),
{
    let mut ticket = match store.load_ticket(ticket_id) {
        Ok(t) => t,
        Err(e) => return Err(e),
    };
    let mut items = take_items(&ticket, kind);
    let j = match item_pos(&items, item_id) {
        Some(j) => j,
        None => return Err(item_missing(kind, item_id)),
    };
    let d = match done {
        Some(d) => d,
        None => !items[j].done,
    };
    let c = ChecklistItem { id: items[j].id.clone(), text: items[j].text.clone(), done: d };
    let ghost before = items@;
    assert(views(before)[j as int] == before[j as int]@);
    items.set(j, c);
    assert(views(items@) =~= views(before).update(j as int, c@));
    put_items(&mut ticket, kind, items);
    ticket.updated = now;
    proof {
        store.lemma_ids_valid();
    }
    let _ = store.save_ticket(&ticket);
    Ok(d)
}

/// Edit an item's text.
pub fn checks_edit(
    store: &mut Store,
    kind: Checks,
    ticket_id: &str,
    item_id: &str,
    text: &str,
    now: Timestamp,
) -> (r: Result<(), Error>)
    requires
        old(store).wf(),
    ensures
        final(store).wf(),
        !old(store)@.tickets.contains_key(ticket_id@) ==> (r matches Err(Error::TicketNotFound(x))
            && x@ == ticket_id@ && final(store)@ == old(store)@),
        old(store)@.tickets.contains_key(ticket_id@) ==> ({
            let t = old(store)@.tickets[ticket_id@];
            let items = items_of(t, kind);
            let j = first_index(items, item_key(), item_id@);
            if j == -1 {
                r matches Err(Error::Message(m)) && m@ == item_not_found(kind, item_id@) && final(store)@ == old(store)@
            } else {
                r is Ok && final(store)@ == with_ticket(old(store)@, ticket_id@, TicketV {
                    updated: now,
                    ..with_items(t, kind, items.update(j, ChecklistItemV { text: text@, ..items[j] }))
                })
            }
        }),
{
    let mut ticket = match store.load_ticket(ticket_id) {
        Ok(t) => t,
        Err(e) => return Err(e),
    };
    let mut items = take_items(&ticket, kind);
    let j = match item_pos(&items, item_id) {
        Some(j) => j,
        None => return Err(item_missing(kind, item_id)),
    };
    let c = ChecklistItem { id: items[j].id.clone(), text: owned(text), done: items[j].done };
    let ghost before = items@;
    assert(views(before)[j as int] == before[j as int]@);
    items.set(j, c);
    assert(views(items@) =~= views(before).update(j as int, c@));
    put_items(&mut ticket, kind, items);
    ticket.updated = now;
    proof {
        store.lemma_ids_valid();
    }
    let _ = store.save_ticket(&ticket);
    Ok(())
}

/// Remove an item.
pub fn checks_remove(store: &mut Store, kind: Checks, ticket_id: &str, item_id: &str, now: Timestamp) -> (r: Result<(), Error>)
    requires
        old(store).wf(),
    ensures
        final(store).wf(),
        !old(store)@.tickets.contains_key(ticket_id@) ==> (r matches Err(Error::TicketNotFound(x))
            && x@ == ticket_id@ && final(store)@ == old(store)@),
        old(store)@.tickets.contains_key(ticket_id@) ==> ({
            let t = old(store)@.tickets[ticket_id@];
            let items = items_of(t, kind);
            if first_index(items, item_key(), item_id@) == -1 {
                r matches Err(Error::Message(m)) && m@ == item_not_found(kind, item_id@) && final(store)@ == old(store)@
            } else {
                r is Ok && final(store)@ == with_ticket(old(store)@, ticket_id@, TicketV {
                    updated: now,
                    ..with_items(t, kind, remove_key(items, item_key(), item_id@))
                })
            }
        }),
{
    let mut ticket = match store.load_ticket(ticket_id) {
        Ok(t) => t,
        Err(e) => return Err(e),
    };
    let items = take_items(&ticket, kind);
    if item_pos(&items, item_id).is_none() {
        return Err(item_missing(kind, item_id));
    }
    let ghost cv = views(items@);
    let mut kept: Vec<ChecklistItem> = Vec::new();
    let mut i: usize = 0;
    while i < items.len()
        invariant
            i <= items@.len(),
            cv == views(items@),
            views(kept@) == remove_key(cv.subrange(0, i as int), item_key(), item_id@),
        decreases items@.len() - i,
    {
        proof {
            lemma_remove_key_step(cv, item_key(), item_id@, i as int);
        }
        let ghost before = kept@;
        if !crate::text::same(items[i].id.as_str(), item_id) {
            kept.push(items[i].clone());
            assert(views(kept@) =~= views(before).push(cv[i as int]));
        }
        i = i + 1;
    }
    assert(cv.subrange(0, i as int) =~= cv);
    put_items(&mut ticket, kind, kept);
    ticket.updated = now;
    proof {
        store.lemma_ids_valid();
    }
    let _ = store.save_ticket(&ticket);
    Ok(())
}

/// Move an item to a new 0-based position (clamped to the list length).
#[verifier::rlimit(30)]
pub fn checks_move(
    store: &mut Store,
    kind: Checks,
    ticket_id: &str,
    item_id: &str,
    index: usize,
    now: Timestamp,
) -> (r: Result<(), Error>)
    requires
        old(store).wf(),
    ensures
        final(store).wf(),
        !old(store)@.tickets.contains_key(ticket_id@) ==> (r matches Err(Error::TicketNotFound(x))
            && x@ == ticket_id@ && final(store)@ == old(store)@),
        old(store)@.tickets.contains_key(ticket_id@) ==> ({
            let t = old(store)@.tickets[ticket_id@];
            let items = items_of(t, kind);
            let j = first_index(items, item_key(), item_id@);
            if j == -1 {
                r matches Err(Error::Message(m)) && m@ == item_not_found(kind, item_id@) && final(store)@ == old(store)@
            } else {
                let rest = items.remove(j);
                r is Ok && final(store)@ == with_ticket(old(store)@, ticket_id@, TicketV {
                    updated: now,
                    ..with_items(t, kind, rest.insert(clamp(index as int, rest.len() as int), items[j]))
                })
            }
        }),
{
    let mut ticket = match store.load_ticket(ticket_id) {
        Ok(t) => t,
        Err(e) => return Err(e),
    };
    let mut items = take_items(&ticket, kind);
    let j = match item_pos(&items, item_id) {
        Some(j) => j,
        None => return Err(item_missing(kind, item_id)),
    };
    let ghost before = items@;
    assert(views(before)[j as int] == before[j as int]@);
    let item = items.remove(j);
    assert(views(items@) =~= views(before).remove(j as int));
    let to = if index < items.len() {
        index
    } else {
        items.len()
    };
    let ghost mid = items@;
    items.insert(to, item);
    assert(views(items@) =~= views(mid).insert(to as int, item@));
    put_items(&mut ticket, kind, items);
    ticket.updated = now;
    proof {
        store.lemma_ids_valid();
    }
    let _ = store.save_ticket(&ticket);
    Ok(())
}

// ---------------------------------------------------------------------------
// Lists
// ---------------------------------------------------------------------------

/// `<base>-<n>`.
pub open spec fn suffixed(base: Seq<char>, n: nat) -> Seq<char> {
    base + seq!['-'] + decimal(n)
}

/// Some list has ID `id`.
pub open spec fn taken(lists: Seq<ListV>, id: Seq<char>) -> bool {
    exists|j: int| 0 <= j < lists.len() && lists[j].id == id
}

/// The ID a new list named with slug `base` gets: the slug itself when free,
/// else `<base>-<n>` for the least `n >= 2` that is free.
pub open spec fn fresh_list_id(lists: Seq<ListV>, base: Seq<char>) -> Seq<char> {
    if !taken(lists, base) {
        base
    } else {
        suffixed(
            base,
            choose|n: nat|
                n >= 2 && !taken(lists, suffixed(base, n)) && forall|m: nat|
                    2 <= m < n ==> taken(lists, #[trigger] suffixed(base, m)),
        )
    }
}

proof fn lemma_suffixed_injective(base: Seq<char>, a: nat, b: nat)
    requires
        suffixed(base, a) == suffixed(base, b),
    ensures
        a == b,
{
    let n = base.len() + 1;
    assert(suffixed(base, a).subrange(n as int, suffixed(base, a).len() as int) =~= decimal(a));
    assert(suffixed(base, b).subrange(n as int, suffixed(base, b).len() as int) =~= decimal(b));
    crate::text::lemma_decimal_injective(a, b);
}

/// If the suffixes `2..n` are all taken, there are at least `n - 2` lists.
proof fn lemma_taken_bound(lists: Seq<ListV>, base: Seq<char>, n: int)
    requires
        n >= 2,
        forall|m: nat| 2 <= m < n ==> taken(lists, #[trigger] suffixed(base, m)),
    ensures
        n - 2 <= lists.len(),
{
    let ids = lists.map_values(|l: ListV| l.id);
    let big = ids.to_set();
    ids.lemma_cardinality_of_set();
    vstd::seq_lib::seq_to_set_is_finite(ids);
    let r = set_int_range(2, n);
    lemma_int_range(2, n);
    let f = |m: int| suffixed(base, m as nat);
    assert(vstd::relations::injective_on(f, r)) by {
        assert forall|a: int, b: int| r.contains(a) && r.contains(b) && #[trigger] f(a) == #[trigger] f(b) implies a == b by {
            lemma_suffixed_injective(base, a as nat, b as nat);
        }
    }
    let y = r.map(f);
    lemma_map_size(r, y, f);
    assert(y.subset_of(big)) by {
        assert forall|x: Seq<char>| y.contains(x) implies big.contains(x) by {
            let m = choose|m: int| r.contains(m) && f(m) == x;
            assert(taken(lists, suffixed(base, m as nat)));
            let j = choose|j: int| 0 <= j < lists.len() && lists[j].id == suffixed(base, m as nat);
            assert(ids[j] == x);
            assert(ids.contains(x));
        }
    }
    lemma_len_subset(y, big);
}

proof fn lemma_fresh(lists: Seq<ListV>, base: Seq<char>, n: nat)
    requires
        taken(lists, base),
        n >= 2,
        !taken(lists, suffixed(base, n)),
        forall|m: nat| 2 <= m < n ==> taken(lists, #[trigger] suffixed(base, m)),
    ensures
        fresh_list_id(lists, base) == suffixed(base, n),
{
    let c = choose|c: nat|
        c >= 2 && !taken(lists, suffixed(base, c)) && forall|m: nat| 2 <= m < c ==> taken(lists, #[trigger] suffixed(base, m));
    assert(n >= 2 && !taken(lists, suffixed(base, n)) && forall|m: nat| 2 <= m < n ==> taken(lists, #[trigger] suffixed(base, m)));
    if c < n {
        assert(taken(lists, suffixed(base, c)));
    } else if c > n {
        assert(taken(lists, suffixed(base, n)));
    }
}

/// Whether a list with ID `id` exists.
fn list_taken(lists: &Vec<List>, id: &str) -> (r: bool)
    ensures
        r == taken(views(lists@), id@),
{
    match find_list(lists, id) {
        Some(i) => {
            assert(views(lists@)[i as int] == lists@[i as int]@);
            true
        },
        None => {
            assert forall|j: int| 0 <= j < views(lists@).len() implies views(lists@)[j].id != id@ by {
                assert(views(lists@)[j] == lists@[j]@);
            }
            false
        },
    }
}

/// Add a new list to the end of the board. Its ID is the slug of its name, made
/// unique with a `-2`, `-3`, ... suffix. Returns the new list's ID.
pub fn add_list(store: &mut Store, name: &str, now: Timestamp) -> (r: Result<String, Error>)
    requires
        old(store).wf(),
        old(store)@.board.lists.len() < u64::MAX - 2,
    ensures
        final(store).wf(),
        ({
            let b = old(store)@.board;
            let id = fresh_list_id(b.lists, slug_spec(name@));
            r matches Ok(x) && x@ == id && final(store)@ == with_board(old(store)@, BoardV {
                lists: b.lists.push(ListV { id: id, name: name@, color: None, wip_limit: None, cards: Seq::empty() }),
                updated: now,
                ..b
            })
        }),
{
    let mut board = store.load_board();
    let ghost b0 = board@;
    let base = slug(name);
    let mut id = base.clone();
    if list_taken(&board.lists, base.as_str()) {
        proof {
            reveal_strlit("-");
        }
        let prefix = cat(base.as_str(), "-");
        let mut n: u64 = 2;
        loop
            invariant
                board@ == b0,
                b0.lists == views(board.lists@),
                b0.lists.len() < u64::MAX - 2,
                prefix@ == base@ + seq!['-'],
                taken(b0.lists, base@),
                2 <= n,
                n - 2 <= b0.lists.len(),
                forall|m: nat| 2 <= m < n ==> taken(b0.lists, #[trigger] suffixed(base@, m)),
            ensures
                id@ == fresh_list_id(b0.lists, base@),
            decreases b0.lists.len() + 2 - n,
        {
            let candidate = with_number(prefix.as_str(), n);
            assert(candidate@ == suffixed(base@, n as nat));
            if !list_taken(&board.lists, candidate.as_str()) {
                proof {
                    lemma_fresh(b0.lists, base@, n as nat);
                }
                id = candidate;
                break;
            }
            proof {
                assert forall|m: nat| 2 <= m < n + 1 implies taken(b0.lists, #[trigger] suffixed(base@, m)) by {
                    if m == n {
                    }
                }
                lemma_taken_bound(b0.lists, base@, n + 1);
            }
            n = n + 1;
        }
    }
    let mut list = List::new(name);
    list.id = id.clone();
    let ghost before = board.lists@;
    board.lists.push(list);
    assert(views(board.lists@) =~= views(before).push(list@));
    assert(texts(list.cards@) =~= Seq::empty());
    board.updated = now;
    store.save_board(&board);
    Ok(id)
}

/// The tickets whose IDs are in `cards`.
pub open spec fn card_set(cards: Seq<Seq<char>>) -> Set<Seq<char>> {
    Set::new(|c: Seq<char>| cards.contains(c))
}

/// "list `<id>` still holds <n> ticket(s); pass --force to delete them too".
pub open spec fn list_nonempty_msg(id: Seq<char>, n: nat) -> Seq<char> {
    seq!['l', 'i', 's', 't', ' ', '`'] + id + seq!['`', ' ', 's', 't', 'i', 'l', 'l', ' ', 'h', 'o', 'l', 'd', 's', ' ']
        + decimal(n) + seq![' ', 't', 'i', 'c', 'k', 'e', 't', '(', 's', ')', ';', ' ', 'p', 'a', 's', 's', ' ', '-', '-', 'f',
        'o', 'r', 'c', 'e', ' ', 't', 'o', ' ', 'd', 'e', 'l', 'e', 't', 'e', ' ', 't', 'h', 'e', 'm', ' ', 't', 'o', 'o']
}

/// Remove a list. Fails if the list still holds cards, unless `force` is set, in
/// which case the tickets on it are deleted too.
pub fn remove_list(store: &mut Store, list_id: &str, force: bool, now: Timestamp) -> (r: Result<(), Error>)
    requires
        old(store).wf(),
    ensures
        final(store).wf(),
        ({
            let s = old(store)@;
            let b = s.board;
            match first_list_index(b.lists, list_id@) {
                None => r matches Err(Error::ListNotFound(x)) && x@ == list_id@ && final(store)@ == s,
                Some(i) => if b.lists[i].cards.len() > 0 && !force {
                    r matches Err(Error::Message(m)) && m@ == list_nonempty_msg(list_id@, b.lists[i].cards.len())
                        && final(store)@ == s
                } else {
                    r is Ok && final(store)@ == (StoreV {
                        board: BoardV { lists: b.lists.remove(i), updated: now, ..b },
                        tickets: s.tickets.remove_keys(card_set(b.lists[i].cards)),
                        ..s
                    })
                },
            }
        }),
{
    let mut board = store.load_board();
    let idx = match find_list(&board.lists, list_id) {
        Some(i) => {
            proof {
                crate::model::lemma_first_list_index(board@.lists, list_id@, i as int);
            }
            i
        },
        None => {
            proof {
                crate::model::lemma_no_list_index(board@.lists, list_id@);
            }
            return Err(Error::ListNotFound(owned(list_id)));
        },
    };
    assert(board@.lists[idx as int] == board.lists@[idx as int]@);
    let cards = crate::model::clone_strings(&board.lists[idx].cards);
    if cards.len() > 0 && !force {
        proof {
            reveal_strlit("list `");
            reveal_strlit("` still holds ");
            reveal_strlit(" ticket(s); pass --force to delete them too");
        }
        let head = cat3("list `", list_id, "` still holds ");
        let count = decimal_string(cards.len() as u64);
        let msg = cat3(head.as_str(), count.as_str(), " ticket(s); pass --force to delete them too");
        return Err(Error::Message(msg));
    }
    let ghost s0 = store@;
    let ghost cv = texts(cards@);
    assert(card_set(cv.subrange(0, 0)) =~= Set::<Seq<char>>::empty());
    assert(s0.tickets.remove_keys(Set::<Seq<char>>::empty()) =~= s0.tickets);
    let mut k: usize = 0;
    while k < cards.len()
        invariant
            store.wf(),
            k <= cards@.len(),
            cv == texts(cards@),
            store@ == (StoreV { tickets: s0.tickets.remove_keys(card_set(cv.subrange(0, k as int))), ..s0 }),
        decreases cards@.len() - k,
    {
        let ghost before = store@;
        let _ = store.delete_ticket(cards[k].as_str());
        proof {
            let p1 = cv.subrange(0, k + 1);
            let p0 = cv.subrange(0, k as int);
            assert(card_set(p1) =~= card_set(p0).insert(cv[k as int])) by {
                assert forall|c: Seq<char>| #[trigger] p1.contains(c) <==> p0.contains(c) || c == cv[k as int] by {
                    if p1.contains(c) {
                        let j = choose|j: int| 0 <= j < p1.len() && p1[j] == c;
                        if j < k {
                            assert(p0[j] == c);
                        }
                    }
                    if p0.contains(c) {
                        let j = choose|j: int| 0 <= j < p0.len() && p0[j] == c;
                        assert(p1[j] == c);
                    }
                    if c == cv[k as int] {
                        assert(p1[k as int] == c);
                    }
                }
            }
            assert(store@.tickets =~= s0.tickets.remove_keys(card_set(cv.subrange(0, k + 1))));
        }
        k = k + 1;
    }
    assert(cv.subrange(0, k as int) =~= cv);
    let ghost before = board.lists@;
    board.lists.remove(idx);
    assert(views(board.lists@) =~= views(before).remove(idx as int));
    board.updated = now;
    store.save_board(&board);
    Ok(())
}

/// Reorder a list to a new 0-based index (clamped).
pub fn move_list(store: &mut Store, list_id: &str, to_index: usize, now: Timestamp) -> (r: Result<(), Error>)
    requires
        old(store).wf(),
    ensures
        final(store).wf(),
        ({
            let b = old(store)@.board;
            match first_list_index(b.lists, list_id@) {
                None => r matches Err(Error::ListNotFound(x)) && x@ == list_id@ && final(store)@ == old(store)@,
                Some(i) => {
                    let rest = b.lists.remove(i);
                    r is Ok && final(store)@ == with_board(old(store)@, BoardV {
                        lists: rest.insert(clamp(to_index as int, rest.len() as int), b.lists[i]),
                        updated: now,
                        ..b
                    })
                },
            }
        }),
{
    let mut board = store.load_board();
    let from = match find_list(&board.lists, list_id) {
        Some(i) => {
            proof {
                crate::model::lemma_first_list_index(board@.lists, list_id@, i as int);
            }
            i
        },
        None => {
            proof {
                crate::model::lemma_no_list_index(board@.lists, list_id@);
            }
            return Err(Error::ListNotFound(owned(list_id)));
        },
    };
    let ghost before = board.lists@;
    assert(views(before)[from as int] == before[from as int]@);
    let list = board.lists.remove(from);
    assert(views(board.lists@) =~= views(before).remove(from as int));
    let to = if to_index < board.lists.len() {
        to_index
    } else {
        board.lists.len()
    };
    let ghost mid = board.lists@;
    board.lists.insert(to, list);
    assert(views(board.lists@) =~= views(mid).insert(to as int, list@));
    board.updated = now;
    store.save_board(&board);
    Ok(())
}

/// Rename a list's display name (its ID stays stable).
pub fn rename_list(store: &mut Store, list_id: &str, name: &str, now: Timestamp) -> (r: Result<(), Error>)
    requires
        old(store).wf(),
    ensures
        final(store).wf(),
        ({
            let b = old(store)@.board;
            match first_list_index(b.lists, list_id@) {
                None => r matches Err(Error::ListNotFound(x)) && x@ == list_id@ && final(store)@ == old(store)@,
                Some(i) => r is Ok && final(store)@ == with_board(old(store)@, BoardV {
                    lists: b.lists.update(i, ListV { name: name@, ..b.lists[i] }),
                    updated: now,
                    ..b
                }),
            }
        }),
{
    let mut board = store.load_board();
    let i = match find_list(&board.lists, list_id) {
        Some(i) => {
            proof {
                crate::model::lemma_first_list_index(board@.lists, list_id@, i as int);
            }
            i
        },
        None => {
            proof {
                crate::model::lemma_no_list_index(board@.lists, list_id@);
            }
            return Err(Error::ListNotFound(owned(list_id)));
        },
    };
    let mut l = board.lists[i].clone();
    l.name = owned(name);
    let ghost before = board.lists@;
    board.lists.set(i, l);
    assert(views(board.lists@) =~= views(before).update(i as int, l@));
    board.updated = now;
    store.save_board(&board);
    Ok(())
}

/// The stored tickets among `cards`, in card order (dangling IDs skipped).
pub open spec fn present(cards: Seq<Seq<char>>, m: Map<Seq<char>, TicketV>) -> Seq<TicketV>
    decreases cards.len(),
{
    if cards.len() == 0 {
        Seq::empty()
    } else {
        let rest = present(cards.drop_last(), m);
        if m.contains_key(cards.last()) {
            rest.push(m[cards.last()])
        } else {
            rest
        }
    }
}

/// The whole board as an ordered sequence of `(list_id, tickets)`, skipping
/// card IDs that have no ticket.
pub fn board_view(store: &Store) -> (r: (Board, Vec<(String, Vec<Ticket>)>))
    requires
        store.wf(),
    ensures
        r.0@ == store@.board,
        r.1@.len() == store@.board.lists.len(),
        forall|i: int| 0 <= i < r.1@.len() ==> (#[trigger] r.1@[i]).0@ == store@.board.lists[i].id
            && views(r.1@[i].1@) == present(store@.board.lists[i].cards, store@.tickets),
{
    let board = store.load_board();
    let mut out: Vec<(String, Vec<Ticket>)> = Vec::new();
    let mut i: usize = 0;
    while i < board.lists.len()
        invariant
            store.wf(),
            board@ == store@.board,
            i <= board.lists@.len(),
            out@.len() == i,
            forall|k: int| 0 <= k < i ==> (#[trigger] out@[k]).0@ == store@.board.lists[k].id
                && views(out@[k].1@) == present(store@.board.lists[k].cards, store@.tickets),
        decreases board.lists@.len() - i,
    {
        assert(board@.lists[i as int] == board.lists@[i as int]@);
        let ghost cv = board@.lists[i as int].cards;
        let mut tickets: Vec<Ticket> = Vec::new();
        let mut k: usize = 0;
        while k < board.lists[i].cards.len()
            invariant
                store.wf(),
                board@ == store@.board,
                i < board.lists@.len(),
                cv == texts(board.lists@[i as int].cards@),
                k <= cv.len(),
                views(tickets@) == present(cv.subrange(0, k as int), store@.tickets),
            decreases cv.len() - k,
        {
            assert(cv.subrange(0, k + 1).drop_last() =~= cv.subrange(0, k as int));
            let ghost before = tickets@;
            match store.load_ticket(board.lists[i].cards[k].as_str()) {
                Ok(t) => {
                    tickets.push(t);
                    assert(views(tickets@) =~= views(before).push(t@));
                },
                Err(_) => {},
            }
            k = k + 1;
        }
        assert(cv.subrange(0, k as int) =~= cv);
        out.push((board.lists[i].id.clone(), tickets));
        i = i + 1;
    }
    (board, out)
}

// ---------------------------------------------------------------------------
// Patching tickets
// ---------------------------------------------------------------------------

/// A partial update to a ticket. `None` fields are left unchanged. For `priority`,
/// an inner `None` clears the value.
#[derive(Debug)]
pub struct TicketPatch {
    /// New title.
    pub title: Option<String>,
    /// New body.
    pub body: Option<String>,
    /// Set or clear the priority.
    pub priority: Option<Option<String>>,
    /// Replace the label set.
    pub labels: Option<Vec<String>>,
    /// Replace the assignee set.
    pub assignees: Option<Vec<String>>,
}

impl Default for TicketPatch {
    fn default() -> (p: Self)
        ensures
            p.title is None,
            p.body is None,
            p.priority is None,
            p.labels is None,
            p.assignees is None,
    {
        TicketPatch { title: None, body: None, priority: None, labels: None, assignees: None }
    }
}

/// The elements of `a` (in order, with repeats) that `b` does not contain.
pub open spec fn not_in(a: Seq<Seq<char>>, b: Seq<Seq<char>>) -> Seq<Seq<char>>
    decreases a.len(),
{
    if a.len() == 0 {
        Seq::empty()
    } else {
        let rest = not_in(a.drop_last(), b);
        if b.contains(a.last()) {
            rest
        } else {
            rest.push(a.last())
        }
    }
}

/// One activity entry of kind `kind` per item, each item as its detail.
pub open spec fn log_each(items: Seq<Seq<char>>, actor: Seq<char>, kind: Seq<char>, now: Timestamp) -> Seq<ActivityV> {
    Seq::new(items.len(), |i: int| ActivityV { ts: now, actor: actor, kind: kind, detail: items[i] })
}

/// The activity entry `kind` with `detail`.
pub open spec fn act(actor: Seq<char>, kind: Seq<char>, detail: Seq<char>, now: Timestamp) -> ActivityV {
    ActivityV { ts: now, actor: actor, kind: kind, detail: detail }
}

/// Apply the title of a patch.
pub open spec fn patch_title(t: TicketV, v: Option<String>, actor: Seq<char>, now: Timestamp) -> TicketV {
    match v {
        Some(v) => TicketV {
            title: v@,
            activity: if v@ != t.title { t.activity.push(act(actor, "renamed"@, v@, now)) } else { t.activity },
            ..t
        },
        None => t,
    }
}

/// Apply the body of a patch.
pub open spec fn patch_body(t: TicketV, v: Option<String>, actor: Seq<char>, now: Timestamp) -> TicketV {
    match v {
        Some(v) => TicketV {
            body: v@,
            activity: if v@ != t.body { t.activity.push(act(actor, "edited"@, ""@, now)) } else { t.activity },
            ..t
        },
        None => t,
    }
}

/// Apply the priority of a patch.
pub open spec fn patch_priority(t: TicketV, v: Option<Option<String>>, actor: Seq<char>, now: Timestamp) -> TicketV {
    match v {
        Some(v) => TicketV {
            priority: opt_text(v),
            activity: if opt_text(v) != t.priority {
                t.activity.push(act(actor, "priority"@, match v { Some(p) => p@, None => ""@ }, now))
            } else {
                t.activity
            },
            ..t
        },
        None => t,
    }
}

/// Apply the labels of a patch.
pub open spec fn patch_labels(t: TicketV, v: Option<Vec<String>>, actor: Seq<char>, now: Timestamp) -> TicketV {
    match v {
        Some(v) => TicketV {
            labels: texts(v@),
            activity: t.activity + log_each(not_in(texts(v@), t.labels), actor, "label-added"@, now)
                + log_each(not_in(t.labels, texts(v@)), actor, "label-removed"@, now),
            ..t
        },
        None => t,
    }
}

/// Apply the assignees of a patch.
pub open spec fn patch_assignees(t: TicketV, v: Option<Vec<String>>, actor: Seq<char>, now: Timestamp) -> TicketV {
    match v {
        Some(v) => TicketV {
            assignees: texts(v@),
            activity: t.activity + log_each(not_in(texts(v@), t.assignees), actor, "assigned"@, now)
                + log_each(not_in(t.assignees, texts(v@)), actor, "unassigned"@, now),
            ..t
        },
        None => t,
    }
}

/// A ticket after a patch: title, body, priority, labels then assignees, each
/// change logged, and the ticket touched.
pub open spec fn patched(t: TicketV, p: TicketPatch, actor: Seq<char>, now: Timestamp) -> TicketV {
    TicketV {
        updated: now,
        ..patch_assignees(
            patch_labels(
                patch_priority(patch_body(patch_title(t, p.title, actor, now), p.body, actor, now), p.priority, actor, now),
                p.labels,
                actor,
                now,
            ),
            p.assignees,
            actor,
            now,
        )
    }
}

/// What an update does to a ticket: each field the patch sets takes the
/// patch's value (a priority of `None` clears it), every field it leaves out
/// keeps its value, the ticket is touched at `now`, and the changes are only
/// appended to its activity log.
pub proof fn law_update_ticket_applies_patch(t: TicketV, p: TicketPatch, actor: Seq<char>, now: Timestamp)
    ensures
        ({
            let r = patched(t, p, actor, now);
            &&& r == (TicketV {
                title: match p.title {
                    Some(v) => v@,
                    None => t.title,
                },
                body: match p.body {
                    Some(v) => v@,
                    None => t.body,
                },
                priority: match p.priority {
                    Some(v) => opt_text(v),
                    None => t.priority,
                },
                labels: match p.labels {
                    Some(v) => texts(v@),
                    None => t.labels,
                },
                assignees: match p.assignees {
                    Some(v) => texts(v@),
                    None => t.assignees,
                },
                updated: now,
                activity: r.activity,
                ..t
            })
            &&& t.activity.len() <= r.activity.len()
            &&& r.activity.subrange(0, t.activity.len() as int) == t.activity
            &&& match p.title {
                Some(v) => v@ != t.title ==> r.activity.contains(ActivityV { ts: now, actor: actor, kind: "renamed"@, detail: v@ }),
                None => true,
            }
            &&& match p.body {
                Some(v) => v@ != t.body ==> r.activity.contains(ActivityV { ts: now, actor: actor, kind: "edited"@, detail: ""@ }),
                None => true,
            }
        }),
{
    let a = patch_title(t, p.title, actor, now);
    let b = patch_body(a, p.body, actor, now);
    let c = patch_priority(b, p.priority, actor, now);
    let d = patch_labels(c, p.labels, actor, now);
    let e = patch_assignees(d, p.assignees, actor, now);
    assert(a.activity.subrange(0, t.activity.len() as int) =~= t.activity);
    assert(b.activity.subrange(0, t.activity.len() as int) =~= t.activity);
    assert(c.activity.subrange(0, t.activity.len() as int) =~= t.activity);
    assert(d.activity.subrange(0, t.activity.len() as int) =~= t.activity);
    assert(e.activity.subrange(0, t.activity.len() as int) =~= t.activity);
    assert(e.activity.subrange(0, a.activity.len() as int) =~= a.activity);
    assert(e.activity.subrange(0, b.activity.len() as int) =~= b.activity);
    if let Some(v) = p.title {
        if v@ != t.title {
            let x = ActivityV { ts: now, actor: actor, kind: "renamed"@, detail: v@ };
            assert(a.activity[t.activity.len() as int] == x);
            assert(e.activity.subrange(0, a.activity.len() as int)[t.activity.len() as int] == x);
            assert(e.activity[t.activity.len() as int] == x);
        }
    }
    if let Some(v) = p.body {
        if v@ != a.body {
            let x = ActivityV { ts: now, actor: actor, kind: "edited"@, detail: ""@ };
            assert(b.activity[a.activity.len() as int] == x);
            assert(e.activity.subrange(0, b.activity.len() as int)[a.activity.len() as int] == x);
            assert(e.activity[a.activity.len() as int] == x);
        }
    }
}

/// Whether `v` holds the string `x`.
pub fn contains_text(v: &Vec<String>, x: &str) -> (r: bool)
    ensures
        r == texts(v@).contains(x@),
{
    let mut i: usize = 0;
    while i < v.len()
        invariant
            i <= v@.len(),
            forall|k: int| 0 <= k < i ==> (#[trigger] texts(v@)[k]) != x@,
        decreases v@.len() - i,
    {
        if crate::text::same(v[i].as_str(), x) {
            assert(texts(v@)[i as int] == x@);
            return true;
        }
        i = i + 1;
    }
    false
}

/// The elements of `a` that `b` does not hold.
fn not_in_vec(a: &Vec<String>, b: &Vec<String>) -> (r: Vec<String>)
    ensures
        texts(r@) == not_in(texts(a@), texts(b@)),
{
    let mut out: Vec<String> = Vec::new();
    let mut i: usize = 0;
    while i < a.len()
        invariant
            i <= a@.len(),
            texts(out@) == not_in(texts(a@).subrange(0, i as int), texts(b@)),
        decreases a@.len() - i,
    {
        assert(texts(a@).subrange(0, i + 1).drop_last() =~= texts(a@).subrange(0, i as int));
        let ghost before = out@;
        if !contains_text(b, a[i].as_str()) {
            out.push(a[i].clone());
            assert(texts(out@) =~= texts(before).push(a@[i as int]@));
        }
        i = i + 1;
    }
    assert(texts(a@).subrange(0, i as int) =~= texts(a@));
    out
}

/// Log one activity entry per item.
fn log_all(t: &mut Ticket, actor: &str, kind: &str, items: &Vec<String>, now: Timestamp)
    ensures
        final(t)@ == (TicketV { activity: old(t)@.activity + log_each(texts(items@), actor@, kind@, now), ..old(t)@ }),
{
    let mut i: usize = 0;
    while i < items.len()
        invariant
            i <= items@.len(),
            t@ == (TicketV { activity: old(t)@.activity + log_each(texts(items@).subrange(0, i as int), actor@, kind@, now), ..old(t)@ }),
        decreases items@.len() - i,
    {
        t.log_activity(actor, kind, items[i].as_str(), now);
        assert(old(t)@.activity + log_each(texts(items@).subrange(0, i + 1), actor@, kind@, now) =~= (old(t)@.activity
            + log_each(texts(items@).subrange(0, i as int), actor@, kind@, now)).push(act(actor@, kind@, items@[i as int]@, now)));
        i = i + 1;
    }
    assert(texts(items@).subrange(0, i as int) =~= texts(items@));
}

/// Apply a [`TicketPatch`] and store the ticket. Every change is logged: a new
/// title (`renamed`), body (`edited`), priority (`priority`), each added or
/// removed label (`label-added` / `label-removed`) and assignee (`assigned` /
/// `unassigned`). Returns the updated ticket.
pub fn update_ticket(store: &mut Store, id: &str, patch: TicketPatch, actor: &str, now: Timestamp) -> (r: Result<Ticket, Error>)
    requires
        old(store).wf(),
    ensures
        final(store).wf(),
        !old(store)@.tickets.contains_key(id@) ==> (r matches Err(Error::TicketNotFound(x)) && x@ == id@
            && final(store)@ == old(store)@),
        old(store)@.tickets.contains_key(id@) ==> (r matches Ok(t) && t@ == patched(old(store)@.tickets[id@], patch, actor@, now)
            && final(store)@ == with_ticket(old(store)@, id@, t@)),
{
    let mut t = match store.load_ticket(id) {
        Ok(t) => t,
        Err(e) => return Err(e),
    };
    let ghost t0 = t@;
    let ghost p0 = patch;
    let TicketPatch { title, body, priority, labels, assignees } = patch;
    match title {
        Some(v) => {
            if !crate::text::same(v.as_str(), t.title.as_str()) {
                t.log_activity(actor, "renamed", v.as_str(), now);
            }
            t.title = v;
        },
        None => {},
    }
    assert(t@ == patch_title(t0, p0.title, actor@, now));
    let ghost t1 = t@;
    match body {
        Some(v) => {
            if !crate::text::same(v.as_str(), t.body.as_str()) {
                t.log_activity(actor, "edited", "", now);
            }
            t.body = v;
        },
        None => {},
    }
    assert(t@ == patch_body(t1, p0.body, actor@, now));
    let ghost t2 = t@;
    match priority {
        Some(v) => {
            let same_priority = match (&v, &t.priority) {
                (Some(a), Some(b)) => crate::text::same(a.as_str(), b.as_str()),
                (None, None) => true,
                _ => false,
            };
            assert(same_priority == (opt_text(v) == t@.priority));
            if !same_priority {
                let detail = match &v {
                    Some(p) => p.clone(),
                    None => String::new(),
                };
                proof {
                    reveal_strlit("");
                }
                assert(detail@ == match v { Some(p) => p@, None => ""@ });
                t.log_activity(actor, "priority", detail.as_str(), now);
            }
            t.priority = v;
        },
        None => {},
    }
    proof {
        reveal_strlit("");
    }
    assert(t@ == patch_priority(t2, p0.priority, actor@, now));
    let ghost t3 = t@;
    match labels {
        Some(v) => {
            let added = not_in_vec(&v, &t.labels);
            let removed = not_in_vec(&t.labels, &v);
            log_all(&mut t, actor, "label-added", &added, now);
            log_all(&mut t, actor, "label-removed", &removed, now);
            t.labels = v;
        },
        None => {},
    }
    assert(t@ == patch_labels(t3, p0.labels, actor@, now));
    let ghost t4 = t@;
    match assignees {
        Some(v) => {
            let added = not_in_vec(&v, &t.assignees);
            let removed = not_in_vec(&t.assignees, &v);
            log_all(&mut t, actor, "assigned", &added, now);
            log_all(&mut t, actor, "unassigned", &removed, now);
            t.assignees = v;
        },
        None => {},
    }
    assert(t@ == patch_assignees(t4, p0.assignees, actor@, now));
    t.updated = now;
    proof {
        store.lemma_ids_valid();
    }
    let _ = store.save_ticket(&t);
    Ok(t)
}

// ---------------------------------------------------------------------------
// Labels
// ---------------------------------------------------------------------------

/// The key of a label definition: its name.
pub open spec fn label_key() -> spec_fn(LabelDefV) -> Seq<char> {
    |l: LabelDefV| l.name
}

/// The position of the first label named `name`.
fn label_pos(ls: &Vec<LabelDef>, name: &str) -> (r: Option<usize>)
    ensures
        r matches Some(j) ==> j < ls@.len() && first_index(views(ls@), label_key(), name@) == j,
        r is None ==> first_index(views(ls@), label_key(), name@) == -1,
{
    let mut j: usize = 0;
    while j < ls.len()
        invariant
            j <= ls@.len(),
            forall|m: int| 0 <= m < j ==> label_key()(#[trigger] views(ls@)[m]) != name@,
        decreases ls@.len() - j,
    {
        if crate::text::same(ls[j].name.as_str(), name) {
            proof {
                lemma_first_index(views(ls@), label_key(), name@, j as int);
            }
            return Some(j);
        }
        assert(views(ls@)[j as int] == ls@[j as int]@);
        j = j + 1;
    }
    proof {
        lemma_first_index_none(views(ls@), label_key(), name@);
    }
    None
}

/// Creating a label keeps label names distinct: a label is added only under a
/// name that no label has.
pub proof fn law_create_label_keeps_names_distinct(labels: Seq<LabelDefV>, l: LabelDefV)
    requires
        crate::keyed::keys_distinct(labels, label_key()),
        first_index(labels, label_key(), l.name) == -1,
    ensures
        crate::keyed::keys_distinct(labels.push(l), label_key()),
{
    let t = labels.push(l);
    assert forall|j: int| 0 <= j < labels.len() implies label_key()(#[trigger] labels[j]) != l.name by {
        if label_key()(labels[j]) == l.name {
            assert(crate::keyed::keyed_has(labels, label_key(), l.name));
            crate::keyed::lemma_first_index_found(labels, label_key(), l.name);
        }
    }
    assert forall|a: int, b: int| 0 <= a < t.len() && 0 <= b < t.len() && a != b implies label_key()(#[trigger] t[a]) != label_key()(#[trigger] t[b]) by {
        if a < labels.len() {
            assert(t[a] == labels[a]);
        }
        if b < labels.len() {
            assert(t[b] == labels[b]);
        }
    }
}

/// Create a label. With no `color`, the first unused palette color is picked.
/// Errors if a label with that name already exists.
pub fn create_label(store: &mut Store, name: &str, color: Option<String>, description: Option<String>) -> (r: Result<LabelDef, Error>)
    requires
        old(store).wf(),
    ensures
        final(store).wf(),
        ({
            let d = old(store)@.definitions;
            if first_index(d.labels, label_key(), name@) != -1 {
                r matches Err(Error::Message(m)) && m@ == "label `"@ + name@ + "` already exists"@ && final(store)@ == old(store)@
            } else {
                let l = LabelDefV {
                    name: name@,
                    color: match color {
                        Some(c) => Some(c@),
                        None => Some(next_label_color_spec(d.labels)),
                    },
                    description: match description {
                        Some(x) => x@,
                        None => Seq::empty(),
                    },
                };
                r matches Ok(x) && x@ == l && final(store)@ == (StoreV {
                    definitions: crate::model::DefinitionsV { labels: d.labels.push(l), ..d },
                    ..old(store)@
                })
            }
        }),
{
    let mut defs = store.load_definitions();
    if label_pos(&defs.labels, name).is_some() {
        return Err(Error::Message(cat3("label `", name, "` already exists")));
    }
    let color = match color {
        Some(c) => Some(c),
        None => {
            let c = next_label_color(&defs.labels);
            proof {
                assert(views(defs.labels@) == old(store)@.definitions.labels);
            }
            Some(c)
        },
    };
    let description = match description {
        Some(x) => x,
        None => String::new(),
    };
    let label = LabelDef { name: owned(name), color, description };
    let ghost before = defs.labels@;
    defs.labels.push(label.clone());
    assert(views(defs.labels@) =~= views(before).push(label@));
    store.save_definitions(&defs);
    Ok(label)
}

/// Set a label's color. Errors if the label is not defined.
pub fn set_label_color(store: &mut Store, name: &str, color: &str) -> (r: Result<LabelDef, Error>)
    requires
        old(store).wf(),
    ensures
        final(store).wf(),
        ({
            let d = old(store)@.definitions;
            let j = first_index(d.labels, label_key(), name@);
            if j == -1 {
                r matches Err(Error::Message(m)) && m@ == "label `"@ + name@ + "` not found"@ && final(store)@ == old(store)@
            } else {
                let l = LabelDefV { color: Some(color@), ..d.labels[j] };
                r matches Ok(x) && x@ == l && final(store)@ == (StoreV {
                    definitions: crate::model::DefinitionsV { labels: d.labels.update(j, l), ..d },
                    ..old(store)@
                })
            }
        }),
{
    let mut defs = store.load_definitions();
    let j = match label_pos(&defs.labels, name) {
        Some(j) => j,
        None => return Err(Error::Message(cat3("label `", name, "` not found"))),
    };
    let mut label = defs.labels[j].clone();
    label.color = Some(owned(color));
    let ghost before = defs.labels@;
    assert(views(before)[j as int] == before[j as int]@);
    defs.labels.set(j, label.clone());
    assert(views(defs.labels@) =~= views(before).update(j as int, label@));
    store.save_definitions(&defs);
    Ok(label)
}

/// A ticket with the label `name` stripped (touched only if it had it).
pub open spec fn strip_label(t: TicketV, name: Seq<char>, now: Timestamp) -> TicketV {
    if t.labels.contains(name) {
        TicketV { labels: without(t.labels, name), updated: now, ..t }
    } else {
        t
    }
}

/// Delete a label definition and strip it from every ticket.
pub fn delete_label(store: &mut Store, name: &str, now: Timestamp)
    requires
        old(store).wf(),
    ensures
        final(store).wf(),
        final(store)@ == (StoreV {
            definitions: crate::model::DefinitionsV {
                labels: remove_key(old(store)@.definitions.labels, label_key(), name@),
                ..old(store)@.definitions
            },
            tickets: old(store)@.tickets.map_values(|t: TicketV| strip_label(t, name@, now)),
            ..old(store)@
        }),
{
    let mut defs = store.load_definitions();
    let ghost lv = views(defs.labels@);
    let mut kept: Vec<LabelDef> = Vec::new();
    let mut i: usize = 0;
    while i < defs.labels.len()
        invariant
            i <= defs.labels@.len(),
            lv == views(defs.labels@),
            views(kept@) == remove_key(lv.subrange(0, i as int), label_key(), name@),
        decreases defs.labels@.len() - i,
    {
        proof {
            lemma_remove_key_step(lv, label_key(), name@, i as int);
        }
        let ghost before = kept@;
        if !crate::text::same(defs.labels[i].name.as_str(), name) {
            kept.push(defs.labels[i].clone());
            assert(views(kept@) =~= views(before).push(lv[i as int]));
        }
        i = i + 1;
    }
    assert(lv.subrange(0, i as int) =~= lv);
    defs.labels = kept;
    store.save_definitions(&defs);
    let ghost s1 = store@;
    let ids = store.ticket_ids();
    let ghost idv = texts(ids@);
    assert(store@.tickets =~= Map::new(
        |id: Seq<char>| s1.tickets.contains_key(id),
        |id: Seq<char>| if idv.subrange(0, 0).contains(id) {
            strip_label(s1.tickets[id], name@, now)
        } else {
            s1.tickets[id]
        },
    ));
    let mut k: usize = 0;
    while k < ids.len()
        invariant
            store.wf(),
            k <= ids@.len(),
            idv == texts(ids@),
            crate::store::lists_keys(idv, s1.tickets),
            store@ == (StoreV {
                tickets: Map::new(
                    |id: Seq<char>| s1.tickets.contains_key(id),
                    |id: Seq<char>| if idv.subrange(0, k as int).contains(id) {
                        strip_label(s1.tickets[id], name@, now)
                    } else {
                        s1.tickets[id]
                    },
                ),
                ..s1
            }),
        decreases ids@.len() - k,
    {
        let ghost cur = idv[k as int];
        assert(s1.tickets.contains_key(cur)) by {
            assert(idv.contains(cur));
        }
        assert(!idv.subrange(0, k as int).contains(cur)) by {
            if idv.subrange(0, k as int).contains(cur) {
                let j = choose|j: int| 0 <= j < k && idv.subrange(0, k as int)[j] == cur;
                assert(idv[j] == idv[k as int]);
            }
        }
        match store.load_ticket(ids[k].as_str()) {
            Ok(t) => {
                let mut t = t;
                if contains_text(&t.labels, name) {
                    let kept_labels = remove_card(&t.labels, name);
                    t.labels = kept_labels;
                    t.updated = now;
                    proof {
                        store.lemma_ids_valid();
                    }
                    let _ = store.save_ticket(&t);
                }
            },
            Err(_) => {},
        }
        proof {
            let p1 = idv.subrange(0, k + 1);
            let p0 = idv.subrange(0, k as int);
            assert forall|id: Seq<char>| #[trigger] p1.contains(id) <==> p0.contains(id) || id == cur by {
                if p1.contains(id) {
                    let j = choose|j: int| 0 <= j < p1.len() && p1[j] == id;
                    if j < k {
                        assert(p0[j] == id);
                    }
                }
                if p0.contains(id) {
                    let j = choose|j: int| 0 <= j < p0.len() && p0[j] == id;
                    assert(p1[j] == id);
                }
                if id == cur {
                    assert(p1[k as int] == id);
                }
            }
            assert(store@.tickets =~= Map::new(
                |id: Seq<char>| s1.tickets.contains_key(id),
                |id: Seq<char>| if p1.contains(id) {
                    strip_label(s1.tickets[id], name@, now)
                } else {
                    s1.tickets[id]
                },
            ));
        }
        k = k + 1;
    }
    proof {
        assert(idv.subrange(0, k as int) =~= idv);
        assert(store@.tickets =~= old(store)@.tickets.map_values(|t: TicketV| strip_label(t, name@, now)));
    }
}

// ---------------------------------------------------------------------------
// Identities
// ---------------------------------------------------------------------------

/// The key of an identity: its ID.
pub open spec fn identity_key() -> spec_fn(IdentityV) -> Seq<char> {
    |i: IdentityV| i.id
}

/// The registry with every VCS author whose email is not yet an identity added,
/// in author order, as a human named after the author.
pub open spec fn merge_authors(reg: Seq<IdentityV>, authors: Seq<(Seq<char>, Seq<char>)>) -> Seq<IdentityV>
    decreases authors.len(),
{
    if authors.len() == 0 {
        reg
    } else {
        let r = merge_authors(reg, authors.drop_last());
        let (name, email) = authors.last();
        if crate::keyed::keyed_has(r, identity_key(), email) {
            r
        } else {
            r.push(IdentityV { id: email, display_name: name, kind: IdentityKind::Human })
        }
    }
}

/// The position of the first identity with ID `id`.
fn identity_pos(v: &Vec<Identity>, id: &str) -> (r: Option<usize>)
    ensures
        r matches Some(j) ==> j < v@.len() && first_index(views(v@), identity_key(), id@) == j,
        r is None ==> first_index(views(v@), identity_key(), id@) == -1,
        r is None <==> !crate::keyed::keyed_has(views(v@), identity_key(), id@),
{
    let mut j: usize = 0;
    while j < v.len()
        invariant
            j <= v@.len(),
            forall|m: int| 0 <= m < j ==> identity_key()(#[trigger] views(v@)[m]) != id@,
        decreases v@.len() - j,
    {
        if crate::text::same(v[j].id.as_str(), id) {
            proof {
                lemma_first_index(views(v@), identity_key(), id@, j as int);
                assert(identity_key()(views(v@)[j as int]) == id@);
            }
            return Some(j);
        }
        assert(views(v@)[j as int] == v@[j as int]@);
        j = j + 1;
    }
    proof {
        lemma_first_index_none(views(v@), identity_key(), id@);
    }
    None
}

/// The value of an author pair.
pub open spec fn author_view(a: (String, String)) -> (Seq<char>, Seq<char>) {
    (a.0@, a.1@)
}

/// The identities: the saved registry merged with the authors the repo's VCS
/// reports (`(name, email)` pairs), so contributors show up without setup.
pub fn list_identities(store: &Store, vcs_authors: &Vec<(String, String)>) -> (r: Vec<Identity>)
    requires
        store.wf(),
    ensures
        views(r@) == merge_authors(store@.identities, vcs_authors@.map_values(|a: (String, String)| author_view(a))),
{
    let mut registry = store.load_identities();
    let ghost av = vcs_authors@.map_values(|a: (String, String)| author_view(a));
    let mut i: usize = 0;
    while i < vcs_authors.len()
        invariant
            i <= vcs_authors@.len(),
            av == vcs_authors@.map_values(|a: (String, String)| author_view(a)),
            views(registry@) == merge_authors(store@.identities, av.subrange(0, i as int)),
        decreases vcs_authors@.len() - i,
    {
        assert(av.subrange(0, i + 1).drop_last() =~= av.subrange(0, i as int));
        let ghost before = registry@;
        if identity_pos(&registry, vcs_authors[i].1.as_str()).is_none() {
            let ident = Identity { id: vcs_authors[i].1.clone(), display_name: vcs_authors[i].0.clone(), kind: IdentityKind::Human };
            registry.push(ident);
            assert(views(registry@) =~= views(before).push(ident@));
        }
        i = i + 1;
    }
    assert(av.subrange(0, i as int) =~= av);
    registry
}

/// An optional string that is not blank, trimmed or as given.
pub open spec fn nonblank(o: Option<String>) -> Option<Seq<char>> {
    match o {
        Some(s) => if trim_spec(s@).len() == 0 { None } else { Some(s@) },
        None => None,
    }
}

/// The acting identity, by precedence: an explicit (trimmed, non-blank) one; the
/// global default when the user prefers it; the VCS user; the board's default
/// author; the global default; the OS user; `human`.
pub open spec fn resolved_identity(
    explicit: Option<Seq<char>>,
    g: GlobalConfig,
    vcs: Option<Seq<char>>,
    board_default: Option<Seq<char>>,
    system_user: Option<Seq<char>>,
) -> Seq<char> {
    let d = nonblank(g.default_identity);
    if explicit is Some && trim_spec(explicit.unwrap()).len() > 0 {
        trim_spec(explicit.unwrap())
    } else if g.prefer_default_identity == Some(true) && d is Some {
        d.unwrap()
    } else if vcs is Some {
        vcs.unwrap()
    } else if board_default is Some {
        board_default.unwrap()
    } else if d is Some {
        d.unwrap()
    } else if system_user is Some {
        system_user.unwrap()
    } else {
        "human"@
    }
}

fn nonblank_of(o: &Option<String>) -> (r: Option<String>)
    ensures
        opt_text(r) == nonblank(*o),
{
    match o {
        Some(s) => if is_blank(s.as_str()) {
            None
        } else {
            Some(s.clone())
        },
        None => None,
    }
}

/// Resolve the acting identity for an authored action. Precedence: explicit ->
/// (global default, when preferred) -> VCS user -> the board's default author ->
/// global default -> OS user -> `human`. `vcs_identity` is what the repo's VCS
/// reports and `system_user` the OS account name, both looked up by the caller.
pub fn resolve_identity(
    store: Option<&Store>,
    explicit: Option<&str>,
    global: &GlobalConfig,
    vcs_identity: Option<String>,
    system_user: Option<String>,
) -> (r: String)
    ensures
        r@ == resolved_identity(
            match explicit {
                Some(e) => Some(e@),
                None => None,
            },
            *global,
            opt_text(vcs_identity),
            match store {
                Some(s) => nonblank_settings(s@.settings.default_author),
                None => None,
            },
            opt_text(system_user),
        ),
{
    match explicit {
        Some(e) => {
            let t = trim(e);
            if !t.as_str().is_empty() {
                return t;
            }
        },
        None => {},
    }
    let d = nonblank_of(&global.default_identity);
    let prefer = match global.prefer_default_identity {
        Some(b) => b,
        None => false,
    };
    if prefer {
        match &d {
            Some(x) => return x.clone(),
            None => {},
        }
    }
    match vcs_identity {
        Some(v) => return v,
        None => {},
    }
    match store {
        Some(s) => {
            let settings = s.load_settings();
            match &settings.default_author {
                Some(a) => if !is_blank(a.as_str()) {
                    return a.clone();
                },
                None => {},
            }
        },
        None => {},
    }
    match d {
        Some(x) => return x,
        None => {},
    }
    match system_user {
        Some(u) => u,
        None => owned("human"),
    }
}

/// A board default author that is not blank.
pub open spec fn nonblank_settings(o: Option<Seq<char>>) -> Option<Seq<char>> {
    match o {
        Some(s) => if trim_spec(s).len() == 0 { None } else { Some(s) },
        None => None,
    }
}

/// Create or update an identity's display name (and, when given, its kind).
/// Returns the stored identity.
pub fn upsert_identity(store: &mut Store, id: &str, display_name: &str, kind: Option<IdentityKind>) -> (r: Identity)
    requires
        old(store).wf(),
    ensures
        final(store).wf(),
        ({
            let reg = old(store)@.identities;
            let j = first_index(reg, identity_key(), id@);
            if j == -1 {
                let n = IdentityV {
                    id: id@,
                    display_name: display_name@,
                    kind: match kind {
                        Some(k) => k,
                        None => IdentityKind::Human,
                    },
                };
                r@ == n && final(store)@ == (StoreV { identities: reg.push(n), ..old(store)@ })
            } else {
                let n = IdentityV {
                    display_name: display_name@,
                    kind: match kind {
                        Some(k) => k,
                        None => reg[j].kind,
                    },
                    ..reg[j]
                };
                r@ == n && final(store)@ == (StoreV { identities: reg.update(j, n), ..old(store)@ })
            }
        }),
{
    let mut registry = store.load_identities();
    let ghost before = registry@;
    match identity_pos(&registry, id) {
        Some(j) => {
            assert(views(before)[j as int] == before[j as int]@);
            let mut e = registry[j].clone();
            e.display_name = owned(display_name);
            match kind {
                Some(k) => e.kind = k,
                None => {},
            }
            registry.set(j, e.clone());
            assert(views(registry@) =~= views(before).update(j as int, e@));
            store.save_identities(&registry);
            e
        },
        None => {
            let k = match kind {
                Some(k) => k,
                None => IdentityKind::Human,
            };
            let ident = Identity { id: owned(id), display_name: owned(display_name), kind: k };
            registry.push(ident.clone());
            assert(views(registry@) =~= views(before).push(ident@));
            store.save_identities(&registry);
            ident
        },
    }
}

/// Remove an identity from the saved registry (VCS-derived humans not in the
/// registry are re-discovered from history and cannot be removed).
pub fn delete_identity(store: &mut Store, id: &str)
    requires
        old(store).wf(),
    ensures
        final(store).wf(),
        final(store)@ == (StoreV { identities: remove_key(old(store)@.identities, identity_key(), id@), ..old(store)@ }),
{
    let registry = store.load_identities();
    let ghost rv = views(registry@);
    let mut kept: Vec<Identity> = Vec::new();
    let mut i: usize = 0;
    while i < registry.len()
        invariant
            i <= registry@.len(),
            rv == views(registry@),
            views(kept@) == remove_key(rv.subrange(0, i as int), identity_key(), id@),
        decreases registry@.len() - i,
    {
        proof {
            lemma_remove_key_step(rv, identity_key(), id@, i as int);
        }
        let ghost before = kept@;
        if !crate::text::same(registry[i].id.as_str(), id) {
            kept.push(registry[i].clone());
            assert(views(kept@) =~= views(before).push(rv[i as int]));
        }
        i = i + 1;
    }
    assert(rv.subrange(0, i as int) =~= rv);
    store.save_identities(&kept);
}

// ---------------------------------------------------------------------------
// Committing the board
// ---------------------------------------------------------------------------

/// What to commit: the paths to stage, the message, and the author.
#[derive(Debug)]
pub struct CommitPlan {
    /// Pathspecs relative to the project root.
    pub pathspecs: Vec<String>,
    /// Commit message.
    pub message: String,
    /// The identity the commit is authored and committed as.
    pub author: String,
}

/// "unknown commit target `<x>` - pass a ticket id (T-<n>) or omit to commit all of .wipe/".
pub open spec fn unknown_target_msg(x: Seq<char>) -> Seq<char> {
    "unknown commit target `"@ + x + "` - pass a ticket id (T-<n>) or omit to commit all of .wipe/"@
}

/// Plan an atomic, wipe-attributed commit of the board. With a ticket ID as
/// `scope`, only that ticket's file is committed (and the ticket must exist);
/// with no scope, all of `.wipe/`; anything else is refused. The commit is
/// authored and committed as `author`; the caller runs git with the plan.
pub fn commit_board(store: &Store, scope: Option<&str>, message: Option<&str>, author: &str) -> (r: Result<CommitPlan, Error>)
    requires
        store.wf(),
    ensures
        match scope {
            Some(id) => if crate::text::has_prefix(id@, "T-"@) {
                if store@.tickets.contains_key(id@) {
                    r matches Ok(p) && texts(p.pathspecs@) == seq![".wipe/tickets/"@ + id@ + ".json"@]
                        && p.message@ == (match message {
                            Some(m) => m@,
                            None => "chore(wipe): update "@ + id@,
                        }) && p.author@ == author@
                } else {
                    r matches Err(Error::TicketNotFound(x)) && x@ == id@
                }
            } else {
                r matches Err(Error::Message(m)) && m@ == unknown_target_msg(id@)
            },
            None => r matches Ok(p) && texts(p.pathspecs@) == seq![".wipe"@] && p.message@ == (match message {
                Some(m) => m@,
                None => "chore(wipe): update board"@,
            }) && p.author@ == author@,
        },
{
    let (path, default_msg) = match scope {
        Some(id) => {
            if crate::text::starts_with(id, "T-") {
                if !store.has_ticket(id) {
                    return Err(Error::TicketNotFound(owned(id)));
                }
                (cat3(".wipe/tickets/", id, ".json"), cat("chore(wipe): update ", id))
            } else {
                return Err(Error::Message(
                    cat3("unknown commit target `", id, "` - pass a ticket id (T-<n>) or omit to commit all of .wipe/"),
                ));
            }
        },
        None => (owned(".wipe"), owned("chore(wipe): update board")),
    };
    let msg = match message {
        Some(m) => owned(m),
        None => default_msg,
    };
    let mut pathspecs: Vec<String> = Vec::new();
    pathspecs.push(path);
    proof {
        assert(texts(pathspecs@) =~= seq![pathspecs@[0]@]);
    }
    Ok(CommitPlan { pathspecs, message: msg, author: owned(author) })
}

// ---------------------------------------------------------------------------
// Reattribution and duplication
// ---------------------------------------------------------------------------

/// Reattribute a comment to `new_author`, stamping it edited and recording an
/// audit `reattributed` activity (`<c-id>: <old> -> <new>`). Returns the previous
/// author.
pub fn reattribute_comment(
    store: &mut Store,
    ticket_id: &str,
    comment_id: &str,
    new_author: &str,
    actor: &str,
    now: Timestamp,
) -> (r: Result<String, Error>)
    requires
        old(store).wf(),
    ensures
        final(store).wf(),
        !old(store)@.tickets.contains_key(ticket_id@) ==> (r matches Err(Error::TicketNotFound(x))
            && x@ == ticket_id@ && final(store)@ == old(store)@),
        old(store)@.tickets.contains_key(ticket_id@) ==> ({
            let t = old(store)@.tickets[ticket_id@];
            let j = first_index(t.comments, comment_key(), comment_id@);
            if j == -1 {
                r matches Err(Error::Message(m)) && m@ == comment_not_found(comment_id@) && final(store)@ == old(store)@
            } else {
                let prev = t.comments[j].author;
                r matches Ok(o) && o@ == prev && final(store)@ == with_ticket(old(store)@, ticket_id@, TicketV {
                    comments: t.comments.update(j, CommentV { author: new_author@, edited: Some(now), ..t.comments[j] }),
                    activity: t.activity.push(act(actor@, "reattributed"@, comment_id@ + ": "@ + prev + " -> "@ + new_author@, now)),
                    updated: now,
                    ..t
                })
            }
        }),
{
    let mut ticket = match store.load_ticket(ticket_id) {
        Ok(t) => t,
        Err(e) => return Err(e),
    };
    let j = match comment_pos(&ticket.comments, comment_id) {
        Some(j) => j,
        None => return Err(comment_missing(comment_id)),
    };
    let prev = ticket.comments[j].author.clone();
    let c = Comment {
        id: ticket.comments[j].id.clone(),
        author: owned(new_author),
        body: ticket.comments[j].body.clone(),
        created: ticket.comments[j].created,
        edited: Some(now),
    };
    let ghost before = ticket.comments@;
    ticket.comments.set(j, c);
    assert(views(ticket.comments@) =~= views(before).update(j as int, c@));
    let head = cat(comment_id, ": ");
    let mid = cat3(head.as_str(), prev.as_str(), " -> ");
    let detail = cat(mid.as_str(), new_author);
    ticket.log_activity(actor, "reattributed", detail.as_str(), now);
    ticket.updated = now;
    proof {
        store.lemma_ids_valid();
    }
    let _ = store.save_ticket(&ticket);
    Ok(prev)
}

/// The key of an activity entry: its kind.
pub open spec fn activity_kind() -> spec_fn(ActivityV) -> Seq<char> {
    |a: ActivityV| a.kind
}

/// Every `created` entry re-attributed to `who`.
pub open spec fn recreate(acts: Seq<ActivityV>, who: Seq<char>) -> Seq<ActivityV> {
    Seq::new(acts.len(), |i: int| if acts[i].kind == "created"@ { ActivityV { actor: who, ..acts[i] } } else { acts[i] })
}

/// Reattribute a ticket's creation to `new_author` (every `created` activity's
/// actor), recording an audit `reattributed` entry. Returns the previous creator.
pub fn reattribute_ticket(store: &mut Store, ticket_id: &str, new_author: &str, actor: &str, now: Timestamp) -> (r: Result<Option<String>, Error>)
    requires
        old(store).wf(),
    ensures
        final(store).wf(),
        !old(store)@.tickets.contains_key(ticket_id@) ==> (r matches Err(Error::TicketNotFound(x))
            && x@ == ticket_id@ && final(store)@ == old(store)@),
        old(store)@.tickets.contains_key(ticket_id@) ==> ({
            let t = old(store)@.tickets[ticket_id@];
            let j = first_index(t.activity, activity_kind(), "created"@);
            let prev: Option<Seq<char>> = if j == -1 { None } else { Some(t.activity[j].actor) };
            r matches Ok(o) && opt_text(o) == prev && final(store)@ == with_ticket(old(store)@, ticket_id@, TicketV {
                activity: recreate(t.activity, new_author@).push(act(actor@, "reattributed"@,
                    "created: "@ + (match prev { Some(p) => p, None => "?"@ }) + " -> "@ + new_author@, now)),
                updated: now,
                ..t
            })
        }),
{
    let mut ticket = match store.load_ticket(ticket_id) {
        Ok(t) => t,
        Err(e) => return Err(e),
    };
    let ghost av = views(ticket.activity@);
    let mut prev: Option<String> = None;
    let mut acts: Vec<crate::model::Activity> = Vec::new();
    let mut i: usize = 0;
    while i < ticket.activity.len()
        invariant
            i <= ticket.activity@.len(),
            av == views(ticket.activity@),
            views(acts@) == recreate(av, new_author@).subrange(0, i as int),
            prev is None ==> forall|m: int| 0 <= m < i ==> activity_kind()(#[trigger] av[m]) != "created"@,
            prev matches Some(p) ==> first_index(av, activity_kind(), "created"@) != -1 && p@ == av[first_index(av, activity_kind(), "created"@)].actor,
        decreases ticket.activity@.len() - i,
    {
        let a = &ticket.activity[i];
        assert(av[i as int] == ticket.activity@[i as int]@);
        let ghost before = acts@;
        if crate::text::same(a.kind.as_str(), "created") {
            if prev.is_none() {
                proof {
                    lemma_first_index(av, activity_kind(), "created"@, i as int);
                }
                prev = Some(a.actor.clone());
            }
            let na = crate::model::Activity { ts: a.ts, actor: owned(new_author), kind: a.kind.clone(), detail: a.detail.clone() };
            acts.push(na);
            assert(views(acts@) =~= views(before).push(na@));
        } else {
            acts.push(a.clone());
            assert(views(acts@) =~= views(before).push(a@));
        }
        assert(views(acts@) =~= recreate(av, new_author@).subrange(0, i + 1));
        i = i + 1;
    }
    proof {
        if prev is None {
            lemma_first_index_none(av, activity_kind(), "created"@);
        }
        assert(recreate(av, new_author@).subrange(0, i as int) =~= recreate(av, new_author@));
    }
    ticket.activity = acts;
    let who = match &prev {
        Some(p) => p.clone(),
        None => owned("?"),
    };
    let mid = cat3("created: ", who.as_str(), " -> ");
    let detail = cat(mid.as_str(), new_author);
    ticket.log_activity(actor, "reattributed", detail.as_str(), now);
    ticket.updated = now;
    proof {
        store.lemma_ids_valid();
    }
    let _ = store.save_ticket(&ticket);
    Ok(prev)
}

/// Where a duplicate goes: right after the original on the first list holding
/// it, else at the end of the first list.
pub open spec fn dup_place(lists: Seq<ListV>, id: Seq<char>) -> Option<(int, int)> {
    if exists|i: int, k: int| is_first_card(lists, id, i, k) {
        let (i, k) = choose|i: int, k: int| is_first_card(lists, id, i, k);
        Some((i, k + 1))
    } else if lists.len() > 0 {
        Some((0, lists[0].cards.len() as int))
    } else {
        None
    }
}

/// The copy [`duplicate_ticket`] makes of `src`.
pub open spec fn duplicated(src: TicketV, id: Seq<char>, actor: Seq<char>, now: Timestamp) -> TicketV {
    TicketV {
        id: id,
        title: src.title + " (copy)"@,
        comments: Seq::empty(),
        activity: seq![act(actor, "created"@, ""@, now)],
        next_comment: 1,
        created: now,
        updated: now,
        ..src
    }
}

proof fn lemma_first_card_unique(lists: Seq<ListV>, id: Seq<char>, i: int, k: int, i2: int, k2: int)
    requires
        is_first_card(lists, id, i, k),
        is_first_card(lists, id, i2, k2),
    ensures
        i == i2 && k == k2,
{
    if i < i2 {
        assert(card_in(lists[i], id));
    } else if i2 < i {
        assert(card_in(lists[i2], id));
    }
    if k < k2 {
        assert(lists[i2].cards[k] == id);
    } else if k2 < k {
        assert(lists[i].cards[k2] == id);
    }
}

/// Duplicate a ticket: a copy with a new ID right after the original on its list.
/// The copy keeps the body, priority, labels, assignees, checklist, acceptance
/// criteria and attachments, takes the title suffixed ` (copy)`, and starts with
/// no comments and a single `created` activity. Returns the copy.
pub fn duplicate_ticket(store: &mut Store, ticket_id: &str, actor: &str, now: Timestamp) -> (r: Result<Ticket, Error>)
    requires
        old(store).wf(),
        old(store)@.board.next_ticket < u64::MAX,
    ensures
        final(store).wf(),
        !old(store)@.tickets.contains_key(ticket_id@) ==> (r matches Err(Error::TicketNotFound(x))
            && x@ == ticket_id@ && final(store)@ == old(store)@),
        old(store)@.tickets.contains_key(ticket_id@) ==> ({
            let s = old(store)@;
            let b = s.board;
            let id = ticket_id_spec(b.next_ticket as nat);
            match dup_place(b.lists, ticket_id@) {
                None => r matches Err(Error::Message(m)) && m@ == no_lists_msg() && final(store)@ == s,
                Some((i, p)) => r matches Ok(t) && t@ == duplicated(s.tickets[ticket_id@], id, actor@, now) && final(store)@ == (StoreV {
                    board: BoardV {
                        lists: insert_card_spec(b.lists, i, p, id),
                        next_ticket: (b.next_ticket + 1) as u64,
                        updated: now,
                        ..b
                    },
                    tickets: s.tickets.insert(id, t@),
                    ..s
                }),
            }
        }),
{
    let src = match store.load_ticket(ticket_id) {
        Ok(t) => t,
        Err(e) => return Err(e),
    };
    let mut board = store.load_board();
    let new_id = crate::id::ticket_id(board.next_ticket);
    board.next_ticket = board.next_ticket + 1;
    let mut copy = src.clone();
    copy.id = new_id.clone();
    copy.title = cat(src.title.as_str(), " (copy)");
    copy.comments = Vec::new();
    copy.activity = Vec::new();
    copy.next_comment = 1;
    copy.created = now;
    copy.updated = now;
    copy.log_activity(actor, "created", "", now);
    proof {
        assert(views(copy.comments@) =~= Seq::<CommentV>::empty());
        assert(copy@.activity =~= seq![act(actor@, "created"@, ""@, now)]);
    }
    let ghost b0 = board@;
    let (i, at) = match find_card(&board.lists, ticket_id) {
        Some((i, k)) => {
            proof {
                assert(is_first_card(b0.lists, ticket_id@, i as int, k as int));
                assert(exists|i2: int, k2: int| is_first_card(b0.lists, ticket_id@, i2, k2));
                let (ci, ck) = choose|i2: int, k2: int| is_first_card(b0.lists, ticket_id@, i2, k2);
                lemma_first_card_unique(b0.lists, ticket_id@, i as int, k as int, ci, ck);
                assert(b0.lists[i as int] == board.lists@[i as int]@);
                assert(texts(board.lists@[i as int].cards@).len() == board.lists@[i as int].cards@.len());
            }
            let n = board.lists[i].cards.len();
            assert(k < n);
            (i, k + 1)
        },
        None => {
            proof {
                assert(!exists|i2: int, k2: int| is_first_card(b0.lists, ticket_id@, i2, k2)) by {
                    assert forall|i2: int, k2: int| !is_first_card(b0.lists, ticket_id@, i2, k2) by {
                        if is_first_card(b0.lists, ticket_id@, i2, k2) {
                            assert(b0.lists[i2] == board.lists@[i2]@);
                            assert(card_in(board.lists@[i2]@, ticket_id@));
                        }
                    }
                }
            }
            if board.lists.len() == 0 {
                proof {
                    reveal_strlit("board has no lists");
                }
                return Err(Error::msg("board has no lists"));
            }
            (0, board.lists[0].cards.len())
        },
    };
    assert(b0.lists[i as int] == board.lists@[i as int]@);
    insert_card(&mut board.lists, i, at, new_id.as_str());
    board.updated = now;
    proof {
        lemma_ticket_id_valid(old(store)@.board.next_ticket as nat);
        reveal_strlit("board has no lists");
    }
    let _ = store.save_ticket(&copy);
    store.save_board(&board);
    Ok(copy)
}

// ---------------------------------------------------------------------------
// Attachments
// ---------------------------------------------------------------------------

/// The final component of a path as `std::path::Path::file_name` reads it
/// (`None` for a path ending in `..`, or one with no final component).
pub uninterp spec fn path_file_name(p: Seq<char>) -> Option<Seq<char>>;

/// `std::path::Path::file_name`, taken as UTF-8.
#[verifier::external_body]
fn file_name_of(p: &str) -> (r: Option<String>)
    ensures
        opt_view(r) == path_file_name(p@),
{
    std::path::Path::new(p).file_name().and_then(|n| n.to_str()).map(|s| s.to_string())
}

/// A file name made safe and stable for storage: its final path component,
/// characters other than ASCII alphanumerics, `.`, `-` and `_` turned into `-`,
/// dashes trimmed from both ends, and `file` when nothing is left.
pub open spec fn sanitize_spec(name: Seq<char>) -> Seq<char> {
    let base = match path_file_name(name) {
        Some(b) => b,
        None => name,
    };
    let t = trim_char(base.map_values(|c: char| email_char(c)), '-');
    if t.len() == 0 {
        "file"@
    } else {
        t
    }
}

/// Sanitize a file name for on-disk storage.
pub fn sanitize(name: &str) -> (r: String)
    ensures
        r@ == sanitize_spec(name@),
{
    let base = match file_name_of(name) {
        Some(b) => b,
        None => owned(name),
    };
    let cs = crate::text::chars_of(base.as_str());
    let mut out: Vec<char> = Vec::new();
    let mut i: usize = 0;
    while i < cs.len()
        invariant
            cs@ == base@,
            i <= cs@.len(),
            out@ == base@.subrange(0, i as int).map_values(|c: char| email_char(c)),
        decreases cs@.len() - i,
    {
        let c = cs[i];
        let k = if crate::text::is_alnum_exec(c) || c == '.' || c == '-' || c == '_' {
            c
        } else {
            '-'
        };
        out.push(k);
        assert(out@ =~= base@.subrange(0, i + 1).map_values(|c: char| email_char(c)));
        i = i + 1;
    }
    assert(base@.subrange(0, i as int) =~= base@);
    let cleaned = string_of(out.as_slice());
    let t = trim_matches(cleaned.as_str(), '-');
    if t.as_str().is_empty() {
        owned("file")
    } else {
        t
    }
}

/// The path of the first repo_files file whose blob hash is `h`.
pub open spec fn repo_file_path(repo_files: Seq<(Seq<char>, Seq<char>)>, h: Seq<char>) -> Option<Seq<char>> {
    if exists|i: int| 0 <= i < repo_files.len() && repo_files[i].0 == h {
        Some(repo_files[choose|i: int| 0 <= i < repo_files.len() && repo_files[i].0 == h && forall|j: int| 0 <= j < i ==> repo_files[j].0 != h].1)
    } else {
        None
    }
}

/// The name under `.wipe/media/` of copied bytes: the first eight hex digits of
/// their blob hash, a dash, and the sanitized file name.
pub open spec fn media_file_spec(bytes: Seq<u8>, name: Seq<char>) -> Seq<char> {
    let h = blob_hash_spec(bytes);
    h.subrange(0, if h.len() < 8 { h.len() as int } else { 8 }) + "-"@ + sanitize_spec(name)
}

/// What [`stage_media`] makes of some bytes: a reference to the repo_files file with
/// the same content when there is one, else a copy under `.wipe/media/`.
pub open spec fn staged_spec(name: Seq<char>, bytes: Seq<u8>, mime: Seq<char>, repo_files: Option<Seq<(Seq<char>, Seq<char>)>>) -> AttachmentV {
    let found = match repo_files {
        Some(t) => repo_file_path(t, blob_hash_spec(bytes)),
        None => None,
    };
    match found {
        Some(p) => AttachmentV { name: name, path: p, source: AttachmentSource::Repo, size: bytes.len() as u64, mime: mime },
        None => AttachmentV {
            name: name,
            path: ".wipe/media/"@ + media_file_spec(bytes, name),
            source: AttachmentSource::Media,
            size: bytes.len() as u64,
            mime: mime,
        },
    }
}

/// The repo_files files as values, when known.
pub open spec fn repo_files_view(t: Option<&Vec<(String, String)>>) -> Option<Seq<(Seq<char>, Seq<char>)>> {
    match t {
        Some(v) => Some(v@.map_values(|p: (String, String)| pair_view(p))),
        None => None,
    }
}

/// The path of the first listed file with blob hash `h`.
fn find_repo_file(t: &Vec<(String, String)>, h: &str) -> (r: Option<String>)
    ensures
        opt_view(r) == repo_file_path(t@.map_values(|p: (String, String)| pair_view(p)), h@),
{
    let ghost tv = t@.map_values(|p: (String, String)| pair_view(p));
    let mut i: usize = 0;
    while i < t.len()
        invariant
            i <= t@.len(),
            tv == t@.map_values(|p: (String, String)| pair_view(p)),
            forall|j: int| 0 <= j < i ==> (#[trigger] tv[j]).0 != h@,
        decreases t@.len() - i,
    {
        assert(tv[i as int] == pair_view(t@[i as int]));
        if crate::text::same(t[i].0.as_str(), h) {
            proof {
                let c = choose|c: int| 0 <= c < tv.len() && tv[c].0 == h@ && forall|j: int| 0 <= j < c ==> tv[j].0 != h@;
                assert(0 <= i < tv.len() && tv[i as int].0 == h@);
                if c < i {
                    assert(tv[c].0 != h@);
                } else if c > i {
                    assert(tv[i as int].0 != h@);
                }
            }
            return Some(t[i].1.clone());
        }
        i = i + 1;
    }
    None
}

/// Stage bytes as an [`Attachment`] without binding it to any ticket or post. If
/// a repo_files file (from `git ls-files -s`, `repo_files`; `None` outside a repo) has
/// identical content it is referenced in place; otherwise the bytes are to be
/// written under `.wipe/media/` with the returned file name.
pub fn stage_media(name: &str, bytes: &[u8], mime: &str, repo_files: Option<&Vec<(String, String)>>) -> (r: (Attachment, Option<String>))
    ensures
        r.0@ == staged_spec(name@, bytes@, mime@, repo_files_view(repo_files)),
        r.0.source == AttachmentSource::Repo ==> r.1 is None,
        r.0.source == AttachmentSource::Media ==> (r.1 matches Some(f) && f@ == media_file_spec(bytes@, name@)),
{
    let hash = blob_hash(bytes);
    let found = match repo_files {
        Some(t) => find_repo_file(t, hash.as_str()),
        None => None,
    };
    let size = bytes.len() as u64;
    match found {
        Some(path) => (Attachment { name: owned(name), path, source: AttachmentSource::Repo, size, mime: owned(mime) }, None),
        None => {
            let n = crate::text::chars_of(hash.as_str());
            let k: usize = if n.len() < 8 {
                n.len()
            } else {
                8
            };
            let head = string_of(crate::text::slice_of(&n, 0, k).as_slice());
            let file = cat3(head.as_str(), "-", sanitize(name).as_str());
            let path = cat(".wipe/media/", file.as_str());
            (Attachment { name: owned(name), path, source: AttachmentSource::Media, size, mime: owned(mime) }, Some(file))
        },
    }
}

/// The key of an attachment: its path.
pub open spec fn attachment_key() -> spec_fn(AttachmentV) -> Seq<char> {
    |a: AttachmentV| a.path
}

/// The position of the first attachment with path `path`.
fn attachment_pos(v: &Vec<Attachment>, path: &str) -> (r: Option<usize>)
    ensures
        r matches Some(j) ==> j < v@.len() && first_index(views(v@), attachment_key(), path@) == j,
        r is None ==> first_index(views(v@), attachment_key(), path@) == -1,
{
    let mut j: usize = 0;
    while j < v.len()
        invariant
            j <= v@.len(),
            forall|m: int| 0 <= m < j ==> attachment_key()(#[trigger] views(v@)[m]) != path@,
        decreases v@.len() - j,
    {
        if crate::text::same(v[j].path.as_str(), path) {
            proof {
                lemma_first_index(views(v@), attachment_key(), path@, j as int);
            }
            return Some(j);
        }
        assert(views(v@)[j as int] == v@[j as int]@);
        j = j + 1;
    }
    proof {
        lemma_first_index_none(views(v@), attachment_key(), path@);
    }
    None
}

/// Attach a file to a ticket (see [`stage_media`]); an attachment with the same
/// path is not added twice. A new attachment is logged as `attached`. Returns the
/// attachment and, for a copy, the file name to write under `.wipe/media/`.
pub fn add_attachment(
    store: &mut Store,
    ticket_id: &str,
    name: &str,
    bytes: &[u8],
    mime: &str,
    repo_files: Option<&Vec<(String, String)>>,
    actor: &str,
    now: Timestamp,
) -> (r: Result<(Attachment, Option<String>), Error>)
    requires
        old(store).wf(),
    ensures
        final(store).wf(),
        !old(store)@.tickets.contains_key(ticket_id@) ==> (r matches Err(Error::TicketNotFound(x))
            && x@ == ticket_id@ && final(store)@ == old(store)@),
        old(store)@.tickets.contains_key(ticket_id@) ==> ({
            let t = old(store)@.tickets[ticket_id@];
            let a = staged_spec(name@, bytes@, mime@, repo_files_view(repo_files));
            r matches Ok(p) && p.0@ == a && (if first_index(t.attachments, attachment_key(), a.path) != -1 {
                final(store)@ == old(store)@
            } else {
                final(store)@ == with_ticket(old(store)@, ticket_id@, TicketV {
                    attachments: t.attachments.push(a),
                    activity: t.activity.push(act(actor@, "attached"@, name@, now)),
                    updated: now,
                    ..t
                })
            })
        }),
{
    let mut ticket = match store.load_ticket(ticket_id) {
        Ok(t) => t,
        Err(e) => return Err(e),
    };
    let (att, file) = stage_media(name, bytes, mime, repo_files);
    let ghost av = views(ticket.attachments@);
    let present = attachment_pos(&ticket.attachments, att.path.as_str()).is_some();
    if !present {
        let ghost before = ticket.attachments@;
        ticket.attachments.push(att.clone());
        assert(views(ticket.attachments@) =~= views(before).push(att@));
        ticket.log_activity(actor, "attached", att.name.as_str(), now);
        ticket.updated = now;
        proof {
            store.lemma_ids_valid();
        }
        let _ = store.save_ticket(&ticket);
    }
    Ok((att, file))
}

/// Detach a file from a ticket by its path, logging `detached` when it was
/// there. The file itself is left in place. The ticket is touched either way.
pub fn remove_attachment(store: &mut Store, ticket_id: &str, path: &str, actor: &str, now: Timestamp) -> (r: Result<(), Error>)
    requires
        old(store).wf(),
    ensures
        final(store).wf(),
        !old(store)@.tickets.contains_key(ticket_id@) ==> (r matches Err(Error::TicketNotFound(x))
            && x@ == ticket_id@ && final(store)@ == old(store)@),
        old(store)@.tickets.contains_key(ticket_id@) ==> ({
            let t = old(store)@.tickets[ticket_id@];
            let j = first_index(t.attachments, attachment_key(), path@);
            r is Ok && final(store)@ == with_ticket(old(store)@, ticket_id@, TicketV {
                attachments: remove_key(t.attachments, attachment_key(), path@),
                activity: if j == -1 { t.activity } else { t.activity.push(act(actor@, "detached"@, t.attachments[j].name, now)) },
                updated: now,
                ..t
            })
        }),
{
    let mut ticket = match store.load_ticket(ticket_id) {
        Ok(t) => t,
        Err(e) => return Err(e),
    };
    let ghost av = views(ticket.attachments@);
    let mut name: Option<String> = None;
    let mut kept: Vec<Attachment> = Vec::new();
    let mut i: usize = 0;
    while i < ticket.attachments.len()
        invariant
            i <= ticket.attachments@.len(),
            av == views(ticket.attachments@),
            views(kept@) == remove_key(av.subrange(0, i as int), attachment_key(), path@),
            name is None ==> forall|j: int| 0 <= j < i ==> attachment_key()(#[trigger] av[j]) != path@,
            name matches Some(n) ==> first_index(av, attachment_key(), path@) != -1
                && n@ == av[first_index(av, attachment_key(), path@)].name,
        decreases ticket.attachments@.len() - i,
    {
        proof {
            lemma_remove_key_step(av, attachment_key(), path@, i as int);
        }
        assert(av[i as int] == ticket.attachments@[i as int]@);
        let ghost before = kept@;
        if crate::text::same(ticket.attachments[i].path.as_str(), path) {
            if name.is_none() {
                proof {
                    lemma_first_index(av, attachment_key(), path@, i as int);
                }
                name = Some(ticket.attachments[i].name.clone());
            }
        } else {
            kept.push(ticket.attachments[i].clone());
            assert(views(kept@) =~= views(before).push(av[i as int]));
        }
        i = i + 1;
    }
    assert(av.subrange(0, i as int) =~= av);
    ticket.attachments = kept;
    match name {
        Some(n) => ticket.log_activity(actor, "detached", n.as_str(), now),
        None => {
            proof {
                lemma_first_index_none(av, attachment_key(), path@);
            }
        },
    }
    ticket.updated = now;
    proof {
        store.lemma_ids_valid();
    }
    let _ = store.save_ticket(&ticket);
    Ok(())
}

} // verus!
