//! Soft-delete "trash": deleting a ticket parks it with a deletion timestamp (and
//! its original list and position) so it can be restored, and it is purged for
//! good once it is older than the user's retention window.

use vstd::prelude::*;

use crate::error::Error;
use crate::keyed::{keyed_has, keys_distinct};
use crate::model::{
    card_in, card_located, find_list, first_list_index, lemma_first_list_index,
    lemma_no_list_index, BoardV, ListV, Ticket, TicketV, Timestamp,
};
use crate::ops::{clamp, insert_card, insert_card_spec, strip_card, strip_lists, without};
use crate::store::{invalid_ticket_id_msg, trash_key, Store, StoreV};
use crate::text::{cat3, owned};

verus! {

/// A ticket in the trash, with what is needed to restore it where it was.
#[derive(Debug)]
pub struct TrashEntry {
    /// The deleted ticket, verbatim.
    pub ticket: Ticket,
    /// When it was deleted.
    pub deleted_at: Timestamp,
    /// The list it was on when deleted (empty if it was on none).
    pub list: String,
    /// Its 0-based position in that list at deletion time.
    pub index: usize,
}

/// The value of a [`TrashEntry`].
pub struct TrashEntryV {
    pub ticket: TicketV,
    pub deleted_at: Timestamp,
    pub list: Seq<char>,
    pub index: usize,
}

impl View for TrashEntry {
    type V = TrashEntryV;

    open spec fn view(&self) -> TrashEntryV {
        TrashEntryV { ticket: self.ticket@, deleted_at: self.deleted_at, list: self.list@, index: self.index }
    }
}

impl Clone for TrashEntry {
    fn clone(&self) -> (r: Self)
        ensures
            r@ == self@,
    {
        TrashEntry {
            ticket: self.ticket.clone(),
            deleted_at: self.deleted_at,
            list: self.list.clone(),
            index: self.index,
        }
    }
}

// ---------------------------------------------------------------------------
// Retention
// ---------------------------------------------------------------------------

/// The longest retention window, in days, that a time span can express.
pub const MAX_RETENTION_DAYS: u64 = 106_751_991_167;

/// Nanoseconds in a day.
pub open spec fn day_nanos() -> int {
    86_400_000_000_000
}

/// The instant at or before which an entry has outlived a `days`-day window.
pub open spec fn cutoff(now: Timestamp, days: u64) -> int {
    now - days * day_nanos()
}

/// The IDs of the entries of `m` that go: all of them when `all`, else those
/// deleted at or before `cut`.
pub open spec fn doomed(m: Map<Seq<char>, TrashEntryV>, all: bool, cut: int) -> Set<Seq<char>> {
    m.dom().filter(|id: Seq<char>| all || m[id].deleted_at <= cut)
}

/// The store with the trash entries `gone` dropped.
pub open spec fn without_trash(s: StoreV, gone: Set<Seq<char>>) -> StoreV {
    StoreV { trash: s.trash.remove_keys(gone), ..s }
}

/// The IDs among the first `i` entries that go.
spec fn doomed_prefix(es: Seq<TrashEntry>, i: int, all: bool, cut: int) -> Set<Seq<char>> {
    Set::new(|id: Seq<char>| exists|k: int| 0 <= k < i && (#[trigger] es[k]).ticket.id@ == id && (all || es[k].deleted_at <= cut))
}

/// Drop the trash entries that go (see [`doomed`]); returns how many went.
fn purge_where(store: &mut Store, all: bool, cut: Timestamp) -> (n: usize)
    requires
        old(store).wf(),
    ensures
        final(store).wf(),
        final(store)@ == without_trash(old(store)@, doomed(old(store)@.trash, all, cut as int)),
        n == doomed(old(store)@.trash, all, cut as int).len(),
{
    let ghost s0 = store@;
    let entries = store.trash_entries();
    let ghost es = entries@;
    let mut n: usize = 0;
    let mut i: usize = 0;
    proof {
        assert(doomed_prefix(es, 0, all, cut as int) =~= Set::empty());
        assert(s0.trash.remove_keys(Set::empty()) =~= s0.trash);
    }
    while i < entries.len()
        invariant
            store.wf(),
            es == entries@,
            i <= es.len(),
            n <= i,
            keys_distinct(es, trash_key()),
            forall|id: Seq<char>| #[trigger] s0.trash.contains_key(id) <==> keyed_has(es, trash_key(), id),
            forall|k: int| 0 <= k < es.len() ==> s0.trash[(#[trigger] es[k]).ticket.id@] == es[k]@,
            doomed_prefix(es, i as int, all, cut as int).finite(),
            n == doomed_prefix(es, i as int, all, cut as int).len(),
            store@ == without_trash(s0, doomed_prefix(es, i as int, all, cut as int)),
        decreases es.len() - i,
    {
        let ghost before = doomed_prefix(es, i as int, all, cut as int);
        let ghost key = es[i as int].ticket.id@;
        assert(trash_key()(es[i as int]) == key);
        if all || entries[i].deleted_at <= cut {
            proof {
                assert(!before.contains(key)) by {
                    if before.contains(key) {
                        let k = choose|k: int| 0 <= k < i && (#[trigger] es[k]).ticket.id@ == key && (all || es[k].deleted_at <= cut);
                        assert(trash_key()(es[k]) == trash_key()(es[i as int]));
                    }
                }
                assert(doomed_prefix(es, i + 1, all, cut as int) =~= before.insert(key));
            }
            let _ = store.remove_trash(entries[i].ticket.id.as_str());
            proof {
                assert(s0.trash.remove_keys(before).remove(key) =~= s0.trash.remove_keys(before.insert(key)));
            }
            n = n + 1;
        } else {
            proof {
                assert(doomed_prefix(es, i + 1, all, cut as int) =~= before);
            }
        }
        i = i + 1;
    }
    proof {
        assert(doomed_prefix(es, es.len() as int, all, cut as int) =~= doomed(s0.trash, all, cut as int)) by {
            assert forall|id: Seq<char>| doomed(s0.trash, all, cut as int).contains(id) implies doomed_prefix(es, es.len() as int, all, cut as int).contains(id) by {
                assert(keyed_has(es, trash_key(), id));
                let k = choose|k: int| 0 <= k < es.len() && trash_key()(es[k]) == id;
                assert(es[k].ticket.id@ == id);
            }
        }
    }
    n
}

/// Permanently remove entries older than `retention_days`. Returns how many were
/// purged. A `retention_days` of 0 purges everything deleted up to `now`.
pub fn purge_expired(store: &mut Store, retention_days: u64, now: Timestamp) -> (r: Result<usize, Error>)
    requires
        old(store).wf(),
        retention_days <= MAX_RETENTION_DAYS,
        i128::MIN <= cutoff(now, retention_days),
    ensures
        final(store).wf(),
        final(store)@ == without_trash(old(store)@, doomed(old(store)@.trash, false, cutoff(now, retention_days))),
        r matches Ok(n) && n == doomed(old(store)@.trash, false, cutoff(now, retention_days)).len(),
{
    let span: i128 = (retention_days as i128) * 86_400_000_000_000i128;
    let cut: i128 = now - span;
    Ok(purge_where(store, false, cut))
}

/// Empty the trash entirely. Returns how many entries were purged.
pub fn empty(store: &mut Store) -> (r: Result<usize, Error>)
    requires
        old(store).wf(),
    ensures
        final(store).wf(),
        final(store)@ == (StoreV { trash: Map::empty(), ..old(store)@ }),
        r matches Ok(n) && n == old(store)@.trash.len(),
{
    let ghost t = store@.trash;
    let n = purge_where(store, true, 0);
    proof {
        assert(doomed(t, true, 0) =~= t.dom());
        assert(t.remove_keys(t.dom()) =~= Map::empty());
    }
    Ok(n)
}

/// Permanently delete a single trash entry. Returns whether one was present.
pub fn purge_ticket(store: &mut Store, ticket_id: &str) -> (r: Result<bool, Error>)
    requires
        old(store).wf(),
    ensures
        final(store).wf(),
        r matches Ok(b) && b == old(store)@.trash.contains_key(ticket_id@),
        final(store)@ == (StoreV { trash: old(store)@.trash.remove(ticket_id@), ..old(store)@ }),
{
    Ok(store.remove_trash(ticket_id))
}

// ---------------------------------------------------------------------------
// Deleting and restoring
// ---------------------------------------------------------------------------

/// `(lid, k)` is where card `id` sat: its first position on the first list
/// holding it, or `("", 0)` when no list holds it.
pub open spec fn placed(lists: Seq<ListV>, id: Seq<char>, lid: Seq<char>, k: int) -> bool {
    if exists|j: int| 0 <= j < lists.len() && card_in(#[trigger] lists[j], id) {
        card_located(lists, id, lid, k)
    } else {
        lid.len() == 0 && k == 0
    }
}

/// The store after ticket `id` left the board at `now`, parked in the trash as
/// `parked` (or dropped outright when `None`).
pub open spec fn after_trash(s: StoreV, id: Seq<char>, now: Timestamp, parked: Option<TrashEntryV>) -> StoreV {
    StoreV {
        board: BoardV { lists: strip_card(s.board.lists, id), updated: now, ..s.board },
        tickets: s.tickets.remove(id),
        trash: match parked {
            Some(e) => s.trash.insert(id, e),
            None => s.trash,
        },
        ..s
    }
}

/// `e` records ticket `id` of `s` deleted at `now`, with the place its card had.
pub open spec fn parked_entry(s: StoreV, id: Seq<char>, now: Timestamp, e: TrashEntryV) -> bool {
    &&& e.ticket == s.tickets[id]
    &&& e.deleted_at == now
    &&& placed(s.board.lists, id, e.list, e.index as int)
}

/// Soft-delete a ticket: take its card off the board and park it in the trash
/// with its list and position. Returns the created entry. With a
/// `retention_days` of 0 the ticket is deleted outright (no trash kept). Errors
/// with [`Error::TicketNotFound`] for an unknown ticket.
pub fn trash_ticket(store: &mut Store, ticket_id: &str, retention_days: u64, now: Timestamp) -> (r: Result<TrashEntry, Error>)
    requires
        old(store).wf(),
    ensures
        final(store).wf(),
        !old(store)@.tickets.contains_key(ticket_id@) ==> (r matches Err(Error::TicketNotFound(x))
            && x@ == ticket_id@ && final(store)@ == old(store)@),
        old(store)@.tickets.contains_key(ticket_id@) ==> (r matches Ok(e) && parked_entry(old(store)@, ticket_id@, now, e@)
            && final(store)@ == after_trash(
                old(store)@,
                ticket_id@,
                now,
                if retention_days > 0 { Some(e@) } else { None },
            )),
{
    let ghost s0 = store@;
    let ticket = match store.load_ticket(ticket_id) {
        Ok(t) => t,
        Err(e) => return Err(e),
    };
    proof {
        store.lemma_ids_valid();
    }
    let mut board = store.load_board();
    let (list, index) = match board.locate_card(ticket_id) {
        Some(p) => {
            proof {
                let i = choose|i: int| crate::model::is_first_card(s0.board.lists, ticket_id@, i, p.1 as int) && p.0@ == s0.board.lists[i].id;
                assert(card_in(s0.board.lists[i], ticket_id@));
            }
            p
        },
        None => (String::new(), 0),
    };
    assert(placed(s0.board.lists, ticket_id@, list@, index as int));
    strip_lists(&mut board.lists, ticket_id);
    board.updated = now;
    let ghost e = TrashEntryV { ticket: s0.tickets[ticket_id@], deleted_at: now, list: list@, index };
    let entry = TrashEntry { ticket, deleted_at: now, list, index };
    if retention_days > 0 {
        let kept = TrashEntry { ticket: entry.ticket.clone(), deleted_at: now, list: owned(entry.list.as_str()), index };
        store.put_trash(kept);
    }
    let _ = store.delete_ticket(ticket_id);
    store.save_board(&board);
    proof {
        if retention_days > 0 {
            assert(store@ == after_trash(s0, ticket_id@, now, Some(e)));
        } else {
            assert(store@ == after_trash(s0, ticket_id@, now, None));
        }
    }
    Ok(entry)
}

/// "`<id>` is not in the trash (already restored or purged)".
pub open spec fn not_in_trash_msg(id: Seq<char>) -> Seq<char> {
    "`"@ + id + "` is not in the trash (already restored or purged)"@
}

/// "board has no lists to restore into".
pub open spec fn no_lists_msg() -> Seq<char> {
    "board has no lists to restore into"@
}

/// The list a card goes back to: its own list if it still exists, else the
/// first list, else none.
pub open spec fn restore_target(lists: Seq<ListV>, lid: Seq<char>) -> Option<int> {
    match first_list_index(lists, lid) {
        Some(i) => Some(i),
        None => if lists.len() > 0 {
            Some(0)
        } else {
            None
        },
    }
}

/// The ticket of `e` as restored at `now`.
pub open spec fn restored(e: TrashEntryV, now: Timestamp) -> TicketV {
    TicketV { updated: now, ..e.ticket }
}

/// The store after the entry `e` of ticket `id` went back to list `i` at `now`.
pub open spec fn after_restore(s: StoreV, id: Seq<char>, e: TrashEntryV, i: int, now: Timestamp) -> StoreV {
    StoreV {
        board: BoardV {
            lists: insert_card_spec(s.board.lists, i, clamp(e.index as int, s.board.lists[i].cards.len() as int), id),
            updated: now,
            ..s.board
        },
        tickets: s.tickets.insert(id, restored(e, now)),
        trash: s.trash.remove(id),
        ..s
    }
}

/// Restore a trashed ticket onto the board: into its original list at its old
/// position (or the end, if the list shrank), or onto the first list if its own
/// list is gone. Errors if the ticket is not in the trash or the board has no
/// list.
pub fn restore_ticket(store: &mut Store, ticket_id: &str, now: Timestamp) -> (r: Result<Ticket, Error>)
    requires
        old(store).wf(),
    ensures
        final(store).wf(),
        !old(store)@.trash.contains_key(ticket_id@) ==> (r matches Err(Error::Message(m))
            && m@ == not_in_trash_msg(ticket_id@) && final(store)@ == old(store)@),
        old(store)@.trash.contains_key(ticket_id@) ==> ({
            let e = old(store)@.trash[ticket_id@];
            match restore_target(old(store)@.board.lists, e.list) {
                None => r matches Err(Error::Message(m)) && m@ == no_lists_msg() && final(store)@ == old(store)@,
                Some(i) => if crate::store::valid_ticket_id_spec(ticket_id@) {
                    r matches Ok(t) && t@ == restored(e, now) && final(store)@ == after_restore(old(store)@, ticket_id@, e, i, now)
                } else {
                    r matches Err(Error::Message(m)) && m@ == invalid_ticket_id_msg(ticket_id@) && final(store)@ == old(store)@
                },
            }
        }),
{
    let ghost s0 = store@;
    let entry = match store.trash_entry(ticket_id) {
        Some(e) => e,
        None => return Err(Error::Message(cat3("`", ticket_id, "` is not in the trash (already restored or purged)"))),
    };
    proof {
        store.lemma_ids_valid();
    }
    let mut board = store.load_board();
    let target = match find_list(&board.lists, entry.list.as_str()) {
        Some(i) => {
            proof {
                lemma_first_list_index(s0.board.lists, entry.list@, i as int);
            }
            i
        },
        None => {
            proof {
                lemma_no_list_index(s0.board.lists, entry.list@);
            }
            if board.lists.len() == 0 {
                return Err(Error::Message(crate::text::owned("board has no lists to restore into")));
            }
            0
        },
    };
    let mut ticket = entry.ticket.clone();
    ticket.updated = now;
    assert(ticket@ == restored(entry@, now));
    match store.save_ticket(&ticket) {
        Ok(()) => {},
        Err(e) => return Err(e),
    }
    let ghost lists0 = board@.lists;
    assert(lists0[target as int].cards.len() == board.lists@[target as int].cards@.len());
    let _ = insert_card(&mut board.lists, target, entry.index, ticket_id);
    board.updated = now;
    store.save_board(&board);
    let _ = store.remove_trash(ticket_id);
    proof {
        assert(store@ == after_restore(s0, ticket_id@, entry@, target as int, now));
    }
    Ok(ticket)
}

// ---------------------------------------------------------------------------
// Listing
// ---------------------------------------------------------------------------

/// Newest deletion first.
pub open spec fn newest_deletion_first(es: Seq<TrashEntry>) -> bool {
    forall|a: int, b: int| 0 <= a <= b < es.len() ==> (#[trigger] es[a]).deleted_at >= (#[trigger] es[b]).deleted_at
}

/// The entries of `es`, newest deletion first.
fn newest_first(entries: Vec<TrashEntry>, Ghost(m): Ghost<Map<Seq<char>, TrashEntryV>>) -> (r: Vec<TrashEntry>)
    requires
        keys_distinct(entries@, trash_key()),
        forall|k: int| 0 <= k < entries@.len() ==> m[(#[trigger] entries@[k]).ticket.id@] == entries@[k]@,
    ensures
        keys_distinct(r@, trash_key()),
        forall|id: Seq<char>| keyed_has(r@, trash_key(), id) <==> keyed_has(entries@, trash_key(), id),
        forall|k: int| 0 <= k < r@.len() ==> m[(#[trigger] r@[k]).ticket.id@] == r@[k]@,
        newest_deletion_first(r@),
{
    let ghost es = entries@;
    let mut rest = entries;
    let mut out: Vec<TrashEntry> = Vec::new();
    while rest.len() > 0
        invariant
            rest@ == es.subrange(0, rest@.len() as int),
            rest@.len() <= es.len(),
            keys_distinct(es, trash_key()),
            forall|k: int| 0 <= k < es.len() ==> m[(#[trigger] es[k]).ticket.id@] == es[k]@,
            keys_distinct(out@, trash_key()),
            forall|id: Seq<char>| keyed_has(out@, trash_key(), id) <==> keyed_has(es.subrange(rest@.len() as int, es.len() as int), trash_key(), id),
            forall|k: int| 0 <= k < out@.len() ==> m[(#[trigger] out@[k]).ticket.id@] == out@[k]@,
            newest_deletion_first(out@),
        decreases rest@.len(),
    {
        let ghost j = rest@.len() - 1;
        let x = rest.pop().unwrap();
        assert(x == es[j]);
        let ghost tail = es.subrange(j + 1, es.len() as int);
        let ghost tail2 = es.subrange(j, es.len() as int);
        assert(tail2 =~= seq![x] + tail);
        let mut p: usize = 0;
        while p < out.len() && out[p].deleted_at >= x.deleted_at
            invariant
                p <= out@.len(),
                forall|a: int| 0 <= a < p ==> (#[trigger] out@[a]).deleted_at >= x.deleted_at,
            decreases out@.len() - p,
        {
            p = p + 1;
        }
        let ghost o = out@;
        assert(!keyed_has(o, trash_key(), x.ticket.id@)) by {
            if keyed_has(o, trash_key(), x.ticket.id@) {
                assert(keyed_has(tail, trash_key(), x.ticket.id@));
                let k = choose|k: int| 0 <= k < tail.len() && trash_key()(tail[k]) == x.ticket.id@;
                assert(tail[k] == es[j + 1 + k]);
                assert(trash_key()(es[j]) == trash_key()(es[j + 1 + k]));
            }
        }
        out.insert(p, x);
        proof {
            let n = out@;
            assert(n == o.insert(p as int, x));
            assert forall|a: int| 0 <= a < n.len() implies #[trigger] n[a] == (if a < p { o[a] } else if a == p { x } else { o[a - 1] }) by {}
            assert forall|a: int, b: int| 0 <= a < n.len() && 0 <= b < n.len() && a != b implies trash_key()(n[a]) != trash_key()(n[b]) by {
                if a == p && b != p {
                    let bb = if b < p { b } else { b - 1 };
                    assert(trash_key()(o[bb]) == trash_key()(n[b]));
                } else if b == p && a != p {
                    let aa = if a < p { a } else { a - 1 };
                    assert(trash_key()(o[aa]) == trash_key()(n[a]));
                }
            }
            assert forall|id: Seq<char>| keyed_has(n, trash_key(), id) <==> keyed_has(tail2, trash_key(), id) by {
                if keyed_has(n, trash_key(), id) {
                    let a = choose|a: int| 0 <= a < n.len() && trash_key()(n[a]) == id;
                    if a == p {
                        assert(trash_key()(tail2[0]) == id);
                    } else {
                        let aa = if a < p { a } else { a - 1 };
                        assert(trash_key()(o[aa]) == id);
                        assert(keyed_has(o, trash_key(), id));
                        assert(keyed_has(tail, trash_key(), id));
                        let k = choose|k: int| 0 <= k < tail.len() && trash_key()(tail[k]) == id;
                        assert(tail2[k + 1] == tail[k]);
                    }
                }
                if keyed_has(tail2, trash_key(), id) {
                    let k = choose|k: int| 0 <= k < tail2.len() && trash_key()(tail2[k]) == id;
                    if k == 0 {
                        assert(trash_key()(n[p as int]) == id);
                    } else {
                        assert(tail[k - 1] == tail2[k]);
                        assert(trash_key()(tail[k - 1]) == id);
                        assert(keyed_has(tail, trash_key(), id));
                        assert(keyed_has(o, trash_key(), id));
                        let a = choose|a: int| 0 <= a < o.len() && trash_key()(o[a]) == id;
                        if a < p {
                            assert(trash_key()(n[a]) == id);
                        } else {
                            assert(trash_key()(n[a + 1]) == id);
                        }
                    }
                }
            }
            assert forall|a: int, b: int| 0 <= a <= b < n.len() implies (#[trigger] n[a]).deleted_at >= (#[trigger] n[b]).deleted_at by {
                if p < o.len() {
                    assert(o[p as int].deleted_at < x.deleted_at);
                }
                if a < p && b > p {
                    assert(o[a].deleted_at >= o[b - 1].deleted_at);
                } else if a == p && b > p {
                    assert(o[p as int].deleted_at >= o[b - 1].deleted_at);
                } else if a > p {
                    assert(o[a - 1].deleted_at >= o[b - 1].deleted_at);
                } else if a < p && b < p {
                    assert(o[a].deleted_at >= o[b].deleted_at);
                }
            }
            assert(rest@ =~= es.subrange(0, rest@.len() as int));
        }
    }
    assert(es.subrange(0, es.len() as int) =~= es);
    out
}

/// List the trash, newest deletion first, after purging everything older than
/// `retention_days` (so callers never see entries that cannot be restored).
pub fn list_trash(store: &mut Store, retention_days: u64, now: Timestamp) -> (r: Result<Vec<TrashEntry>, Error>)
    requires
        old(store).wf(),
        retention_days <= MAX_RETENTION_DAYS,
        i128::MIN <= cutoff(now, retention_days),
    ensures
        final(store).wf(),
        final(store)@ == without_trash(old(store)@, doomed(old(store)@.trash, false, cutoff(now, retention_days))),
        r matches Ok(v) && {
            &&& keys_distinct(v@, trash_key())
            &&& forall|id: Seq<char>| #[trigger] final(store)@.trash.contains_key(id) <==> keyed_has(v@, trash_key(), id)
            &&& forall|k: int| 0 <= k < v@.len() ==> final(store)@.trash[(#[trigger] v@[k]).ticket.id@] == v@[k]@
            &&& newest_deletion_first(v@)
        },
{
    let _ = purge_expired(store, retention_days, now);
    let entries = store.trash_entries();
    let v = newest_first(entries, Ghost(store@.trash));
    proof {
        assert forall|id: Seq<char>| #[trigger] store@.trash.contains_key(id) <==> keyed_has(v@, trash_key(), id) by {}
    }
    Ok(v)
}

// ---------------------------------------------------------------------------
// Laws
// ---------------------------------------------------------------------------

/// Card `id` sits at position `k` of list `i` and nowhere else on the board.
pub open spec fn only_at(lists: Seq<ListV>, id: Seq<char>, i: int, k: int) -> bool {
    &&& 0 <= i < lists.len()
    &&& 0 <= k < lists[i].cards.len()
    &&& lists[i].cards[k] == id
    &&& forall|j: int, m: int|
        0 <= j < lists.len() && 0 <= m < lists[j].cards.len() && (j != i || m != k) ==> lists[j].cards[m] != id
}

/// Taking a card off a list keeps the cards before its first occurrence.
proof fn lemma_without_len(cards: Seq<Seq<char>>, id: Seq<char>, k: int)
    requires
        0 <= k <= cards.len(),
        forall|m: int| 0 <= m < k ==> cards[m] != id,
    ensures
        without(cards, id).len() >= k,
    decreases cards.len(),
{
    if cards.len() == k {
        crate::ops::lemma_without_absent(cards, id);
    } else {
        lemma_without_len(cards.drop_last(), id, k);
    }
}

/// Restoring a ticket that was just trashed brings it back unchanged but for
/// its update time, takes it out of the trash (an older entry for it included),
/// and puts its card back at the place of its first occurrence, on the first
/// list holding it: the board is the trashed one with the card reinserted there.
/// When the card sat in that one place only, the board is back exactly as it
/// was. (The list is found again by its ID, so no earlier list may share it.)
pub proof fn law_trash_restore_roundtrip(
    s: StoreV,
    id: Seq<char>,
    i: int,
    k: int,
    deleted: Timestamp,
    now: Timestamp,
    e: TrashEntryV,
)
    requires
        s.tickets.contains_key(id),
        crate::model::is_first_card(s.board.lists, id, i, k),
        forall|j: int| 0 <= j < i ==> s.board.lists[j].id != s.board.lists[i].id,
        parked_entry(s, id, deleted, e),
    ensures
        restore_target(after_trash(s, id, deleted, Some(e)).board.lists, e.list) == Some(i),
        after_restore(after_trash(s, id, deleted, Some(e)), id, e, i, now) == (StoreV {
            board: BoardV {
                lists: insert_card_spec(strip_card(s.board.lists, id), i, k, id),
                updated: now,
                ..s.board
            },
            tickets: s.tickets.insert(id, TicketV { updated: now, ..s.tickets[id] }),
            trash: s.trash.remove(id),
            ..s
        }),
        only_at(s.board.lists, id, i, k) ==> after_restore(after_trash(s, id, deleted, Some(e)), id, e, i, now).board
            == (BoardV { updated: now, ..s.board }),
{
    let lists = s.board.lists;
    let t = after_trash(s, id, deleted, Some(e));
    let stripped = t.board.lists;
    let i2 = choose|i2: int| crate::model::is_first_card(lists, id, i2, e.index as int) && e.list == lists[i2].id;
    assert(i2 == i && e.index == k) by {
        if i2 < i {
            assert(lists[i2].cards[e.index as int] == id);
            assert(card_in(lists[i2], id));
        } else if i < i2 {
            assert(lists[i].cards[k] == id);
            assert(card_in(lists[i], id));
        } else if e.index < k {
            assert(lists[i].cards[e.index as int] == id);
        } else if k < e.index {
            assert(lists[i].cards[k] == id);
        }
    }
    assert(stripped[i].id == e.list);
    assert forall|j: int| 0 <= j < i implies stripped[j].id != e.list by {}
    lemma_first_list_index(stripped, e.list, i);
    lemma_without_len(lists[i].cards, id, k);
    assert(clamp(e.index as int, stripped[i].cards.len() as int) == k);
    let back = after_restore(t, id, e, i, now);
    assert(back.board.lists =~= insert_card_spec(strip_card(lists, id), i, k, id));
    assert(t.trash.remove(id) =~= s.trash.remove(id));
    assert(t.tickets.insert(id, restored(e, now)) =~= s.tickets.insert(id, TicketV { updated: now, ..s.tickets[id] }));
    if only_at(lists, id, i, k) {
        crate::ops::lemma_without_once(lists[i].cards, id, k);
        assert forall|j: int| 0 <= j < lists.len() implies #[trigger] stripped[j] == (if j == i {
            ListV { cards: lists[i].cards.remove(k), ..lists[i] }
        } else {
            lists[j]
        }) by {
            if j != i {
                assert forall|m: int| 0 <= m < lists[j].cards.len() implies lists[j].cards[m] != id by {}
                crate::ops::lemma_without_absent(lists[j].cards, id);
            }
        }
        assert(lists[i].cards.remove(k).insert(k, id) =~= lists[i].cards);
        assert(back.board.lists =~= lists);
    }
}

} // verus!
