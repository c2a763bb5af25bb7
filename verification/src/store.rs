//! The board store: the records of one `.wipe` board, and the rules for reading
//! and writing them.
//!
//! [`Store`] is the only sanctioned way to read and write a board. It holds the
//! board, its definitions, settings, identities, subscriptions, tickets, forum
//! threads and trash. Tickets and threads are addressed by IDs that must be
//! `T-<digits>` / `F-<digits>`: anything else (a path separator, `..`) is refused,
//! so an ID can never name a file outside its directory.

use vstd::prelude::*;

use crate::error::Error;
use crate::keyed::{
    first_of_each, keyed_has, keyed_index, keyed_map, keys_distinct, lemma_keyed_at, lemma_keyed_empty,
    lemma_keyed_insert, lemma_keyed_prefix, lemma_keyed_remove, lemma_keyed_update,
};
use crate::model::{
    views, Board, BoardV, Definitions, DefinitionsV, Identity, IdentityV, Settings, SettingsV,
    sub_entry_view, Starter, Subscriptions, Thread, ThreadV, Ticket, TicketV, Timestamp,
};
use crate::text::{
    all_digits, cat, cat3, chars_of, is_alnum, is_alnum_exec, is_digit, is_digit_exec, owned,
    parse_u64, parse_u64_spec, same, skip_chars, string_of,
};
use crate::inbox::sub_key;
use crate::trash::{TrashEntry, TrashEntryV};

verus! {

// ---------------------------------------------------------------------------
// Paths
// ---------------------------------------------------------------------------

/// Name of the per-project board directory.
pub open spec fn wipe_dir_name() -> Seq<char> {
    seq!['.', 'w', 'i', 'p', 'e']
}

/// `Path::join` with a relative component, on `/`-separated paths.
pub open spec fn join_spec(a: Seq<char>, b: Seq<char>) -> Seq<char> {
    if a.len() == 0 {
        b
    } else if a.last() == '/' {
        a + b
    } else {
        a + seq!['/'] + b
    }
}

/// Join a relative component onto a path.
pub fn join_path(a: &str, b: &str) -> (r: String)
    ensures
        r@ == join_spec(a@, b@),
{
    proof {
        reveal_strlit("/");
    }
    let cs = chars_of(a);
    if cs.len() == 0 {
        owned(b)
    } else if cs[cs.len() - 1] == '/' {
        cat(a, b)
    } else {
        cat3(a, "/", b)
    }
}

/// The file name of an identity's inbox cursor: ASCII alphanumerics kept, every
/// other character replaced by `_`.
pub open spec fn cursor_slug(s: Seq<char>) -> Seq<char> {
    s.map_values(|c: char| if is_alnum(c) { c } else { '_' })
}

// ---------------------------------------------------------------------------
// IDs
// ---------------------------------------------------------------------------

/// `<lead>-` followed by one or more ASCII digits.
pub open spec fn valid_prefixed(id: Seq<char>, lead: char) -> bool {
    id.len() > 2 && id[0] == lead && id[1] == '-' && all_digits(id.subrange(2, id.len() as int))
}

/// A ticket ID must be `T-` followed by digits only.
pub open spec fn valid_ticket_id_spec(id: Seq<char>) -> bool {
    valid_prefixed(id, 'T')
}

/// A thread ID must be `F-` followed by digits only.
pub open spec fn valid_thread_id_spec(id: Seq<char>) -> bool {
    valid_prefixed(id, 'F')
}

/// The numeric counter of an ID (`T-12` -> 12), or `u64::MAX` when it does not fit.
pub open spec fn counter_key(id: Seq<char>) -> u64 {
    match parse_u64_spec(id.subrange(2, id.len() as int)) {
        Some(n) => n,
        None => u64::MAX,
    }
}

/// Whether `id` is `<lead>-` followed by one or more digits.
fn valid_prefixed_id(id: &str, lead: char) -> (r: bool)
    ensures
        r == valid_prefixed(id@, lead),
{
    let cs = chars_of(id);
    if cs.len() <= 2 || cs[0] != lead || cs[1] != '-' {
        return false;
    }
    let mut i: usize = 2;
    while i < cs.len()
        invariant
            cs@ == id@,
            2 <= i <= cs@.len(),
            forall|k: int| 2 <= k < i ==> is_digit(#[trigger] cs@[k]),
        decreases cs@.len() - i,
    {
        if !is_digit_exec(cs[i]) {
            assert(!is_digit(id@.subrange(2, id@.len() as int)[i - 2]));
            return false;
        }
        i = i + 1;
    }
    assert(all_digits(id@.subrange(2, id@.len() as int))) by {
        assert forall|k: int| 0 <= k < id@.len() - 2 implies is_digit(#[trigger] id@.subrange(2, id@.len() as int)[k]) by {
            assert(id@.subrange(2, id@.len() as int)[k] == cs@[k + 2]);
        }
    }
    true
}

/// Whether `id` is a well-formed ticket ID (`T-<digits>`).
pub fn valid_ticket_id(id: &str) -> (r: bool)
    ensures
        r == valid_ticket_id_spec(id@),
{
    valid_prefixed_id(id, 'T')
}

/// Whether `id` is a well-formed thread ID (`F-<digits>`).
pub fn valid_thread_id(id: &str) -> (r: bool)
    ensures
        r == valid_thread_id_spec(id@),
{
    valid_prefixed_id(id, 'F')
}

/// The numeric counter of a well-formed ID, `u64::MAX` when it overflows.
fn id_counter(id: &str) -> (k: u64)
    requires
        id@.len() >= 2,
    ensures
        k == counter_key(id@),
{
    match parse_u64(skip_chars(id, 2).as_str()) {
        Some(n) => n,
        None => u64::MAX,
    }
}

// ---------------------------------------------------------------------------
// The store
// ---------------------------------------------------------------------------

/// The key of a ticket: its ID.
pub open spec fn ticket_key() -> spec_fn(Ticket) -> Seq<char> {
    |t: Ticket| t.id@
}

/// The value of a ticket.
pub open spec fn ticket_val() -> spec_fn(Ticket) -> TicketV {
    |t: Ticket| t@
}

/// The key of a thread: its ID.
pub open spec fn thread_key() -> spec_fn(Thread) -> Seq<char> {
    |t: Thread| t.id@
}

/// The value of a thread.
pub open spec fn thread_val() -> spec_fn(Thread) -> ThreadV {
    |t: Thread| t@
}

/// The key of a trash entry: its ticket's ID.
pub open spec fn trash_key() -> spec_fn(TrashEntry) -> Seq<char> {
    |e: TrashEntry| e.ticket.id@
}

/// The value of a trash entry.
pub open spec fn trash_val() -> spec_fn(TrashEntry) -> TrashEntryV {
    |e: TrashEntry| e@
}

/// Everything a board holds, as loaded from (or written to) its files.
#[derive(Debug)]
pub struct Contents {
    /// `board.json`.
    pub board: Board,
    /// `definitions.json`.
    pub definitions: Definitions,
    /// `settings.json`.
    pub settings: Settings,
    /// `identities.json`.
    pub identities: Vec<Identity>,
    /// `subscriptions.json`.
    pub subscriptions: Subscriptions,
    /// `tickets/*.json`.
    pub tickets: Vec<Ticket>,
    /// `forum/*.json`.
    pub threads: Vec<Thread>,
    /// The trash under the cache directory.
    pub trash: Vec<TrashEntry>,
}

/// A `.wipe` board rooted at a project directory.
#[derive(Debug)]
pub struct Store {
    root: String,
    board: Board,
    definitions: Definitions,
    settings: Settings,
    identities: Vec<Identity>,
    subscriptions: Subscriptions,
    tickets: Vec<Ticket>,
    threads: Vec<Thread>,
    trash: Vec<TrashEntry>,
}

/// The value of a [`Store`]: tickets, threads and trash entries as maps from ID.
pub struct StoreV {
    pub root: Seq<char>,
    pub board: BoardV,
    pub definitions: DefinitionsV,
    pub settings: SettingsV,
    pub identities: Seq<IdentityV>,
    pub subscriptions: Seq<(Seq<char>, Seq<Seq<char>>)>,
    pub tickets: Map<Seq<char>, TicketV>,
    pub threads: Map<Seq<char>, ThreadV>,
    pub trash: Map<Seq<char>, TrashEntryV>,
}

impl View for Store {
    type V = StoreV;

    closed spec fn view(&self) -> StoreV {
        StoreV {
            root: self.root@,
            board: self.board@,
            definitions: self.definitions@,
            settings: self.settings@,
            identities: views(self.identities@),
            subscriptions: self.subscriptions@,
            tickets: keyed_map(self.tickets@, ticket_key(), ticket_val()),
            threads: keyed_map(self.threads@, thread_key(), thread_val()),
            trash: keyed_map(self.trash@, trash_key(), trash_val()),
        }
    }
}

/// "invalid ticket id `<id>`".
pub open spec fn invalid_ticket_id_msg(id: Seq<char>) -> Seq<char> {
    seq!['i', 'n', 'v', 'a', 'l', 'i', 'd', ' ', 't', 'i', 'c', 'k', 'e', 't', ' ', 'i', 'd', ' ', '`'] + id + seq!['`']
}

/// Keys are valid, distinct and ordered by their counter.
pub open spec fn ordered_ids<T>(s: Seq<T>, key: spec_fn(T) -> Seq<char>, lead: char) -> bool {
    &&& keys_distinct(s, key)
    &&& forall|i: int| 0 <= i < s.len() ==> valid_prefixed(#[trigger] key(s[i]), lead)
    &&& forall|i: int, j: int|
        0 <= i <= j < s.len() ==> counter_key(key(s[i])) <= counter_key(key(s[j]))
}

/// The IDs `ids` are exactly the keys of `m`, each once, ordered by counter.
pub open spec fn lists_keys<V>(ids: Seq<Seq<char>>, m: Map<Seq<char>, V>) -> bool {
    &&& forall|i: int, j: int| 0 <= i < ids.len() && 0 <= j < ids.len() && i != j ==> ids[i] != ids[j]
    &&& forall|id: Seq<char>| m.contains_key(id) <==> ids.contains(id)
    &&& forall|i: int, j: int| 0 <= i <= j < ids.len() ==> counter_key(ids[i]) <= counter_key(ids[j])
}

/// Well-formed ticket IDs.
pub open spec fn ticket_id_set() -> Set<Seq<char>> {
    Set::new(|id: Seq<char>| valid_ticket_id_spec(id))
}

/// Well-formed thread IDs.
pub open spec fn thread_id_set() -> Set<Seq<char>> {
    Set::new(|id: Seq<char>| valid_thread_id_spec(id))
}

/// `s` holds what `c` holds: its files, minus tickets and threads whose IDs are
/// malformed (such files are never addressable).
pub open spec fn loaded(s: StoreV, root: Seq<char>, c: Contents) -> bool {
    &&& s.root == root
    &&& s.board == c.board@
    &&& s.definitions == c.definitions@
    &&& s.settings == c.settings@
    &&& s.identities == views(c.identities@)
    &&& s.subscriptions == first_of_each(c.subscriptions@, sub_key())
    &&& keys_distinct(c.tickets@, ticket_key()) ==> s.tickets == keyed_map(c.tickets@, ticket_key(), ticket_val()).restrict(ticket_id_set())
    &&& keys_distinct(c.threads@, thread_key()) ==> s.threads == keyed_map(c.threads@, thread_key(), thread_val()).restrict(thread_id_set())
    &&& keys_distinct(c.trash@, trash_key()) ==> s.trash == keyed_map(c.trash@, trash_key(), trash_val())
}

/// `c` holds exactly what `s` holds, each ticket, thread and trash entry once.
pub open spec fn mirrors(c: Contents, s: StoreV) -> bool {
    &&& c.board@ == s.board
    &&& c.definitions@ == s.definitions
    &&& c.settings@ == s.settings
    &&& views(c.identities@) == s.identities
    &&& c.subscriptions@ == s.subscriptions
    &&& keys_distinct(c.tickets@, ticket_key())
    &&& keyed_map(c.tickets@, ticket_key(), ticket_val()) == s.tickets
    &&& keys_distinct(c.threads@, thread_key())
    &&& keyed_map(c.threads@, thread_key(), thread_val()) == s.threads
    &&& keys_distinct(c.trash@, trash_key())
    &&& keyed_map(c.trash@, trash_key(), trash_val()) == s.trash
}

/// The board with `b` in place of the old one.
pub open spec fn with_board(s: StoreV, b: BoardV) -> StoreV {
    StoreV { board: b, ..s }
}

/// The subscriptions with only the first entry of each identity kept.
fn distinct_subscriptions(subs: &Subscriptions) -> (r: Subscriptions)
    ensures
        r@ == first_of_each(subs@, sub_key()),
        keys_distinct(r@, sub_key()),
{
    let mut out: Vec<(String, Vec<String>)> = Vec::new();
    let mut i: usize = 0;
    while i < subs.subs.len()
        invariant
            i <= subs.subs@.len(),
            out@.map_values(|e: (String, Vec<String>)| sub_entry_view(e)) == first_of_each(subs@.subrange(0, i as int), sub_key()),
        decreases subs.subs@.len() - i,
    {
        let ghost pre = subs@.subrange(0, i as int);
        let ghost ov = out@.map_values(|e: (String, Vec<String>)| sub_entry_view(e));
        proof {
            crate::keyed::lemma_first_of_each(pre, sub_key());
        }
        let mut seen = false;
        let mut j: usize = 0;
        while j < out.len()
            invariant
                j <= out@.len(),
                i < subs.subs@.len(),
                ov == out@.map_values(|e: (String, Vec<String>)| sub_entry_view(e)),
                seen == exists|m: int| 0 <= m < j && ov[m].0 == subs@[i as int].0,
            decreases out@.len() - j,
        {
            assert(ov[j as int].0 == out@[j as int].0@);
            assert(subs@[i as int].0 == subs.subs@[i as int].0@);
            if same(out[j].0.as_str(), subs.subs[i].0.as_str()) {
                seen = true;
            }
            j = j + 1;
        }
        let ghost x = subs@[i as int];
        assert(subs@.subrange(0, i + 1).drop_last() =~= pre);
        assert(subs@.subrange(0, i + 1).last() == x);
        proof {
            if seen {
                let m = choose|m: int| 0 <= m < j && ov[m].0 == subs@[i as int].0;
                assert(sub_key()(ov[m]) == sub_key()(x));
                assert(keyed_has(ov, sub_key(), sub_key()(x)));
            } else {
                if keyed_has(ov, sub_key(), sub_key()(x)) {
                    let m = choose|m: int| 0 <= m < ov.len() && sub_key()(ov[m]) == sub_key()(x);
                    assert(ov[m].0 == subs@[i as int].0);
                }
            }
        }
        if !seen {
            let e = (subs.subs[i].0.clone(), crate::model::clone_strings(&subs.subs[i].1));
            out.push(e);
            assert(out@.map_values(|e: (String, Vec<String>)| sub_entry_view(e)) =~= ov.push(x));
        }
        i = i + 1;
    }
    assert(subs@.subrange(0, i as int) =~= subs@);
    proof {
        crate::keyed::lemma_first_of_each(subs@, sub_key());
    }
    Subscriptions { subs: out }
}

impl Store {
    /// The store's internal consistency: ticket and thread IDs are well-formed,
    /// distinct and ordered by counter; trash entries are distinct by ticket ID;
    /// each identity has at most one subscription entry.
    pub closed spec fn wf(&self) -> bool {
        &&& ordered_ids(self.tickets@, ticket_key(), 'T')
        &&& ordered_ids(self.threads@, thread_key(), 'F')
        &&& keys_distinct(self.trash@, trash_key())
        &&& keys_distinct(self.subscriptions@, sub_key())
    }

    /// Each identity has at most one subscription entry.
    pub proof fn lemma_subs_distinct(&self)
        requires
            self.wf(),
        ensures
            keys_distinct(self@.subscriptions, sub_key()),
    {
    }

    /// Every stored ticket and thread has a well-formed ID, and every record is
    /// stored under its own ID.
    pub proof fn lemma_ids_valid(&self)
        requires
            self.wf(),
        ensures
            forall|id: Seq<char>| #[trigger] self@.tickets.contains_key(id) ==> valid_ticket_id_spec(id) && self@.tickets[id].id == id,
            forall|id: Seq<char>| #[trigger] self@.threads.contains_key(id) ==> valid_thread_id_spec(id) && self@.threads[id].id == id,
            forall|id: Seq<char>| #[trigger] self@.trash.contains_key(id) ==> self@.trash[id].ticket.id == id,
    {
        assert forall|id: Seq<char>| #[trigger] self@.tickets.contains_key(id) implies valid_ticket_id_spec(id) && self@.tickets[id].id == id by {
            let i = keyed_index(self.tickets@, ticket_key(), id);
            assert(ticket_key()(self.tickets@[i]) == id);
            lemma_keyed_at(self.tickets@, ticket_key(), ticket_val(), i);
        }
        assert forall|id: Seq<char>| #[trigger] self@.threads.contains_key(id) implies valid_thread_id_spec(id) && self@.threads[id].id == id by {
            let i = keyed_index(self.threads@, thread_key(), id);
            assert(thread_key()(self.threads@[i]) == id);
            lemma_keyed_at(self.threads@, thread_key(), thread_val(), i);
        }
        assert forall|id: Seq<char>| #[trigger] self@.trash.contains_key(id) implies self@.trash[id].ticket.id == id by {
            let i = keyed_index(self.trash@, trash_key(), id);
            assert(trash_key()(self.trash@[i]) == id);
            lemma_keyed_at(self.trash@, trash_key(), trash_val(), i);
        }
    }

    /// The store holds finitely many threads and tickets.
    pub proof fn lemma_finite(&self)
        ensures
            self@.threads.dom().finite(),
            self@.tickets.dom().finite(),
            self@.trash.dom().finite(),
    {
        crate::keyed::lemma_keyed_finite(self.threads@, thread_key(), thread_val());
        crate::keyed::lemma_keyed_finite(self.tickets@, ticket_key(), ticket_val());
        crate::keyed::lemma_keyed_finite(self.trash@, trash_key(), trash_val());
    }

    fn from_parts(root: String, board: Board, definitions: Definitions, settings: Settings) -> (s: Store)
        ensures
            s.wf(),
            s@ == (StoreV {
                root: root@,
                board: board@,
                definitions: definitions@,
                settings: settings@,
                identities: Seq::empty(),
                subscriptions: Seq::empty(),
                tickets: Map::empty(),
                threads: Map::empty(),
                trash: Map::empty(),
            }),
    {
        let s = Store {
            root,
            board,
            definitions,
            settings,
            identities: Vec::new(),
            subscriptions: Subscriptions::default(),
            tickets: Vec::new(),
            threads: Vec::new(),
            trash: Vec::new(),
        };
        proof {
            lemma_keyed_empty(ticket_key(), ticket_val());
            lemma_keyed_empty(thread_key(), thread_val());
            lemma_keyed_empty(trash_key(), trash_val());
            assert(views(s.identities@) =~= Seq::empty());
            assert(s.subscriptions@ =~= Seq::empty());
        }
        s
    }

    /// Initialize a brand-new board under `root` with the standard starter
    /// content. `exists` says whether `root/.wipe` is already there, in which
    /// case the board is refused with [`Error::AlreadyInitialized`].
    pub fn init(root: &str, name: &str, now: Timestamp, exists: bool) -> (r: Result<Store, Error>)
        ensures
            exists ==> (r matches Err(Error::AlreadyInitialized(p)) && p@ == join_spec(root@, wipe_dir_name())),
            !exists ==> (r matches Ok(s) && s.wf() && s@.root == root@ && s@.board.name == name@
                && s@.board.lists.len() == 4 && s@.definitions.labels.len() == 3
                && s@.tickets.len() == 0 && s@.threads.len() == 0),
    {
        Self::init_with(root, name, now, Starter::Standard, exists)
    }

    /// Initialize a brand-new board, choosing the starter content: the standard
    /// lists and labels, the lists only, or a blank board. Priorities and types are
    /// seeded for every starter; labels only for the standard one.
    pub fn init_with(root: &str, name: &str, now: Timestamp, starter: Starter, exists: bool) -> (r: Result<Store, Error>)
        ensures
            exists ==> (r matches Err(Error::AlreadyInitialized(p)) && p@ == join_spec(root@, wipe_dir_name())),
            !exists ==> (r matches Ok(s) && s.wf() && s@.root == root@ && s@.board.name == name@
                && s@.board.version == crate::model::FORMAT_VERSION
                && s@.board.next_ticket == 1 && s@.board.next_thread == 1
                && s@.board.created == now && s@.board.updated == now
                && (starter == Starter::Empty ==> s@.board.lists.len() == 0)
                && (starter != Starter::Empty ==> s@.board.lists.len() == 4 && forall|i: int|
                    0 <= i < 4 ==> (#[trigger] s@.board.lists[i]).name == crate::model::default_list_names()[i]
                        && s@.board.lists[i].id == crate::id::slug_spec(crate::model::default_list_names()[i])
                        && s@.board.lists[i].cards.len() == 0)
                && s@.definitions.types == crate::model::seed_types()
                && s@.definitions.priorities == crate::model::seed_priorities()
                && (starter == Starter::Standard ==> s@.definitions.labels.len() == 3)
                && (starter != Starter::Standard ==> s@.definitions.labels.len() == 0)
                && s@.settings.daemon == crate::model::default_daemon()
                && s@.settings.default_author is None
                && s@.identities.len() == 0 && s@.subscriptions.len() == 0
                && s@.tickets.len() == 0 && s@.threads.len() == 0 && s@.trash.len() == 0),
    {
        proof {
            reveal_strlit(".wipe");
        }
        if exists {
            let wipe = join_path(root, ".wipe");
            return Err(Error::AlreadyInitialized(wipe));
        }
        let board = match starter {
            Starter::Empty => Board::empty(name, now),
            _ => Board::new(name, now),
        };
        let mut defs = Definitions::seed();
        if starter != Starter::Standard {
            defs.labels.clear();
        }
        let s = Self::from_parts(owned(root), board, defs, Settings::default());
        proof {
            crate::keyed::lemma_keyed_empty(ticket_key(), ticket_val());
            assert(s@.tickets.dom() =~= Set::empty());
            assert(s@.threads.dom() =~= Set::empty());
            assert(s@.trash.dom() =~= Set::empty());
        }
        Ok(s)
    }

    // --- locations -----------------------------------------------------------

    /// The project root directory (the parent of `.wipe`).
    pub fn root(&self) -> (r: &str)
        ensures
            r@ == self@.root,
    {
        self.root.as_str()
    }

    /// Path to the `.wipe` directory.
    pub fn wipe_dir(&self) -> (r: String)
        ensures
            r@ == join_spec(self@.root, wipe_dir_name()),
    {
        proof {
            reveal_strlit(".wipe");
        }
        join_path(self.root.as_str(), ".wipe")
    }

    /// Path to the media directory (version-controlled attachments).
    pub fn media_dir(&self) -> (r: String)
        ensures
            r@ == join_spec(join_spec(self@.root, wipe_dir_name()), seq!['m', 'e', 'd', 'i', 'a']),
    {
        proof {
            reveal_strlit("media");
        }
        join_path(self.wipe_dir().as_str(), "media")
    }

    /// Path to the (gitignored) cache directory.
    pub fn cache_dir(&self) -> (r: String)
        ensures
            r@ == join_spec(join_spec(self@.root, wipe_dir_name()), seq!['.', 'c', 'a', 'c', 'h', 'e']),
    {
        proof {
            reveal_strlit(".cache");
        }
        join_path(self.wipe_dir().as_str(), ".cache")
    }

    /// Path to the forum directory.
    pub fn forum_dir(&self) -> (r: String)
        ensures
            r@ == join_spec(join_spec(self@.root, wipe_dir_name()), seq!['f', 'o', 'r', 'u', 'm']),
    {
        proof {
            reveal_strlit("forum");
        }
        join_path(self.wipe_dir().as_str(), "forum")
    }

    /// Path to the trash directory, inside the cache.
    pub fn trash_dir(&self) -> (r: String)
        ensures
            r@ == join_spec(
                join_spec(join_spec(self@.root, wipe_dir_name()), seq!['.', 'c', 'a', 'c', 'h', 'e']),
                seq!['t', 'r', 'a', 's', 'h'],
            ),
    {
        proof {
            reveal_strlit("trash");
        }
        join_path(self.cache_dir().as_str(), "trash")
    }

    /// Path to `identity`'s (gitignored) inbox read-cursor file under the cache:
    /// `inbox/<slug>.json`, where the slug keeps ASCII alphanumerics and turns
    /// every other character into `_`.
    pub fn inbox_cursor_path(&self, identity: &str) -> (r: String)
        ensures
            r@ == join_spec(
                join_spec(
                    join_spec(join_spec(self@.root, wipe_dir_name()), seq!['.', 'c', 'a', 'c', 'h', 'e']),
                    seq!['i', 'n', 'b', 'o', 'x'],
                ),
                cursor_slug(identity@) + seq!['.', 'j', 's', 'o', 'n'],
            ),
    {
        proof {
            reveal_strlit("inbox");
            reveal_strlit(".json");
        }
        let cs = chars_of(identity);
        let mut out: Vec<char> = Vec::new();
        let mut i: usize = 0;
        while i < cs.len()
            invariant
                cs@ == identity@,
                i <= cs@.len(),
                out@ == cursor_slug(identity@).subrange(0, i as int),
            decreases cs@.len() - i,
        {
            let c = cs[i];
            if is_alnum_exec(c) {
                out.push(c);
            } else {
                out.push('_');
            }
            assert(out@ =~= cursor_slug(identity@).subrange(0, i + 1));
            i = i + 1;
        }
        assert(out@ =~= cursor_slug(identity@));
        let slug = string_of(out.as_slice());
        let file = cat(slug.as_str(), ".json");
        let dir = join_path(self.cache_dir().as_str(), "inbox");
        join_path(dir.as_str(), file.as_str())
    }

    // --- board, definitions, settings, identities, subscriptions -----------

    /// The board.
    pub fn board(&self) -> (r: &Board)
        ensures
            r@ == self@.board,
    {
        &self.board
    }

    /// A copy of the board.
    pub fn load_board(&self) -> (r: Board)
        ensures
            r@ == self@.board,
    {
        self.board.clone()
    }

    /// Replace the board.
    pub fn save_board(&mut self, board: &Board)
        requires
            old(self).wf(),
        ensures
            final(self).wf(),
            final(self)@ == with_board(old(self)@, board@),
    {
        self.board = board.clone();
    }

    /// A copy of the definitions.
    pub fn load_definitions(&self) -> (r: Definitions)
        ensures
            r@ == self@.definitions,
    {
        self.definitions.clone()
    }

    /// Replace the definitions.
    pub fn save_definitions(&mut self, defs: &Definitions)
        requires
            old(self).wf(),
        ensures
            final(self).wf(),
            final(self)@ == (StoreV { definitions: defs@, ..old(self)@ }),
    {
        self.definitions = defs.clone();
    }

    /// A copy of the settings.
    pub fn load_settings(&self) -> (r: Settings)
        ensures
            r@ == self@.settings,
    {
        self.settings.clone()
    }

    /// Replace the settings.
    pub fn save_settings(&mut self, settings: &Settings)
        requires
            old(self).wf(),
        ensures
            final(self).wf(),
            final(self)@ == (StoreV { settings: settings@, ..old(self)@ }),
    {
        self.settings = settings.clone();
    }

    /// A copy of the identity registry.
    pub fn load_identities(&self) -> (r: Vec<Identity>)
        ensures
            views(r@) == self@.identities,
    {
        crate::model::clone_exact(&self.identities)
    }

    /// Replace the identity registry.
    pub fn save_identities(&mut self, identities: &Vec<Identity>)
        requires
            old(self).wf(),
        ensures
            final(self).wf(),
            final(self)@ == (StoreV { identities: views(identities@), ..old(self)@ }),
    {
        self.identities = crate::model::clone_exact(identities);
    }

    /// A copy of the subscriptions.
    pub fn load_subscriptions(&self) -> (r: Subscriptions)
        ensures
            r@ == self@.subscriptions,
    {
        self.subscriptions.clone()
    }

    /// Replace the subscriptions (at most one entry per identity).
    pub fn save_subscriptions(&mut self, subs: &Subscriptions)
        requires
            old(self).wf(),
            keys_distinct(subs@, sub_key()),
        ensures
            final(self).wf(),
            final(self)@ == (StoreV { subscriptions: subs@, ..old(self)@ }),
    {
        self.subscriptions = subs.clone();
    }

    // --- tickets -----------------------------------------------------------

    fn ticket_pos(&self, id: &str) -> (r: Option<usize>)
        requires
            self.wf(),
        ensures
            r matches Some(i) ==> i < self.tickets@.len() && self.tickets@[i as int].id@ == id@,
            r is None ==> !self@.tickets.contains_key(id@),
    {
        let mut i: usize = 0;
        while i < self.tickets.len()
            invariant
                i <= self.tickets@.len(),
                forall|k: int| 0 <= k < i ==> (#[trigger] self.tickets@[k]).id@ != id@,
            decreases self.tickets@.len() - i,
        {
            if crate::text::same(self.tickets[i].id.as_str(), id) {
                return Some(i);
            }
            i = i + 1;
        }
        proof {
            if keyed_has(self.tickets@, ticket_key(), id@) {
                let k = keyed_index(self.tickets@, ticket_key(), id@);
                assert(ticket_key()(self.tickets@[k]) == id@);
            }
        }
        None
    }

    /// Load a single ticket by ID. Errors with [`Error::TicketNotFound`] for an
    /// unknown or malformed ID.
    pub fn load_ticket(&self, id: &str) -> (r: Result<Ticket, Error>)
        requires
            self.wf(),
        ensures
            self@.tickets.contains_key(id@) ==> (r matches Ok(t) && t@ == self@.tickets[id@]),
            !self@.tickets.contains_key(id@) ==> (r matches Err(Error::TicketNotFound(s)) && s@ == id@),
    {
        match self.ticket_pos(id) {
            Some(i) => {
                proof {
                    lemma_keyed_at(self.tickets@, ticket_key(), ticket_val(), i as int);
                }
                Ok(self.tickets[i].clone())
            },
            None => Err(Error::TicketNotFound(owned(id))),
        }
    }

    /// Whether a ticket with this ID exists.
    pub fn has_ticket(&self, id: &str) -> (r: bool)
        requires
            self.wf(),
        ensures
            r == self@.tickets.contains_key(id@),
    {
        match self.ticket_pos(id) {
            Some(i) => {
                proof {
                    lemma_keyed_at(self.tickets@, ticket_key(), ticket_val(), i as int);
                }
                true
            },
            None => false,
        }
    }

    /// Write a ticket, replacing any ticket with the same ID. A malformed ID is
    /// refused.
    pub fn save_ticket(&mut self, ticket: &Ticket) -> (r: Result<(), Error>)
        requires
            old(self).wf(),
        ensures
            final(self).wf(),
            valid_ticket_id_spec(ticket.id@) ==> r is Ok && final(self)@ == (StoreV {
                tickets: old(self)@.tickets.insert(ticket.id@, ticket@),
                ..old(self)@
            }),
            !valid_ticket_id_spec(ticket.id@) ==> (r matches Err(Error::Message(m)) && m@
                == invalid_ticket_id_msg(ticket.id@) && final(self)@ == old(self)@),
    {
        if !valid_ticket_id(ticket.id.as_str()) {
            proof {
                reveal_strlit("invalid ticket id `");
                reveal_strlit("`");
            }
            return Err(Error::Message(cat3("invalid ticket id `", ticket.id.as_str(), "`")));
        }
        let t = ticket.clone();
        assert(t.id@ == ticket.id@);
        match self.ticket_pos(ticket.id.as_str()) {
            Some(i) => {
                proof {
                    lemma_keyed_update(self.tickets@, ticket_key(), ticket_val(), i as int, t);
                }
                self.tickets.set(i, t);
            },
            None => {
                let k = id_counter(ticket.id.as_str());
                let mut p: usize = 0;
                loop
                    invariant
                        self.wf(),
                        k == counter_key(ticket.id@),
                        p <= self.tickets@.len(),
                        forall|m: int| 0 <= m < p ==> counter_key(#[trigger] self.tickets@[m].id@) <= k,
                    ensures
                        p <= self.tickets@.len(),
                        forall|m: int| 0 <= m < p ==> counter_key(#[trigger] self.tickets@[m].id@) <= k,
                        p < self.tickets@.len() ==> counter_key(self.tickets@[p as int].id@) > k,
                    decreases self.tickets@.len() - p,
                {
                    if p >= self.tickets.len() {
                        break;
                    }
                    assert(valid_prefixed(ticket_key()(self.tickets@[p as int]), 'T'));
                    if id_counter(self.tickets[p].id.as_str()) > k {
                        break;
                    }
                    p = p + 1;
                }
                proof {
                    lemma_keyed_insert(self.tickets@, ticket_key(), ticket_val(), p as int, t);
                }
                let ghost before = self.tickets@;
                self.tickets.insert(p, t);
                proof {
                    let after = self.tickets@;
                    assert forall|a: int| 0 <= a < after.len() implies #[trigger] after[a] == (if a < p {
                        before[a]
                    } else if a == p {
                        t
                    } else {
                        before[a - 1]
                    }) by {}
                    assert forall|a: int| 0 <= a < after.len() implies valid_prefixed(#[trigger] ticket_key()(after[a]), 'T') by {
                        if a < p {
                            assert(valid_prefixed(ticket_key()(before[a]), 'T'));
                        } else if a > p {
                            assert(valid_prefixed(ticket_key()(before[a - 1]), 'T'));
                        }
                    }
                    assert forall|a: int, b: int| 0 <= a <= b < after.len() implies counter_key(ticket_key()(after[a])) <= counter_key(ticket_key()(after[b])) by {
                        if p < before.len() {
                            assert(counter_key(before[p as int].id@) > k);
                        }
                        if a < p && b > p {
                            assert(counter_key(before[a].id@) <= k);
                            assert(counter_key(before[p as int].id@) <= counter_key(before[b - 1].id@));
                        } else if a < p && b < p {
                            assert(counter_key(before[a].id@) <= counter_key(before[b].id@));
                        } else if a > p && b > p {
                            assert(counter_key(before[a - 1].id@) <= counter_key(before[b - 1].id@));
                        } else if a == p && b > p {
                            assert(counter_key(before[p as int].id@) <= counter_key(before[b - 1].id@));
                        } else if a < p && b == p {
                            assert(counter_key(before[a].id@) <= k);
                        }
                    }
                }
            },
        }
        Ok(())
    }

    /// Delete a ticket. Errors with [`Error::TicketNotFound`] if it does not exist.
    pub fn delete_ticket(&mut self, id: &str) -> (r: Result<(), Error>)
        requires
            old(self).wf(),
        ensures
            final(self).wf(),
            old(self)@.tickets.contains_key(id@) ==> r is Ok && final(self)@ == (StoreV {
                tickets: old(self)@.tickets.remove(id@),
                ..old(self)@
            }),
            !old(self)@.tickets.contains_key(id@) ==> (r matches Err(Error::TicketNotFound(s)) && s@ == id@
                && final(self)@ == old(self)@),
    {
        match self.ticket_pos(id) {
            Some(i) => {
                proof {
                    lemma_keyed_at(self.tickets@, ticket_key(), ticket_val(), i as int);
                    lemma_keyed_remove(self.tickets@, ticket_key(), ticket_val(), i as int);
                }
                let ghost before = self.tickets@;
                self.tickets.remove(i);
                proof {
                    let after = self.tickets@;
                    assert forall|a: int| 0 <= a < after.len() implies #[trigger] after[a] == (if a < i {
                        before[a]
                    } else {
                        before[a + 1]
                    }) by {}
                    assert forall|a: int| 0 <= a < after.len() implies valid_prefixed(#[trigger] ticket_key()(after[a]), 'T') by {
                        if a < i {
                            assert(valid_prefixed(ticket_key()(before[a]), 'T'));
                        } else {
                            assert(valid_prefixed(ticket_key()(before[a + 1]), 'T'));
                        }
                    }
                    assert forall|a: int, b: int| 0 <= a <= b < after.len() implies counter_key(ticket_key()(after[a])) <= counter_key(ticket_key()(after[b])) by {
                        let sa = if a < i { a } else { a + 1 };
                        let sb = if b < i { b } else { b + 1 };
                        assert(counter_key(before[sa].id@) <= counter_key(before[sb].id@));
                    }
                }
                Ok(())
            },
            None => Err(Error::TicketNotFound(owned(id))),
        }
    }

    /// All ticket IDs, ordered numerically by counter (`T-2` before `T-10`).
    pub fn ticket_ids(&self) -> (r: Vec<String>)
        requires
            self.wf(),
        ensures
            lists_keys(crate::model::texts(r@), self@.tickets),
    {
        let mut out: Vec<String> = Vec::new();
        let mut i: usize = 0;
        while i < self.tickets.len()
            invariant
                self.wf(),
                i <= self.tickets@.len(),
                out@.len() == i,
                forall|k: int| 0 <= k < i ==> (#[trigger] out@[k])@ == self.tickets@[k].id@,
            decreases self.tickets@.len() - i,
        {
            out.push(self.tickets[i].id.clone());
            i = i + 1;
        }
        proof {
            let ids = crate::model::texts(out@);
            assert forall|a: int| 0 <= a < ids.len() implies #[trigger] ids[a] == ticket_key()(self.tickets@[a]) by {}
            assert forall|id: Seq<char>| self@.tickets.contains_key(id) <==> ids.contains(id) by {
                if self@.tickets.contains_key(id) {
                    let k = keyed_index(self.tickets@, ticket_key(), id);
                    assert(ids[k] == id);
                }
                if ids.contains(id) {
                    let k = choose|k: int| 0 <= k < ids.len() && ids[k] == id;
                    assert(ticket_key()(self.tickets@[k]) == id);
                }
            }
        }
        out
    }

    /// Every ticket, ordered by ID counter.
    pub fn load_all_tickets(&self) -> (r: Vec<Ticket>)
        requires
            self.wf(),
        ensures
            lists_keys(r@.map_values(|t: Ticket| t.id@), self@.tickets),
            forall|i: int| 0 <= i < r@.len() ==> self@.tickets[(#[trigger] r@[i]).id@] == r@[i]@,
    {
        let mut out: Vec<Ticket> = Vec::new();
        let mut i: usize = 0;
        while i < self.tickets.len()
            invariant
                self.wf(),
                i <= self.tickets@.len(),
                out@.len() == i,
                forall|k: int| 0 <= k < i ==> (#[trigger] out@[k])@ == self.tickets@[k]@,
            decreases self.tickets@.len() - i,
        {
            out.push(self.tickets[i].clone());
            i = i + 1;
        }
        proof {
            let ids = out@.map_values(|t: Ticket| t.id@);
            assert forall|a: int| 0 <= a < ids.len() implies #[trigger] ids[a] == ticket_key()(self.tickets@[a]) by {
                assert(out@[a]@.id == self.tickets@[a]@.id);
            }
            assert forall|id: Seq<char>| self@.tickets.contains_key(id) <==> ids.contains(id) by {
                if self@.tickets.contains_key(id) {
                    let k = keyed_index(self.tickets@, ticket_key(), id);
                    assert(ids[k] == id);
                }
                if ids.contains(id) {
                    let k = choose|k: int| 0 <= k < ids.len() && ids[k] == id;
                    assert(ticket_key()(self.tickets@[k]) == id);
                }
            }
            assert forall|a: int| 0 <= a < out@.len() implies self@.tickets[(#[trigger] out@[a]).id@] == out@[a]@ by {
                lemma_keyed_at(self.tickets@, ticket_key(), ticket_val(), a);
                assert(out@[a]@.id == self.tickets@[a]@.id);
            }
        }
        out
    }

    // --- forum threads -----------------------------------------------------------

    fn thread_pos(&self, id: &str) -> (r: Option<usize>)
        requires
            self.wf(),
        ensures
            r matches Some(i) ==> i < self.threads@.len() && self.threads@[i as int].id@ == id@,
            r is None ==> !self@.threads.contains_key(id@),
    {
        let mut i: usize = 0;
        while i < self.threads.len()
            invariant
                i <= self.threads@.len(),
                forall|k: int| 0 <= k < i ==> (#[trigger] self.threads@[k]).id@ != id@,
            decreases self.threads@.len() - i,
        {
            if crate::text::same(self.threads[i].id.as_str(), id) {
                return Some(i);
            }
            i = i + 1;
        }
        proof {
            if keyed_has(self.threads@, thread_key(), id@) {
                let k = keyed_index(self.threads@, thread_key(), id@);
                assert(thread_key()(self.threads@[k]) == id@);
            }
        }
        None
    }

    /// Load a forum thread by its ID (e.g. `F-1`). Errors with [`Error::ThreadNotFound`] for an
    /// unknown or malformed ID.
    pub fn load_thread(&self, id: &str) -> (r: Result<Thread, Error>)
        requires
            self.wf(),
        ensures
            self@.threads.contains_key(id@) ==> (r matches Ok(t) && t@ == self@.threads[id@]),
            !self@.threads.contains_key(id@) ==> (r matches Err(Error::ThreadNotFound(s)) && s@ == id@),
    {
        match self.thread_pos(id) {
            Some(i) => {
                proof {
                    lemma_keyed_at(self.threads@, thread_key(), thread_val(), i as int);
                }
                Ok(self.threads[i].clone())
            },
            None => Err(Error::ThreadNotFound(owned(id))),
        }
    }

    /// Whether a thread with this ID exists.
    pub fn thread_exists(&self, id: &str) -> (r: bool)
        requires
            self.wf(),
        ensures
            r == self@.threads.contains_key(id@),
    {
        match self.thread_pos(id) {
            Some(i) => {
                proof {
                    lemma_keyed_at(self.threads@, thread_key(), thread_val(), i as int);
                }
                true
            },
            None => false,
        }
    }

    /// Write a forum thread, replacing any thread with the same ID. A malformed ID
    /// is refused.
    pub fn save_thread(&mut self, thread: &Thread) -> (r: Result<(), Error>)
        requires
            old(self).wf(),
        ensures
            final(self).wf(),
            valid_thread_id_spec(thread.id@) ==> r is Ok && final(self)@ == (StoreV {
                threads: old(self)@.threads.insert(thread.id@, thread@),
                ..old(self)@
            }),
            !valid_thread_id_spec(thread.id@) ==> (r matches Err(Error::Message(m)) && m@
                == seq!['i', 'n', 'v', 'a', 'l', 'i', 'd', ' ', 't', 'h', 'r', 'e', 'a', 'd', ' ', 'i', 'd', ' ', '`']
                + thread.id@ + seq!['`'] && final(self)@ == old(self)@),
    {
        if !valid_thread_id(thread.id.as_str()) {
            proof {
                reveal_strlit("invalid thread id `");
                reveal_strlit("`");
            }
            return Err(Error::Message(cat3("invalid thread id `", thread.id.as_str(), "`")));
        }
        let t = thread.clone();
        assert(t.id@ == thread.id@);
        match self.thread_pos(thread.id.as_str()) {
            Some(i) => {
                proof {
                    lemma_keyed_update(self.threads@, thread_key(), thread_val(), i as int, t);
                }
                self.threads.set(i, t);
            },
            None => {
                let k = id_counter(thread.id.as_str());
                let mut p: usize = 0;
                loop
                    invariant
                        self.wf(),
                        k == counter_key(thread.id@),
                        p <= self.threads@.len(),
                        forall|m: int| 0 <= m < p ==> counter_key(#[trigger] self.threads@[m].id@) <= k,
                    ensures
                        p <= self.threads@.len(),
                        forall|m: int| 0 <= m < p ==> counter_key(#[trigger] self.threads@[m].id@) <= k,
                        p < self.threads@.len() ==> counter_key(self.threads@[p as int].id@) > k,
                    decreases self.threads@.len() - p,
                {
                    if p >= self.threads.len() {
                        break;
                    }
                    assert(valid_prefixed(thread_key()(self.threads@[p as int]), 'F'));
                    if id_counter(self.threads[p].id.as_str()) > k {
                        break;
                    }
                    p = p + 1;
                }
                proof {
                    lemma_keyed_insert(self.threads@, thread_key(), thread_val(), p as int, t);
                }
                let ghost before = self.threads@;
                self.threads.insert(p, t);
                proof {
                    let after = self.threads@;
                    assert forall|a: int| 0 <= a < after.len() implies #[trigger] after[a] == (if a < p {
                        before[a]
                    } else if a == p {
                        t
                    } else {
                        before[a - 1]
                    }) by {}
                    assert forall|a: int| 0 <= a < after.len() implies valid_prefixed(#[trigger] thread_key()(after[a]), 'F') by {
                        if a < p {
                            assert(valid_prefixed(thread_key()(before[a]), 'F'));
                        } else if a > p {
                            assert(valid_prefixed(thread_key()(before[a - 1]), 'F'));
                        }
                    }
                    assert forall|a: int, b: int| 0 <= a <= b < after.len() implies counter_key(thread_key()(after[a])) <= counter_key(thread_key()(after[b])) by {
                        if p < before.len() {
                            assert(counter_key(before[p as int].id@) > k);
                        }
                        if a < p && b > p {
                            assert(counter_key(before[a].id@) <= k);
                            assert(counter_key(before[p as int].id@) <= counter_key(before[b - 1].id@));
                        } else if a < p && b < p {
                            assert(counter_key(before[a].id@) <= counter_key(before[b].id@));
                        } else if a > p && b > p {
                            assert(counter_key(before[a - 1].id@) <= counter_key(before[b - 1].id@));
                        } else if a == p && b > p {
                            assert(counter_key(before[p as int].id@) <= counter_key(before[b - 1].id@));
                        } else if a < p && b == p {
                            assert(counter_key(before[a].id@) <= k);
                        }
                    }
                }
            },
        }
        Ok(())
    }

    /// Delete a forum thread. Errors with [`Error::ThreadNotFound`] if it does not exist.
    pub fn delete_thread(&mut self, id: &str) -> (r: Result<(), Error>)
        requires
            old(self).wf(),
        ensures
            final(self).wf(),
            old(self)@.threads.contains_key(id@) ==> r is Ok && final(self)@ == (StoreV {
                threads: old(self)@.threads.remove(id@),
                ..old(self)@
            }),
            !old(self)@.threads.contains_key(id@) ==> (r matches Err(Error::ThreadNotFound(s)) && s@ == id@
                && final(self)@ == old(self)@),
    {
        match self.thread_pos(id) {
            Some(i) => {
                proof {
                    lemma_keyed_at(self.threads@, thread_key(), thread_val(), i as int);
                    lemma_keyed_remove(self.threads@, thread_key(), thread_val(), i as int);
                }
                let ghost before = self.threads@;
                self.threads.remove(i);
                proof {
                    let after = self.threads@;
                    assert forall|a: int| 0 <= a < after.len() implies #[trigger] after[a] == (if a < i {
                        before[a]
                    } else {
                        before[a + 1]
                    }) by {}
                    assert forall|a: int| 0 <= a < after.len() implies valid_prefixed(#[trigger] thread_key()(after[a]), 'F') by {
                        if a < i {
                            assert(valid_prefixed(thread_key()(before[a]), 'F'));
                        } else {
                            assert(valid_prefixed(thread_key()(before[a + 1]), 'F'));
                        }
                    }
                    assert forall|a: int, b: int| 0 <= a <= b < after.len() implies counter_key(thread_key()(after[a])) <= counter_key(thread_key()(after[b])) by {
                        let sa = if a < i { a } else { a + 1 };
                        let sb = if b < i { b } else { b + 1 };
                        assert(counter_key(before[sa].id@) <= counter_key(before[sb].id@));
                    }
                }
                Ok(())
            },
            None => Err(Error::ThreadNotFound(owned(id))),
        }
    }

    /// All forum thread IDs, ordered numerically by counter.
    pub fn thread_ids(&self) -> (r: Vec<String>)
        requires
            self.wf(),
        ensures
            lists_keys(crate::model::texts(r@), self@.threads),
    {
        let mut out: Vec<String> = Vec::new();
        let mut i: usize = 0;
        while i < self.threads.len()
            invariant
                self.wf(),
                i <= self.threads@.len(),
                out@.len() == i,
                forall|k: int| 0 <= k < i ==> (#[trigger] out@[k])@ == self.threads@[k].id@,
            decreases self.threads@.len() - i,
        {
            out.push(self.threads[i].id.clone());
            i = i + 1;
        }
        proof {
            let ids = crate::model::texts(out@);
            assert forall|a: int| 0 <= a < ids.len() implies #[trigger] ids[a] == thread_key()(self.threads@[a]) by {}
            assert forall|id: Seq<char>| self@.threads.contains_key(id) <==> ids.contains(id) by {
                if self@.threads.contains_key(id) {
                    let k = keyed_index(self.threads@, thread_key(), id);
                    assert(ids[k] == id);
                }
                if ids.contains(id) {
                    let k = choose|k: int| 0 <= k < ids.len() && ids[k] == id;
                    assert(thread_key()(self.threads@[k]) == id);
                }
            }
        }
        out
    }

    /// Every forum thread, ordered by ID counter.
    pub fn load_all_threads(&self) -> (r: Vec<Thread>)
        requires
            self.wf(),
        ensures
            lists_keys(r@.map_values(|t: Thread| t.id@), self@.threads),
            forall|i: int| 0 <= i < r@.len() ==> self@.threads[(#[trigger] r@[i]).id@] == r@[i]@,
    {
        let mut out: Vec<Thread> = Vec::new();
        let mut i: usize = 0;
        while i < self.threads.len()
            invariant
                self.wf(),
                i <= self.threads@.len(),
                out@.len() == i,
                forall|k: int| 0 <= k < i ==> (#[trigger] out@[k])@ == self.threads@[k]@,
            decreases self.threads@.len() - i,
        {
            out.push(self.threads[i].clone());
            i = i + 1;
        }
        proof {
            let ids = out@.map_values(|t: Thread| t.id@);
            assert forall|a: int| 0 <= a < ids.len() implies #[trigger] ids[a] == thread_key()(self.threads@[a]) by {
                assert(out@[a]@.id == self.threads@[a]@.id);
            }
            assert forall|id: Seq<char>| self@.threads.contains_key(id) <==> ids.contains(id) by {
                if self@.threads.contains_key(id) {
                    let k = keyed_index(self.threads@, thread_key(), id);
                    assert(ids[k] == id);
                }
                if ids.contains(id) {
                    let k = choose|k: int| 0 <= k < ids.len() && ids[k] == id;
                    assert(thread_key()(self.threads@[k]) == id);
                }
            }
            assert forall|a: int| 0 <= a < out@.len() implies self@.threads[(#[trigger] out@[a]).id@] == out@[a]@ by {
                lemma_keyed_at(self.threads@, thread_key(), thread_val(), a);
                assert(out@[a]@.id == self.threads@[a]@.id);
            }
        }
        out
    }

    // --- trash ---------------------------------------------------------------

    fn trash_pos(&self, id: &str) -> (r: Option<usize>)
        requires
            self.wf(),
        ensures
            r matches Some(i) ==> i < self.trash@.len() && self.trash@[i as int].ticket.id@ == id@,
            r is None ==> !self@.trash.contains_key(id@),
    {
        let mut i: usize = 0;
        while i < self.trash.len()
            invariant
                i <= self.trash@.len(),
                forall|k: int| 0 <= k < i ==> (#[trigger] self.trash@[k]).ticket.id@ != id@,
            decreases self.trash@.len() - i,
        {
            if crate::text::same(self.trash[i].ticket.id.as_str(), id) {
                return Some(i);
            }
            i = i + 1;
        }
        proof {
            if keyed_has(self.trash@, trash_key(), id@) {
                let k = keyed_index(self.trash@, trash_key(), id@);
                assert(trash_key()(self.trash@[k]) == id@);
            }
        }
        None
    }

    /// The trash entry of the ticket `id`, if it is in the trash.
    pub fn trash_entry(&self, id: &str) -> (r: Option<TrashEntry>)
        requires
            self.wf(),
        ensures
            self@.trash.contains_key(id@) ==> (r matches Some(e) && e@ == self@.trash[id@]),
            !self@.trash.contains_key(id@) ==> r is None,
    {
        match self.trash_pos(id) {
            Some(i) => {
                proof {
                    lemma_keyed_at(self.trash@, trash_key(), trash_val(), i as int);
                }
                Some(self.trash[i].clone())
            },
            None => None,
        }
    }

    /// Park an entry in the trash, replacing any entry for the same ticket.
    pub fn put_trash(&mut self, entry: TrashEntry)
        requires
            old(self).wf(),
        ensures
            final(self).wf(),
            final(self)@ == (StoreV { trash: old(self)@.trash.insert(entry.ticket.id@, entry@), ..old(self)@ }),
    {
        match self.trash_pos(entry.ticket.id.as_str()) {
            Some(i) => {
                proof {
                    lemma_keyed_update(self.trash@, trash_key(), trash_val(), i as int, entry);
                }
                self.trash.set(i, entry);
            },
            None => {
                proof {
                    lemma_keyed_insert(self.trash@, trash_key(), trash_val(), self.trash@.len() as int, entry);
                    assert(self.trash@.insert(self.trash@.len() as int, entry) =~= self.trash@.push(entry));
                }
                self.trash.push(entry);
            },
        }
    }

    /// Drop the trash entry of the ticket `id`. Returns whether there was one.
    pub fn remove_trash(&mut self, id: &str) -> (r: bool)
        requires
            old(self).wf(),
        ensures
            final(self).wf(),
            r == old(self)@.trash.contains_key(id@),
            final(self)@ == (StoreV { trash: old(self)@.trash.remove(id@), ..old(self)@ }),
    {
        match self.trash_pos(id) {
            Some(i) => {
                proof {
                    lemma_keyed_at(self.trash@, trash_key(), trash_val(), i as int);
                    lemma_keyed_remove(self.trash@, trash_key(), trash_val(), i as int);
                }
                self.trash.remove(i);
                true
            },
            None => {
                assert(old(self)@.trash.remove(id@) =~= old(self)@.trash);
                false
            },
        }
    }

    /// Every trash entry, each ticket once.
    pub fn trash_entries(&self) -> (r: Vec<TrashEntry>)
        requires
            self.wf(),
        ensures
            keys_distinct(r@, trash_key()),
            forall|id: Seq<char>| #[trigger] self@.trash.contains_key(id) <==> keyed_has(r@, trash_key(), id),
            forall|i: int| 0 <= i < r@.len() ==> self@.trash[(#[trigger] r@[i]).ticket.id@] == r@[i]@,
    {
        let mut out: Vec<TrashEntry> = Vec::new();
        let mut i: usize = 0;
        while i < self.trash.len()
            invariant
                self.wf(),
                i <= self.trash@.len(),
                out@.len() == i,
                forall|k: int| 0 <= k < i ==> (#[trigger] out@[k])@ == self.trash@[k]@,
            decreases self.trash@.len() - i,
        {
            out.push(self.trash[i].clone());
            i = i + 1;
        }
        proof {
            assert forall|a: int| 0 <= a < out@.len() implies #[trigger] trash_key()(out@[a]) == trash_key()(self.trash@[a]) by {
                assert(out@[a]@.ticket.id == self.trash@[a]@.ticket.id);
            }
            assert forall|id: Seq<char>| #[trigger] self@.trash.contains_key(id) <==> keyed_has(out@, trash_key(), id) by {
                if self@.trash.contains_key(id) {
                    let k = keyed_index(self.trash@, trash_key(), id);
                    assert(trash_key()(out@[k]) == id);
                }
                if keyed_has(out@, trash_key(), id) {
                    let k = keyed_index(out@, trash_key(), id);
                    assert(trash_key()(self.trash@[k]) == id);
                }
            }
            assert forall|a: int| 0 <= a < out@.len() implies self@.trash[(#[trigger] out@[a]).ticket.id@] == out@[a]@ by {
                lemma_keyed_at(self.trash@, trash_key(), trash_val(), a);
                assert(out@[a]@.ticket.id == self.trash@[a]@.ticket.id);
            }
        }
        out
    }

    // --- opening -------------------------------------------------------------

    fn assemble(root: &str, c: Contents) -> (s: Store)
        ensures
            s.wf(),
            loaded(s@, root@, c),
    {
        let ghost c0 = c;
        let Contents { board, definitions, settings, identities, subscriptions, tickets, threads, trash } = c;
        let mut s = Store::from_parts(owned(root), board, definitions, settings);
        s.identities = identities;
        s.subscriptions = distinct_subscriptions(&subscriptions);
        let mut i: usize = 0;
        while i < tickets.len()
            invariant
                s.wf(),
                i <= tickets@.len(),
                tickets@ == c0.tickets@,
                s@.root == root@,
                s@.board == c0.board@,
                s@.definitions == c0.definitions@,
                s@.settings == c0.settings@,
                s@.identities == views(c0.identities@),
                s@.subscriptions == first_of_each(c0.subscriptions@, sub_key()),
                s@.threads == Map::<Seq<char>, ThreadV>::empty(),
                s@.trash == Map::<Seq<char>, TrashEntryV>::empty(),
                keys_distinct(tickets@, ticket_key()) ==> s@.tickets == keyed_map(tickets@.subrange(0, i as int), ticket_key(), ticket_val()).restrict(ticket_id_set()),
            decreases tickets@.len() - i,
        {
            proof {
                if i == 0 {
                    lemma_keyed_empty(ticket_key(), ticket_val());
                    assert(tickets@.subrange(0, 0) =~= Seq::<Ticket>::empty());
                }
            }
            let ghost before = s@;
            let _ = s.save_ticket(&tickets[i]);
            proof {
                if keys_distinct(tickets@, ticket_key()) {
                    lemma_keyed_prefix(tickets@, ticket_key(), ticket_val(), i as int);
                    assert(s@.tickets =~= keyed_map(tickets@.subrange(0, i + 1), ticket_key(), ticket_val()).restrict(ticket_id_set()));
                }
            }
            i = i + 1;
        }
        proof {
            if keys_distinct(tickets@, ticket_key()) && tickets@.len() == 0 {
                lemma_keyed_empty(ticket_key(), ticket_val());
                assert(s@.tickets =~= keyed_map(tickets@, ticket_key(), ticket_val()).restrict(ticket_id_set()));
            }
            assert(tickets@.subrange(0, tickets@.len() as int) =~= tickets@);
        }
        let ghost tmap = s@.tickets;
        let mut i: usize = 0;
        while i < threads.len()
            invariant
                s.wf(),
                i <= threads@.len(),
                threads@ == c0.threads@,
                s@.root == root@,
                s@.board == c0.board@,
                s@.definitions == c0.definitions@,
                s@.settings == c0.settings@,
                s@.identities == views(c0.identities@),
                s@.subscriptions == first_of_each(c0.subscriptions@, sub_key()),
                s@.tickets == tmap,
                s@.trash == Map::<Seq<char>, TrashEntryV>::empty(),
                keys_distinct(threads@, thread_key()) ==> s@.threads == keyed_map(threads@.subrange(0, i as int), thread_key(), thread_val()).restrict(thread_id_set()),
            decreases threads@.len() - i,
        {
            proof {
                if i == 0 {
                    lemma_keyed_empty(thread_key(), thread_val());
                    assert(threads@.subrange(0, 0) =~= Seq::<Thread>::empty());
                }
            }
            let _ = s.save_thread(&threads[i]);
            proof {
                if keys_distinct(threads@, thread_key()) {
                    lemma_keyed_prefix(threads@, thread_key(), thread_val(), i as int);
                    assert(s@.threads =~= keyed_map(threads@.subrange(0, i + 1), thread_key(), thread_val()).restrict(thread_id_set()));
                }
            }
            i = i + 1;
        }
        proof {
            if keys_distinct(threads@, thread_key()) && threads@.len() == 0 {
                lemma_keyed_empty(thread_key(), thread_val());
                assert(s@.threads =~= keyed_map(threads@, thread_key(), thread_val()).restrict(thread_id_set()));
            }
            assert(threads@.subrange(0, threads@.len() as int) =~= threads@);
        }
        let ghost hmap = s@.threads;
        let mut trash = trash;
        let mut i: usize = 0;
        while i < trash.len()
            invariant
                s.wf(),
                i <= trash@.len(),
                trash@ == c0.trash@,
                s@.root == root@,
                s@.board == c0.board@,
                s@.definitions == c0.definitions@,
                s@.settings == c0.settings@,
                s@.identities == views(c0.identities@),
                s@.subscriptions == first_of_each(c0.subscriptions@, sub_key()),
                s@.tickets == tmap,
                s@.threads == hmap,
                keys_distinct(trash@, trash_key()) ==> s@.trash == keyed_map(trash@.subrange(0, i as int), trash_key(), trash_val()),
            decreases trash@.len() - i,
        {
            proof {
                if i == 0 {
                    lemma_keyed_empty(trash_key(), trash_val());
                    assert(trash@.subrange(0, 0) =~= Seq::<TrashEntry>::empty());
                }
            }
            let e = trash[i].clone();
            assert(e.ticket.id@ == trash@[i as int].ticket.id@);
            s.put_trash(e);
            proof {
                if keys_distinct(trash@, trash_key()) {
                    lemma_keyed_prefix(trash@, trash_key(), trash_val(), i as int);
                    assert(s@.trash =~= keyed_map(trash@.subrange(0, i + 1), trash_key(), trash_val()));
                }
            }
            i = i + 1;
        }
        proof {
            if keys_distinct(trash@, trash_key()) && trash@.len() == 0 {
                lemma_keyed_empty(trash_key(), trash_val());
            }
            assert(trash@.subrange(0, trash@.len() as int) =~= trash@);
        }
        s
    }

    /// Open an existing board rooted exactly at `root`. `contents` is what the
    /// board's files hold, or `None` when `root` has no `.wipe` directory, which is
    /// reported as [`Error::NotInitialized`].
    pub fn open(root: &str, contents: Option<Contents>) -> (r: Result<Store, Error>)
        ensures
            contents is None ==> (r matches Err(Error::NotInitialized(p)) && p@ == root@),
            contents matches Some(c) ==> (r matches Ok(s) && s.wf() && loaded(s@, root@, c)),
    {
        match contents {
            Some(c) => Ok(Self::assemble(root, c)),
            None => Err(Error::not_initialized(root)),
        }
    }

    /// Open the board found by walking up from `start` to the nearest directory
    /// holding `.wipe`: `found` is that directory and its contents, or `None` when
    /// no ancestor has a board.
    pub fn discover(start: &str, found: Option<(String, Contents)>) -> (r: Result<Store, Error>)
        ensures
            found is None ==> (r matches Err(Error::NotInitialized(p)) && p@ == start@),
            found matches Some(f) ==> (r matches Ok(s) && s.wf() && loaded(s@, f.0@, f.1)),
    {
        match found {
            Some((root, c)) => Ok(Self::assemble(root.as_str(), c)),
            None => Err(Error::not_initialized(start)),
        }
    }

    /// Everything the board holds, for writing back to its files.
    pub fn contents(&self) -> (c: Contents)
        requires
            self.wf(),
        ensures
            mirrors(c, self@),
    {
        let tickets = self.clone_tickets();
        let threads = self.clone_threads();
        let trash = self.clone_trash();
        Contents {
            board: self.board.clone(),
            definitions: self.definitions.clone(),
            settings: self.settings.clone(),
            identities: crate::model::clone_exact(&self.identities),
            subscriptions: self.subscriptions.clone(),
            tickets,
            threads,
            trash,
        }
    }

    fn clone_tickets(&self) -> (r: Vec<Ticket>)
        requires
            self.wf(),
        ensures
            keys_distinct(r@, ticket_key()),
            keyed_map(r@, ticket_key(), ticket_val()) == self@.tickets,
    {
        let mut out: Vec<Ticket> = Vec::new();
        let mut i: usize = 0;
        while i < self.tickets.len()
            invariant
                self.wf(),
                i <= self.tickets@.len(),
                out@.len() == i,
                forall|k: int| 0 <= k < i ==> (#[trigger] out@[k])@ == self.tickets@[k]@,
            decreases self.tickets@.len() - i,
        {
            out.push(self.tickets[i].clone());
            i = i + 1;
        }
        proof {
            assert forall|k: int| 0 <= k < out@.len() implies ticket_key()(#[trigger] out@[k]) == ticket_key()(self.tickets@[k])
                && ticket_val()(out@[k]) == ticket_val()(self.tickets@[k]) by {
                assert(out@[k]@.id == self.tickets@[k]@.id);
            }
            crate::keyed::lemma_keyed_same(out@, self.tickets@, ticket_key(), ticket_val());
        }
        out
    }

    fn clone_threads(&self) -> (r: Vec<Thread>)
        requires
            self.wf(),
        ensures
            keys_distinct(r@, thread_key()),
            keyed_map(r@, thread_key(), thread_val()) == self@.threads,
    {
        let mut out: Vec<Thread> = Vec::new();
        let mut i: usize = 0;
        while i < self.threads.len()
            invariant
                self.wf(),
                i <= self.threads@.len(),
                out@.len() == i,
                forall|k: int| 0 <= k < i ==> (#[trigger] out@[k])@ == self.threads@[k]@,
            decreases self.threads@.len() - i,
        {
            out.push(self.threads[i].clone());
            i = i + 1;
        }
        proof {
            assert forall|k: int| 0 <= k < out@.len() implies thread_key()(#[trigger] out@[k]) == thread_key()(self.threads@[k])
                && thread_val()(out@[k]) == thread_val()(self.threads@[k]) by {
                assert(out@[k]@.id == self.threads@[k]@.id);
            }
            crate::keyed::lemma_keyed_same(out@, self.threads@, thread_key(), thread_val());
        }
        out
    }

    fn clone_trash(&self) -> (r: Vec<TrashEntry>)
        requires
            self.wf(),
        ensures
            keys_distinct(r@, trash_key()),
            keyed_map(r@, trash_key(), trash_val()) == self@.trash,
    {
        let mut out: Vec<TrashEntry> = Vec::new();
        let mut i: usize = 0;
        while i < self.trash.len()
            invariant
                self.wf(),
                i <= self.trash@.len(),
                out@.len() == i,
                forall|k: int| 0 <= k < i ==> (#[trigger] out@[k])@ == self.trash@[k]@,
            decreases self.trash@.len() - i,
        {
            out.push(self.trash[i].clone());
            i = i + 1;
        }
        proof {
            assert forall|k: int| 0 <= k < out@.len() implies trash_key()(#[trigger] out@[k]) == trash_key()(self.trash@[k])
                && trash_val()(out@[k]) == trash_val()(self.trash@[k]) by {
                assert(out@[k]@.ticket.id == self.trash@[k]@.ticket.id);
            }
            crate::keyed::lemma_keyed_same(out@, self.trash@, trash_key(), trash_val());
        }
        out
    }
}

/// Writing a board out and reading it back gives the same board: a store loaded
/// at the same root from contents that hold exactly what a well-formed store
/// holds (as [`Store::contents`] returns them) is that store.
pub proof fn law_reopen_roundtrip(s: &Store, c: Contents, t: StoreV)
    requires
        s.wf(),
        mirrors(c, s@),
        loaded(t, s@.root, c),
    ensures
        t == s@,
{
    s.lemma_ids_valid();
    crate::keyed::lemma_first_of_each(c.subscriptions@, sub_key());
    assert(t.tickets =~= s@.tickets);
    assert(t.threads =~= s@.threads);
}

} // verus!
