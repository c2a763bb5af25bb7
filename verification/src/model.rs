//! The wipe domain model.
//!
//! These types map one-to-one onto the JSON files under `.wipe/`. Timestamps are
//! nanoseconds since the Unix epoch. Types that hold vectors have a view in which
//! each vector is a sequence, so two values with the same contents are equal.

use vstd::prelude::*;

use crate::id::{
    acceptance_id, acceptance_id_spec, checklist_id, checklist_id_spec, comment_id,
    comment_id_spec, random_uuid, uuid_hyphenated_form, slug, slug_spec,
};
use crate::text::owned;

verus! {

/// A point in time: nanoseconds since the Unix epoch.
pub type Timestamp = i128;

/// On-disk format version.
pub const FORMAT_VERSION: u32 = 1;

/// Default port the local daemon listens on when the user hasn't chosen one.
pub const DEFAULT_PORT: u16 = 6737;

/// Default per-attachment size limit, in megabytes.
pub const DEFAULT_MAX_ATTACHMENT_MB: u64 = 50;

/// Default idle timeout of an auto-served daemon, in seconds.
pub const DEFAULT_IDLE_TIMEOUT_SECS: u64 = 900;

/// The views of the elements of a vector of strings' owners.
pub open spec fn views<T: View>(s: Seq<T>) -> Seq<T::V> {
    s.map_values(|x: T| x@)
}

/// The character sequences of a sequence of strings.
pub open spec fn texts(s: Seq<String>) -> Seq<Seq<char>> {
    s.map_values(|x: String| x@)
}

/// The character sequence of an optional string.
pub open spec fn opt_text(o: Option<String>) -> Option<Seq<char>> {
    match o {
        Some(s) => Some(s@),
        None => None,
    }
}

/// Clone a vector whose elements clone to equal views.
pub fn clone_views<T: View + Clone>(v: &Vec<T>) -> (r: Vec<T>)
    requires
        forall|a: T, b: T| cloned::<T>(a, b) ==> a@ == b@,
    ensures
        views(r@) == views(v@),
{
    let r = v.clone();
    assert(views(r@) =~= views(v@)) by {
        assert forall|i: int| 0 <= i < r@.len() implies r@[i]@ == v@[i]@ by {
            assert(cloned::<T>(v@[i], r@[i]));
        }
    }
    r
}

/// Clone a vector of strings.
pub fn clone_strings(v: &Vec<String>) -> (r: Vec<String>)
    ensures
        r@ == v@,
{
    let r = v.clone();
    assert(r@ =~= v@);
    r
}

// ---------------------------------------------------------------------------
// board.json
// ---------------------------------------------------------------------------

/// A list (column) on the board. `cards` is the ordered set of ticket IDs it holds.
#[derive(Debug)]
pub struct List {
    /// Stable list ID (kebab-case slug of the original name).
    pub id: String,
    /// Display name.
    pub name: String,
    /// Optional UI color (hex or token).
    pub color: Option<String>,
    /// Optional work-in-progress limit.
    pub wip_limit: Option<u32>,
    /// Ordered ticket IDs contained in this list.
    pub cards: Vec<String>,
}

/// The value of a [`List`], its cards as a sequence.
pub struct ListV {
    pub id: Seq<char>,
    pub name: Seq<char>,
    pub color: Option<Seq<char>>,
    pub wip_limit: Option<u32>,
    pub cards: Seq<Seq<char>>,
}

impl View for List {
    type V = ListV;

    open spec fn view(&self) -> ListV {
        ListV {
            id: self.id@,
            name: self.name@,
            color: opt_text(self.color),
            wip_limit: self.wip_limit,
            cards: texts(self.cards@),
        }
    }
}

impl Clone for List {
    fn clone(&self) -> (r: Self)
        ensures
            r@ == self@,
    {
        List {
            id: self.id.clone(),
            name: self.name.clone(),
            color: self.color.clone(),
            wip_limit: self.wip_limit,
            cards: clone_strings(&self.cards),
        }
    }
}

impl List {
    /// Create an empty list from a display name; its ID is the name's slug.
    pub fn new(name: &str) -> (l: List)
        ensures
            l.id@ == slug_spec(name@),
            l.name@ == name@,
            l.color is None,
            l.wip_limit is None,
            l.cards@.len() == 0,
    {
        List { id: slug(name), name: owned(name), color: None, wip_limit: None, cards: Vec::new() }
    }
}

/// The board - the top-level object of a project. Holds ordered [`List`]s whose
/// `cards` reference ticket IDs. Ticket content lives in separate files, so
/// moving a card and editing a ticket never touch the same file.
#[derive(Debug)]
pub struct Board {
    /// On-disk format version.
    pub version: u32,
    /// Stable unique board ID (UUID v4).
    pub id: String,
    /// Human-readable board name.
    pub name: String,
    /// Optional longer description.
    pub description: String,
    /// Ordered lists (columns) of the board.
    pub lists: Vec<List>,
    /// Next ticket counter; `T-<next_ticket>` is the next ID to allocate.
    pub next_ticket: u64,
    /// Next forum thread counter; `F-<next_thread>` is the next thread ID.
    pub next_thread: u64,
    /// When the board was created.
    pub created: Timestamp,
    /// When the board was last modified.
    pub updated: Timestamp,
}

/// The value of a [`Board`].
pub struct BoardV {
    pub version: u32,
    pub id: Seq<char>,
    pub name: Seq<char>,
    pub description: Seq<char>,
    pub lists: Seq<ListV>,
    pub next_ticket: u64,
    pub next_thread: u64,
    pub created: Timestamp,
    pub updated: Timestamp,
}

impl View for Board {
    type V = BoardV;

    open spec fn view(&self) -> BoardV {
        BoardV {
            version: self.version,
            id: self.id@,
            name: self.name@,
            description: self.description@,
            lists: views(self.lists@),
            next_ticket: self.next_ticket,
            next_thread: self.next_thread,
            created: self.created,
            updated: self.updated,
        }
    }
}

impl Clone for Board {
    fn clone(&self) -> (r: Self)
        ensures
            r@ == self@,
    {
        Board {
            version: self.version,
            id: self.id.clone(),
            name: self.name.clone(),
            description: self.description.clone(),
            lists: clone_views(&self.lists),
            next_ticket: self.next_ticket,
            next_thread: self.next_thread,
            created: self.created,
            updated: self.updated,
        }
    }
}

/// Display names of the default lists created by `wipe init`.
pub open spec fn default_list_names() -> Seq<Seq<char>> {
    seq![
        seq!['B', 'a', 'c', 'k', 'l', 'o', 'g'],
        seq!['T', 'o', 'd', 'o'],
        seq!['I', 'n', ' ', 'P', 'r', 'o', 'g', 'r', 'e', 's', 's'],
        seq!['D', 'o', 'n', 'e'],
    ]
}

/// The default lists created by `wipe init`: Backlog, Todo, In Progress, Done.
pub fn default_lists() -> (v: Vec<List>)
    ensures
        v@.len() == 4,
        forall|i: int|
            0 <= i < 4 ==> {
                &&& (#[trigger] v@[i]).name@ == default_list_names()[i]
                &&& v@[i].id@ == slug_spec(default_list_names()[i])
                &&& v@[i].cards@.len() == 0
                &&& v@[i].color is None
                &&& v@[i].wip_limit is None
            },
{
    proof {
        reveal_strlit("Backlog");
        reveal_strlit("Todo");
        reveal_strlit("In Progress");
        reveal_strlit("Done");
    }
    let mut v: Vec<List> = Vec::new();
    v.push(List::new("Backlog"));
    v.push(List::new("Todo"));
    v.push(List::new("In Progress"));
    v.push(List::new("Done"));
    v
}

/// The first index of a list with ID `id`, if any.
pub open spec fn first_list_index(lists: Seq<ListV>, id: Seq<char>) -> Option<int> {
    if exists|i: int| 0 <= i < lists.len() && lists[i].id == id {
        Some(
            choose|i: int|
                0 <= i < lists.len() && lists[i].id == id && forall|j: int|
                    0 <= j < i ==> lists[j].id != id,
        )
    } else {
        None
    }
}

/// Whether `i` is the first index of a list with ID `id`.
pub open spec fn is_first_list(lists: Seq<ListV>, id: Seq<char>, i: int) -> bool {
    &&& 0 <= i < lists.len()
    &&& lists[i].id == id
    &&& forall|j: int| 0 <= j < i ==> lists[j].id != id
}

/// The first list with ID `id` is the one at `i`.
pub proof fn lemma_first_list_index(lists: Seq<ListV>, id: Seq<char>, i: int)
    requires
        is_first_list(lists, id, i),
    ensures
        first_list_index(lists, id) == Some(i),
{
    let c = choose|c: int|
        0 <= c < lists.len() && lists[c].id == id && forall|j: int| 0 <= j < c ==> lists[j].id != id;
    assert(0 <= i < lists.len() && lists[i].id == id && forall|j: int| 0 <= j < i ==> lists[j].id != id);
    if c < i {
        assert(lists[c].id != id);
    } else if c > i {
        assert(lists[i].id != id);
    }
}

/// With no list named `id`, there is no first one.
pub proof fn lemma_no_list_index(lists: Seq<ListV>, id: Seq<char>)
    requires
        no_list(lists, id),
    ensures
        first_list_index(lists, id) is None,
{
}

/// No list has ID `id`.
pub open spec fn no_list(lists: Seq<ListV>, id: Seq<char>) -> bool {
    forall|j: int| 0 <= j < lists.len() ==> lists[j].id != id
}

/// Whether some list holds the card `id`.
pub open spec fn card_in(l: ListV, id: Seq<char>) -> bool {
    exists|k: int| 0 <= k < l.cards.len() && l.cards[k] == id
}

/// The first list holding card `id` is at `i`, and `k` is its first position there.
pub open spec fn is_first_card(lists: Seq<ListV>, id: Seq<char>, i: int, k: int) -> bool {
    &&& 0 <= i < lists.len()
    &&& 0 <= k < lists[i].cards.len()
    &&& lists[i].cards[k] == id
    &&& forall|m: int| 0 <= m < k ==> lists[i].cards[m] != id
    &&& forall|j: int| 0 <= j < i ==> !card_in(lists[j], id)
}

/// Card `id` sits at position `k` of the list `lid`, the first list holding it.
pub open spec fn card_located(lists: Seq<ListV>, id: Seq<char>, lid: Seq<char>, k: int) -> bool {
    exists|i: int| is_first_card(lists, id, i, k) && lid == lists[i].id
}

/// Find the index of the first list with ID `id`.
pub fn find_list(lists: &Vec<List>, id: &str) -> (r: Option<usize>)
    ensures
        r matches Some(i) ==> is_first_list(views(lists@), id@, i as int),
        r is None ==> no_list(views(lists@), id@),
{
    let mut i: usize = 0;
    while i < lists.len()
        invariant
            i <= lists.len(),
            forall|j: int| 0 <= j < i ==> lists@[j].id@ != id@,
        decreases lists.len() - i,
    {
        if crate::text::same(lists[i].id.as_str(), id) {
            return Some(i);
        }
        i = i + 1;
    }
    None
}

/// Position of the first occurrence of `id` in `cards`.
pub fn position_of(cards: &Vec<String>, id: &str) -> (r: Option<usize>)
    ensures
        r matches Some(k) ==> k < cards@.len() && cards@[k as int]@ == id@ && forall|m: int|
            0 <= m < k ==> cards@[m]@ != id@,
        r is None ==> forall|m: int| 0 <= m < cards@.len() ==> cards@[m]@ != id@,
{
    let mut k: usize = 0;
    while k < cards.len()
        invariant
            k <= cards.len(),
            forall|m: int| 0 <= m < k ==> cards@[m]@ != id@,
        decreases cards.len() - k,
    {
        if crate::text::same(cards[k].as_str(), id) {
            return Some(k);
        }
        k = k + 1;
    }
    None
}

/// Where card `id` sits: the first list holding it and its first position there.
pub fn find_card(lists: &Vec<List>, id: &str) -> (r: Option<(usize, usize)>)
    ensures
        r matches Some((i, k)) ==> is_first_card(views(lists@), id@, i as int, k as int),
        r is None ==> forall|j: int| 0 <= j < lists@.len() ==> !card_in(lists@[j]@, id@),
{
    let mut i: usize = 0;
    while i < lists.len()
        invariant
            i <= lists.len(),
            forall|j: int| 0 <= j < i ==> !card_in(lists@[j]@, id@),
        decreases lists.len() - i,
    {
        match position_of(&lists[i].cards, id) {
            Some(k) => {
                return Some((i, k));
            },
            None => {},
        }
        i = i + 1;
    }
    None
}

impl Board {
    /// A fresh board with the default set of lists and a random ID.
    pub fn new(name: &str, now: Timestamp) -> (b: Board)
        ensures
            b.version == FORMAT_VERSION,
            uuid_hyphenated_form(b.id@),
            b.name@ == name@,
            b.description@.len() == 0,
            b.lists@.len() == 4,
            forall|i: int|
                0 <= i < 4 ==> {
                    &&& (#[trigger] b.lists@[i]).name@ == default_list_names()[i]
                    &&& b.lists@[i].id@ == slug_spec(default_list_names()[i])
                    &&& b.lists@[i].cards@.len() == 0
                },
            b.next_ticket == 1,
            b.next_thread == 1,
            b.created == now,
            b.updated == now,
    {
        Board {
            version: FORMAT_VERSION,
            id: random_uuid(),
            name: owned(name),
            description: String::new(),
            lists: default_lists(),
            next_ticket: 1,
            next_thread: 1,
            created: now,
            updated: now,
        }
    }

    /// A blank board with no lists.
    pub fn empty(name: &str, now: Timestamp) -> (b: Board)
        ensures
            b.version == FORMAT_VERSION,
            uuid_hyphenated_form(b.id@),
            b.name@ == name@,
            b.description@.len() == 0,
            b.lists@.len() == 0,
            b.next_ticket == 1,
            b.next_thread == 1,
            b.created == now,
            b.updated == now,
    {
        Board {
            version: FORMAT_VERSION,
            id: random_uuid(),
            name: owned(name),
            description: String::new(),
            lists: Vec::new(),
            next_ticket: 1,
            next_thread: 1,
            created: now,
            updated: now,
        }
    }

    /// Find a list by ID.
    pub fn list(&self, id: &str) -> (r: Option<&List>)
        ensures
            r matches Some(l) ==> exists|i: int|
                is_first_list(self@.lists, id@, i) && l@ == self@.lists[i],
            r is None ==> no_list(self@.lists, id@),
    {
        match find_list(&self.lists, id) {
            Some(i) => {
                assert(self@.lists[i as int] == self.lists@[i as int]@);
                assert(is_first_list(self@.lists, id@, i as int));
                Some(&self.lists[i])
            },
            None => None,
        }
    }

    /// Return `(list_id, index)` of the list currently containing `ticket_id`.
    pub fn locate_card(&self, ticket_id: &str) -> (r: Option<(String, usize)>)
        ensures
            r matches Some(p) ==> card_located(self@.lists, ticket_id@, p.0@, p.1 as int),
            r is None ==> forall|j: int|
                0 <= j < self@.lists.len() ==> !card_in(self@.lists[j], ticket_id@),
    {
        match find_card(&self.lists, ticket_id) {
            Some((i, k)) => {
                assert(self@.lists[i as int] == self.lists@[i as int]@);
                assert(is_first_card(self@.lists, ticket_id@, i as int, k as int));
                let lid = self.lists[i].id.clone();
                assert(lid@ == self@.lists[i as int].id);
                assert(card_located(self@.lists, ticket_id@, lid@, k as int));
                Some((lid, k))
            },
            None => None,
        }
    }
}

// ---------------------------------------------------------------------------
// tickets/T-###.json
// ---------------------------------------------------------------------------

/// The kind of a [`Relation`].
#[derive(Debug, Clone, Copy, PartialEq, Eq, Structural)]
pub enum RelationKind {
    /// This ticket blocks the target.
    Blocks,
    /// This ticket is blocked by the target.
    BlockedBy,
    /// The target is a parent of this ticket.
    Parent,
    /// The target is a child of this ticket.
    Child,
    /// A soft relationship.
    Relates,
}

/// A relation from one ticket to another.
#[derive(Debug)]
pub struct Relation {
    /// Kind of relation.
    pub kind: RelationKind,
    /// Target ticket ID.
    pub target: String,
}

/// The value of a [`Relation`].
pub struct RelationV {
    pub kind: RelationKind,
    pub target: Seq<char>,
}

impl View for Relation {
    type V = RelationV;

    open spec fn view(&self) -> RelationV {
        RelationV { kind: self.kind, target: self.target@ }
    }
}

impl Clone for Relation {
    fn clone(&self) -> (r: Self)
        ensures
            r == *self,
    {
        Relation { kind: self.kind, target: self.target.clone() }
    }
}

/// An inline comment on a ticket.
#[derive(Debug)]
pub struct Comment {
    /// Comment ID, e.g. `c-7`.
    pub id: String,
    /// Author identity.
    pub author: String,
    /// Comment body.
    pub body: String,
    /// When the comment was posted.
    pub created: Timestamp,
    /// When the comment was last edited, if ever.
    pub edited: Option<Timestamp>,
}

/// The value of a [`Comment`].
pub struct CommentV {
    pub id: Seq<char>,
    pub author: Seq<char>,
    pub body: Seq<char>,
    pub created: Timestamp,
    pub edited: Option<Timestamp>,
}

impl View for Comment {
    type V = CommentV;

    open spec fn view(&self) -> CommentV {
        CommentV { id: self.id@, author: self.author@, body: self.body@, created: self.created, edited: self.edited }
    }
}

impl Clone for Comment {
    fn clone(&self) -> (r: Self)
        ensures
            r == *self,
    {
        Comment {
            id: self.id.clone(),
            author: self.author.clone(),
            body: self.body.clone(),
            created: self.created,
            edited: self.edited,
        }
    }
}

/// One tickable item of a checklist or of the acceptance criteria.
#[derive(Debug)]
pub struct ChecklistItem {
    /// Item ID, e.g. `ck-3` or `ac-2`.
    pub id: String,
    /// Item text.
    pub text: String,
    /// Whether the item is ticked.
    pub done: bool,
}

/// The value of a [`ChecklistItem`].
pub struct ChecklistItemV {
    pub id: Seq<char>,
    pub text: Seq<char>,
    pub done: bool,
}

impl View for ChecklistItem {
    type V = ChecklistItemV;

    open spec fn view(&self) -> ChecklistItemV {
        ChecklistItemV { id: self.id@, text: self.text@, done: self.done }
    }
}

impl Clone for ChecklistItem {
    fn clone(&self) -> (r: Self)
        ensures
            r == *self,
    {
        ChecklistItem { id: self.id.clone(), text: self.text.clone(), done: self.done }
    }
}

/// One entry of a ticket's activity timeline.
#[derive(Debug)]
pub struct Activity {
    /// When it happened.
    pub ts: Timestamp,
    /// Who did it.
    pub actor: String,
    /// What happened, e.g. `created`, `moved`, `label-added`.
    pub kind: String,
    /// Detail, e.g. the destination list's name.
    pub detail: String,
}

/// The value of an [`Activity`].
pub struct ActivityV {
    pub ts: Timestamp,
    pub actor: Seq<char>,
    pub kind: Seq<char>,
    pub detail: Seq<char>,
}

impl View for Activity {
    type V = ActivityV;

    open spec fn view(&self) -> ActivityV {
        ActivityV { ts: self.ts, actor: self.actor@, kind: self.kind@, detail: self.detail@ }
    }
}

impl Clone for Activity {
    fn clone(&self) -> (r: Self)
        ensures
            r == *self,
    {
        Activity {
            ts: self.ts,
            actor: self.actor.clone(),
            kind: self.kind.clone(),
            detail: self.detail.clone(),
        }
    }
}

/// Where an attachment's bytes live.
#[derive(Debug, Clone, Copy, PartialEq, Eq, Structural)]
pub enum AttachmentSource {
    /// A file already tracked in the repository, referenced in place.
    Repo,
    /// A copy stored under `.wipe/media/`.
    Media,
}

/// A file attached to a ticket or a forum post.
#[derive(Debug)]
pub struct Attachment {
    /// Display name.
    pub name: String,
    /// Repo-relative path.
    pub path: String,
    /// Where the bytes live.
    pub source: AttachmentSource,
    /// Size in bytes.
    pub size: u64,
    /// MIME type.
    pub mime: String,
}

/// The value of an [`Attachment`].
pub struct AttachmentV {
    pub name: Seq<char>,
    pub path: Seq<char>,
    pub source: AttachmentSource,
    pub size: u64,
    pub mime: Seq<char>,
}

impl View for Attachment {
    type V = AttachmentV;

    open spec fn view(&self) -> AttachmentV {
        AttachmentV { name: self.name@, path: self.path@, source: self.source, size: self.size, mime: self.mime@ }
    }
}

impl Clone for Attachment {
    fn clone(&self) -> (r: Self)
        ensures
            r == *self,
    {
        Attachment {
            name: self.name.clone(),
            path: self.path.clone(),
            source: self.source,
            size: self.size,
            mime: self.mime.clone(),
        }
    }
}

/// Clone a vector of values whose clones are equal to the original.
pub fn clone_exact<T: Clone>(v: &Vec<T>) -> (r: Vec<T>)
    requires
        forall|a: T, b: T| cloned::<T>(a, b) ==> a == b,
    ensures
        r@ == v@,
{
    let r = v.clone();
    assert(r@ =~= v@) by {
        assert forall|i: int| 0 <= i < r@.len() implies r@[i] == v@[i] by {
            assert(cloned::<T>(v@[i], r@[i]));
        }
    }
    r
}

/// A ticket (card). Stored as its own file; comments are inline and short.
#[derive(Debug)]
pub struct Ticket {
    /// On-disk format version.
    pub version: u32,
    /// Ticket ID, e.g. `T-23`.
    pub id: String,
    /// Short title.
    pub title: String,
    /// Long-form body.
    pub body: String,
    /// Ticket type (a name from the definitions).
    pub kind: Option<String>,
    /// Priority (a name from the definitions).
    pub priority: Option<String>,
    /// Applied label names.
    pub labels: Vec<String>,
    /// Applied free-form tags.
    pub tags: Vec<String>,
    /// Assignee identities.
    pub assignees: Vec<String>,
    /// Relations to other tickets.
    pub relations: Vec<Relation>,
    /// Attachments.
    pub attachments: Vec<Attachment>,
    /// The worker-facing checklist (`ck-<n>` items).
    pub checklist: Vec<ChecklistItem>,
    /// The acceptance criteria the finished work is checked against (`ac-<n>` items).
    pub acceptance: Vec<ChecklistItem>,
    /// Inline comment thread.
    pub comments: Vec<Comment>,
    /// Activity timeline.
    pub activity: Vec<Activity>,
    /// Next comment counter.
    pub next_comment: u64,
    /// Next checklist counter.
    pub next_check: u64,
    /// Next acceptance-criterion counter.
    pub next_accept: u64,
    /// When the ticket was created.
    pub created: Timestamp,
    /// When the ticket was last modified.
    pub updated: Timestamp,
}

/// The value of a [`Ticket`].
pub struct TicketV {
    pub version: u32,
    pub id: Seq<char>,
    pub title: Seq<char>,
    pub body: Seq<char>,
    pub kind: Option<Seq<char>>,
    pub priority: Option<Seq<char>>,
    pub labels: Seq<Seq<char>>,
    pub tags: Seq<Seq<char>>,
    pub assignees: Seq<Seq<char>>,
    pub relations: Seq<RelationV>,
    pub attachments: Seq<AttachmentV>,
    pub checklist: Seq<ChecklistItemV>,
    pub acceptance: Seq<ChecklistItemV>,
    pub comments: Seq<CommentV>,
    pub activity: Seq<ActivityV>,
    pub next_comment: u64,
    pub next_check: u64,
    pub next_accept: u64,
    pub created: Timestamp,
    pub updated: Timestamp,
}

impl View for Ticket {
    type V = TicketV;

    open spec fn view(&self) -> TicketV {
        TicketV {
            version: self.version,
            id: self.id@,
            title: self.title@,
            body: self.body@,
            kind: opt_text(self.kind),
            priority: opt_text(self.priority),
            labels: texts(self.labels@),
            tags: texts(self.tags@),
            assignees: texts(self.assignees@),
            relations: views(self.relations@),
            attachments: views(self.attachments@),
            checklist: views(self.checklist@),
            acceptance: views(self.acceptance@),
            comments: views(self.comments@),
            activity: views(self.activity@),
            next_comment: self.next_comment,
            next_check: self.next_check,
            next_accept: self.next_accept,
            created: self.created,
            updated: self.updated,
        }
    }
}

impl Clone for Ticket {
    fn clone(&self) -> (r: Self)
        ensures
            r@ == self@,
    {
        Ticket {
            version: self.version,
            id: self.id.clone(),
            title: self.title.clone(),
            body: self.body.clone(),
            kind: self.kind.clone(),
            priority: self.priority.clone(),
            labels: clone_strings(&self.labels),
            tags: clone_strings(&self.tags),
            assignees: clone_strings(&self.assignees),
            relations: clone_exact(&self.relations),
            attachments: clone_exact(&self.attachments),
            checklist: clone_exact(&self.checklist),
            acceptance: clone_exact(&self.acceptance),
            comments: clone_exact(&self.comments),
            activity: clone_exact(&self.activity),
            next_comment: self.next_comment,
            next_check: self.next_check,
            next_accept: self.next_accept,
            created: self.created,
            updated: self.updated,
        }
    }
}

/// A ticket with the given ID and title and nothing else.
pub open spec fn new_ticket_v(id: Seq<char>, title: Seq<char>, now: Timestamp) -> TicketV {
    TicketV {
        version: FORMAT_VERSION,
        id: id,
        title: title,
        body: Seq::empty(),
        kind: None,
        priority: None,
        labels: Seq::empty(),
        tags: Seq::empty(),
        assignees: Seq::empty(),
        relations: Seq::empty(),
        attachments: Seq::empty(),
        checklist: Seq::empty(),
        acceptance: Seq::empty(),
        comments: Seq::empty(),
        activity: Seq::empty(),
        next_comment: 1,
        next_check: 1,
        next_accept: 1,
        created: now,
        updated: now,
    }
}

impl Ticket {
    /// A new ticket with the given ID and title and nothing else.
    pub fn new(id: &str, title: &str, now: Timestamp) -> (t: Ticket)
        ensures
            t@ == new_ticket_v(id@, title@, now),
    {
        let t = Ticket {
            version: FORMAT_VERSION,
            id: owned(id),
            title: owned(title),
            body: String::new(),
            kind: None,
            priority: None,
            labels: Vec::new(),
            tags: Vec::new(),
            assignees: Vec::new(),
            relations: Vec::new(),
            attachments: Vec::new(),
            checklist: Vec::new(),
            acceptance: Vec::new(),
            comments: Vec::new(),
            activity: Vec::new(),
            next_comment: 1,
            next_check: 1,
            next_accept: 1,
            created: now,
            updated: now,
        };
        assert(t@ =~= new_ticket_v(id@, title@, now)) by {
            assert(texts(t.labels@) =~= Seq::empty());
            assert(texts(t.tags@) =~= Seq::empty());
            assert(texts(t.assignees@) =~= Seq::empty());
            assert(views(t.relations@) =~= Seq::empty());
            assert(views(t.attachments@) =~= Seq::empty());
            assert(views(t.checklist@) =~= Seq::empty());
            assert(views(t.acceptance@) =~= Seq::empty());
            assert(views(t.comments@) =~= Seq::empty());
            assert(views(t.activity@) =~= Seq::empty());
        }
        t
    }

    /// Append an activity entry.
    pub fn log_activity(&mut self, actor: &str, kind: &str, detail: &str, now: Timestamp)
        ensures
            final(self)@ == (TicketV {
                activity: old(self)@.activity.push(ActivityV { ts: now, actor: actor@, kind: kind@, detail: detail@ }),
                ..old(self)@
            }),
    {
        let a = Activity { ts: now, actor: owned(actor), kind: owned(kind), detail: owned(detail) };
        let ghost before = self.activity@;
        self.activity.push(a);
        assert(views(self.activity@) =~= views(before).push(a@));
    }

    /// Append a comment, allocating the next comment ID. Returns the new ID.
    pub fn add_comment(&mut self, author: &str, body: &str, now: Timestamp) -> (id: String)
        requires
            old(self).next_comment < u64::MAX,
        ensures
            id@ == comment_id_spec(old(self).next_comment as nat),
            final(self)@ == (TicketV {
                comments: old(self)@.comments.push(
                    CommentV { id: id@, author: author@, body: body@, created: now, edited: None },
                ),
                next_comment: (old(self).next_comment + 1) as u64,
                updated: now,
                ..old(self)@
            }),
    {
        let id = comment_id(self.next_comment);
        self.next_comment = self.next_comment + 1;
        let c = Comment { id: id.clone(), author: owned(author), body: owned(body), created: now, edited: None };
        let ghost before = self.comments@;
        self.comments.push(c);
        assert(views(self.comments@) =~= views(before).push(c@));
        self.updated = now;
        id
    }

    /// Append a checklist item (`ck-<n>`). Returns the new item's ID.
    pub fn add_checklist_item(&mut self, text: &str, now: Timestamp) -> (id: String)
        requires
            old(self).next_check < u64::MAX,
        ensures
            id@ == checklist_id_spec(old(self).next_check as nat),
            final(self)@ == (TicketV {
                checklist: old(self)@.checklist.push(ChecklistItemV { id: id@, text: text@, done: false }),
                next_check: (old(self).next_check + 1) as u64,
                updated: now,
                ..old(self)@
            }),
    {
        let id = checklist_id(self.next_check);
        self.next_check = self.next_check + 1;
        let c = ChecklistItem { id: id.clone(), text: owned(text), done: false };
        let ghost before = self.checklist@;
        self.checklist.push(c);
        assert(views(self.checklist@) =~= views(before).push(c@));
        self.updated = now;
        id
    }

    /// Append an acceptance criterion (`ac-<n>`). Returns the new item's ID.
    pub fn add_acceptance_item(&mut self, text: &str, now: Timestamp) -> (id: String)
        requires
            old(self).next_accept < u64::MAX,
        ensures
            id@ == acceptance_id_spec(old(self).next_accept as nat),
            final(self)@ == (TicketV {
                acceptance: old(self)@.acceptance.push(ChecklistItemV { id: id@, text: text@, done: false }),
                next_accept: (old(self).next_accept + 1) as u64,
                updated: now,
                ..old(self)@
            }),
    {
        let id = acceptance_id(self.next_accept);
        self.next_accept = self.next_accept + 1;
        let c = ChecklistItem { id: id.clone(), text: owned(text), done: false };
        let ghost before = self.acceptance@;
        self.acceptance.push(c);
        assert(views(self.acceptance@) =~= views(before).push(c@));
        self.updated = now;
        id
    }
}

// ---------------------------------------------------------------------------
// definitions.json
// ---------------------------------------------------------------------------

/// A label definition.
#[derive(Debug)]
pub struct LabelDef {
    /// Label name (unique within the board).
    pub name: String,
    /// Optional UI color key.
    pub color: Option<String>,
    /// Optional description.
    pub description: String,
}

/// The value of a [`LabelDef`].
pub struct LabelDefV {
    pub name: Seq<char>,
    pub color: Option<Seq<char>>,
    pub description: Seq<char>,
}

impl View for LabelDef {
    type V = LabelDefV;

    open spec fn view(&self) -> LabelDefV {
        LabelDefV { name: self.name@, color: opt_text(self.color), description: self.description@ }
    }
}

impl Clone for LabelDef {
    fn clone(&self) -> (r: Self)
        ensures
            r == *self,
    {
        LabelDef { name: self.name.clone(), color: self.color.clone(), description: self.description.clone() }
    }
}

impl LabelDef {
    /// Create a label with a name and optional color.
    pub fn new(name: &str, color: Option<&str>) -> (l: LabelDef)
        ensures
            l.name@ == name@,
            opt_text(l.color) == (match color {
                Some(c) => Some(c@),
                None => None::<Seq<char>>,
            }),
            l.description@.len() == 0,
    {
        let color = match color {
            Some(c) => Some(owned(c)),
            None => None,
        };
        LabelDef { name: owned(name), color, description: String::new() }
    }
}

/// Project-wide registries: ticket types, labels, tags, priorities.
#[derive(Debug)]
pub struct Definitions {
    /// On-disk format version.
    pub version: u32,
    /// Allowed ticket types.
    pub types: Vec<String>,
    /// Defined labels.
    pub labels: Vec<LabelDef>,
    /// Registered free-form tags.
    pub tags: Vec<String>,
    /// Allowed priorities, ordered from lowest to highest.
    pub priorities: Vec<String>,
}

/// The value of a [`Definitions`].
pub struct DefinitionsV {
    pub version: u32,
    pub types: Seq<Seq<char>>,
    pub labels: Seq<LabelDefV>,
    pub tags: Seq<Seq<char>>,
    pub priorities: Seq<Seq<char>>,
}

impl View for Definitions {
    type V = DefinitionsV;

    open spec fn view(&self) -> DefinitionsV {
        DefinitionsV {
            version: self.version,
            types: texts(self.types@),
            labels: views(self.labels@),
            tags: texts(self.tags@),
            priorities: texts(self.priorities@),
        }
    }
}

impl Clone for Definitions {
    fn clone(&self) -> (r: Self)
        ensures
            r@ == self@,
    {
        Definitions {
            version: self.version,
            types: clone_strings(&self.types),
            labels: clone_exact(&self.labels),
            tags: clone_strings(&self.tags),
            priorities: clone_strings(&self.priorities),
        }
    }
}

/// The ticket types of a new board.
pub open spec fn seed_types() -> Seq<Seq<char>> {
    seq![seq!['f', 'e', 'a', 't', 'u', 'r', 'e'], seq!['b', 'u', 'g'], seq!['c', 'h', 'o', 'r', 'e'], seq!['s', 'p', 'e', 'c']]
}

/// The priorities of a new board, lowest first.
pub open spec fn seed_priorities() -> Seq<Seq<char>> {
    seq![seq!['l', 'o', 'w'], seq!['m', 'e', 'd', 'i', 'u', 'm'], seq!['h', 'i', 'g', 'h'], seq!['u', 'r', 'g', 'e', 'n', 't']]
}

/// The labels of a new board, as `(name, color)`.
pub open spec fn seed_labels() -> Seq<(Seq<char>, Seq<char>)> {
    seq![
        (seq!['b', 'l', 'o', 'c', 'k', 'e', 'd'], seq!['#', 'e', '5', '4', '8', '4', 'd']),
        (seq!['n', 'e', 'e', 'd', 's', '-', 'r', 'e', 'v', 'i', 'e', 'w'], seq!['#', 'f', '5', 'a', '6', '2', '3']),
        (seq!['a', 'g', 'e', 'n', 't'], seq!['#', '8', 'e', '4', 'e', 'c', '6']),
    ]
}

/// Push the owned copies of four literals.
fn four_strings(a: &str, b: &str, c: &str, d: &str) -> (v: Vec<String>)
    ensures
        v@.len() == 4,
        v@[0]@ == a@,
        v@[1]@ == b@,
        v@[2]@ == c@,
        v@[3]@ == d@,
{
    let mut v: Vec<String> = Vec::new();
    v.push(owned(a));
    v.push(owned(b));
    v.push(owned(c));
    v.push(owned(d));
    v
}

impl Definitions {
    /// A sensible default set of definitions for a new board.
    pub fn seed() -> (d: Definitions)
        ensures
            d.version == FORMAT_VERSION,
            texts(d.types@) == seed_types(),
            d.labels@.len() == 3,
            forall|i: int|
                0 <= i < 3 ==> {
                    &&& (#[trigger] d.labels@[i]).name@ == seed_labels()[i].0
                    &&& d.labels@[i].color == Some(d.labels@[i].color.unwrap())
                    &&& d.labels@[i].color.unwrap()@ == seed_labels()[i].1
                    &&& d.labels@[i].description@.len() == 0
                },
            d.tags@.len() == 0,
            texts(d.priorities@) == seed_priorities(),
    {
        proof {
            reveal_strlit("feature");
            reveal_strlit("bug");
            reveal_strlit("chore");
            reveal_strlit("spec");
            reveal_strlit("low");
            reveal_strlit("medium");
            reveal_strlit("high");
            reveal_strlit("urgent");
            reveal_strlit("blocked");
            reveal_strlit("#e5484d");
            reveal_strlit("needs-review");
            reveal_strlit("#f5a623");
            reveal_strlit("agent");
            reveal_strlit("#8e4ec6");
        }
        let types = four_strings("feature", "bug", "chore", "spec");
        let priorities = four_strings("low", "medium", "high", "urgent");
        assert(texts(types@) =~= seed_types()) by {
            assert(types@[0]@ =~= seed_types()[0]);
            assert(types@[1]@ =~= seed_types()[1]);
            assert(types@[2]@ =~= seed_types()[2]);
            assert(types@[3]@ =~= seed_types()[3]);
        }
        assert(texts(priorities@) =~= seed_priorities()) by {
            assert(priorities@[0]@ =~= seed_priorities()[0]);
            assert(priorities@[1]@ =~= seed_priorities()[1]);
            assert(priorities@[2]@ =~= seed_priorities()[2]);
            assert(priorities@[3]@ =~= seed_priorities()[3]);
        }
        let mut labels: Vec<LabelDef> = Vec::new();
        labels.push(LabelDef::new("blocked", Some("#e5484d")));
        labels.push(LabelDef::new("needs-review", Some("#f5a623")));
        labels.push(LabelDef::new("agent", Some("#8e4ec6")));
        Definitions { version: FORMAT_VERSION, types, labels, tags: Vec::new(), priorities }
    }
}

/// The label color palette, in pick order.
pub open spec fn palette() -> Seq<Seq<char>> {
    seq![
        seq!['t', 'e', 'r', 'r', 'a', 'c', 'o', 't', 't', 'a'],
        seq!['k', 'r', 'a', 'f', 't'],
        seq!['m', 'a', 'n', 'i', 'l', 'l', 'a'],
        seq!['s', 'k', 'y'],
        seq!['c', 'l', 'a', 'y'],
        seq!['s', 'a', 'g', 'e'],
        seq!['i', 'n', 'd', 'i', 'g', 'o'],
        seq!['p', 'l', 'u', 'm'],
        seq!['s', 'l', 'a', 't', 'e'],
    ]
}

/// Some label already uses the color `c`.
pub open spec fn color_used(labels: Seq<LabelDefV>, c: Seq<char>) -> bool {
    exists|j: int| 0 <= j < labels.len() && #[trigger] labels[j].color == Some(c)
}

/// The color a new label gets: the first palette color no label uses yet, or, when
/// every color is taken, the palette cycled by the number of labels.
pub open spec fn next_label_color_spec(labels: Seq<LabelDefV>) -> Seq<char> {
    if exists|i: int| 0 <= i < 9 && !color_used(labels, #[trigger] palette()[i]) {
        palette()[choose|i: int|
            0 <= i < 9 && !color_used(labels, palette()[i]) && forall|k: int|
                0 <= k < i ==> color_used(labels, #[trigger] palette()[k])]
    } else {
        palette()[(labels.len() % 9) as int]
    }
}

/// The palette as owned strings.
fn palette_strings() -> (v: Vec<String>)
    ensures
        v@.len() == 9,
        texts(v@) == palette(),
{
    proof {
        reveal_strlit("terracotta");
        reveal_strlit("kraft");
        reveal_strlit("manilla");
        reveal_strlit("sky");
        reveal_strlit("clay");
        reveal_strlit("sage");
        reveal_strlit("indigo");
        reveal_strlit("plum");
        reveal_strlit("slate");
    }
    let mut v: Vec<String> = Vec::new();
    v.push(owned("terracotta"));
    v.push(owned("kraft"));
    v.push(owned("manilla"));
    v.push(owned("sky"));
    v.push(owned("clay"));
    v.push(owned("sage"));
    v.push(owned("indigo"));
    v.push(owned("plum"));
    v.push(owned("slate"));
    assert forall|i: int| 0 <= i < 9 implies #[trigger] v@[i]@ =~= palette()[i] by {
        if i == 0 { assert(v@[0]@ =~= palette()[0]); }
        else if i == 1 { assert(v@[1]@ =~= palette()[1]); }
        else if i == 2 { assert(v@[2]@ =~= palette()[2]); }
        else if i == 3 { assert(v@[3]@ =~= palette()[3]); }
        else if i == 4 { assert(v@[4]@ =~= palette()[4]); }
        else if i == 5 { assert(v@[5]@ =~= palette()[5]); }
        else if i == 6 { assert(v@[6]@ =~= palette()[6]); }
        else if i == 7 { assert(v@[7]@ =~= palette()[7]); }
        else { assert(v@[8]@ =~= palette()[8]); }
    }
    assert(texts(v@) =~= palette());
    v
}

/// Whether some label uses the color `c`.
fn uses_color(labels: &Vec<LabelDef>, c: &str) -> (r: bool)
    ensures
        r == color_used(views(labels@), c@),
{
    let mut j: usize = 0;
    while j < labels.len()
        invariant
            j <= labels.len(),
            forall|m: int| 0 <= m < j ==> (#[trigger] views(labels@)[m]).color != Some(c@),
        decreases labels.len() - j,
    {
        assert(views(labels@)[j as int] == labels@[j as int]@);
        match &labels[j].color {
            Some(x) => {
                if crate::text::same(x.as_str(), c) {
                    assert(views(labels@)[j as int].color == Some(c@));
                    return true;
                }
            },
            None => {},
        }
        j = j + 1;
    }
    false
}

/// Pick the color for a new label: the first palette color that no existing label
/// uses, cycling through the palette once every color is taken.
pub fn next_label_color(labels: &Vec<LabelDef>) -> (c: String)
    ensures
        c@ == next_label_color_spec(views(labels@)),
{
    let pal = palette_strings();
    let mut i: usize = 0;
    while i < pal.len()
        invariant
            pal@.len() == 9,
            texts(pal@) == palette(),
            i <= 9,
            forall|k: int| 0 <= k < i ==> color_used(views(labels@), #[trigger] palette()[k]),
        decreases pal.len() - i,
    {
        assert(pal@[i as int]@ == palette()[i as int]);
        if !uses_color(labels, pal[i].as_str()) {
            let ghost found = i as int;
            assert(!color_used(views(labels@), palette()[found]));
            assert(exists|i: int| 0 <= i < 9 && !color_used(views(labels@), #[trigger] palette()[i]));
            let ghost ch = choose|i: int|
                0 <= i < 9 && !color_used(views(labels@), palette()[i]) && forall|k: int|
                    0 <= k < i ==> color_used(views(labels@), #[trigger] palette()[k]);
            assert(0 <= found < 9 && !color_used(views(labels@), palette()[found]) && forall|k: int|
                0 <= k < found ==> color_used(views(labels@), #[trigger] palette()[k]));
            assert(ch == found) by {
                if ch < found {
                    assert(color_used(views(labels@), palette()[ch]));
                } else if ch > found {
                    assert(color_used(views(labels@), palette()[found]));
                }
            }
            return pal[i].clone();
        }
        i = i + 1;
    }
    assert(!exists|i: int| 0 <= i < 9 && !color_used(views(labels@), #[trigger] palette()[i]));
    let k = labels.len() % 9;
    assert(pal@[k as int]@ == palette()[k as int]);
    pal[k].clone()
}

// ---------------------------------------------------------------------------
// settings.json
// ---------------------------------------------------------------------------

/// How the local daemon is reachable.
#[derive(Debug, Clone, Copy, PartialEq, Eq, Structural)]
pub enum Exposure {
    /// Localhost only.
    Local,
    /// Advertised over a Tailscale network.
    Tailscale,
    /// Behind a user-provided reverse proxy.
    Proxy,
}

impl Default for Exposure {
    fn default() -> (e: Self)
        ensures
            e == Exposure::Local,
    {
        Exposure::Local
    }
}

/// The daemon settings of a new board.
pub open spec fn default_daemon() -> DaemonSettings {
    DaemonSettings {
        port: DEFAULT_PORT,
        expose: Exposure::Local,
        autoserve: false,
        idle_timeout_secs: DEFAULT_IDLE_TIMEOUT_SECS,
    }
}

/// Configuration for the local daemon that serves the human UX.
#[derive(Debug, Clone, Copy, PartialEq, Eq, Structural)]
pub struct DaemonSettings {
    /// Port to listen on.
    pub port: u16,
    /// How the daemon is exposed beyond localhost.
    pub expose: Exposure,
    /// Shut the daemon down after a period without viewers.
    pub autoserve: bool,
    /// Idle timeout, in seconds, when `autoserve` is on.
    pub idle_timeout_secs: u64,
}

impl Default for DaemonSettings {
    fn default() -> (d: Self)
        ensures
            d == default_daemon(),
    {
        DaemonSettings {
            port: DEFAULT_PORT,
            expose: Exposure::Local,
            autoserve: false,
            idle_timeout_secs: DEFAULT_IDLE_TIMEOUT_SECS,
        }
    }
}

/// Project settings, including how the local daemon is exposed.
#[derive(Debug)]
pub struct Settings {
    /// On-disk format version.
    pub version: u32,
    /// Local daemon settings.
    pub daemon: DaemonSettings,
    /// The board's shared fallback author, used when no VCS identity is found.
    pub default_author: Option<String>,
    /// Per-attachment size limit, in megabytes.
    pub max_attachment_mb: u64,
}

/// The value of a [`Settings`].
pub struct SettingsV {
    pub version: u32,
    pub daemon: DaemonSettings,
    pub default_author: Option<Seq<char>>,
    pub max_attachment_mb: u64,
}

impl View for Settings {
    type V = SettingsV;

    open spec fn view(&self) -> SettingsV {
        SettingsV {
            version: self.version,
            daemon: self.daemon,
            default_author: opt_text(self.default_author),
            max_attachment_mb: self.max_attachment_mb,
        }
    }
}

impl Clone for Settings {
    fn clone(&self) -> (r: Self)
        ensures
            r == *self,
    {
        Settings {
            version: self.version,
            daemon: self.daemon,
            default_author: self.default_author.clone(),
            max_attachment_mb: self.max_attachment_mb,
        }
    }
}

impl Default for Settings {
    fn default() -> (s: Self)
        ensures
            s.version == FORMAT_VERSION,
            s.daemon == default_daemon(),
            s.default_author is None,
            s.max_attachment_mb == DEFAULT_MAX_ATTACHMENT_MB,
    {
        Settings {
            version: FORMAT_VERSION,
            daemon: DaemonSettings::default(),
            default_author: None,
            max_attachment_mb: DEFAULT_MAX_ATTACHMENT_MB,
        }
    }
}

/// How much content a fresh board is seeded with.
#[derive(Debug, Clone, Copy, PartialEq, Eq, Structural)]
pub enum Starter {
    /// The default lists and labels.
    Standard,
    /// The default lists, no labels.
    ListsOnly,
    /// No lists and no labels.
    Empty,
}

impl Default for Starter {
    fn default() -> (s: Self)
        ensures
            s == Starter::Standard,
    {
        Starter::Standard
    }
}

// ---------------------------------------------------------------------------
// identities.json
// ---------------------------------------------------------------------------

/// Whether an identity is a person or a coding agent.
#[derive(Debug, Clone, Copy, PartialEq, Eq, Structural)]
pub enum IdentityKind {
    /// A person.
    Human,
    /// A coding agent.
    Agent,
}

impl Default for IdentityKind {
    fn default() -> (k: Self)
        ensures
            k == IdentityKind::Human,
    {
        IdentityKind::Human
    }
}

/// Someone actions are attributed to.
#[derive(Debug)]
pub struct Identity {
    /// Stable identity ID (an email, `Name <email>` or an agent ID).
    pub id: String,
    /// Display name.
    pub display_name: String,
    /// Person or agent.
    pub kind: IdentityKind,
}

/// The value of an [`Identity`].
pub struct IdentityV {
    pub id: Seq<char>,
    pub display_name: Seq<char>,
    pub kind: IdentityKind,
}

impl View for Identity {
    type V = IdentityV;

    open spec fn view(&self) -> IdentityV {
        IdentityV { id: self.id@, display_name: self.display_name@, kind: self.kind }
    }
}

impl Clone for Identity {
    fn clone(&self) -> (r: Self)
        ensures
            r == *self,
    {
        Identity { id: self.id.clone(), display_name: self.display_name.clone(), kind: self.kind }
    }
}

// ---------------------------------------------------------------------------
// forum/F-<n>.json
// ---------------------------------------------------------------------------

/// One message in a forum thread, with its nested replies.
#[derive(Debug)]
pub struct Post {
    /// Dotted post ID: `F-1` for a thread's root, `F-1.2.1` for nested replies.
    pub id: String,
    /// Author identity.
    pub author: String,
    /// Message body.
    pub body: String,
    /// Labels (same pool as tickets).
    pub labels: Vec<String>,
    /// Free-form references (ticket IDs, post IDs, URLs).
    pub refs: Vec<String>,
    /// Attachments.
    pub attachments: Vec<Attachment>,
    /// When it was posted.
    pub created: Timestamp,
    /// When it was last edited, if ever.
    pub edited: Option<Timestamp>,
    /// Direct replies, oldest first.
    pub replies: Vec<Post>,
    /// Next reply counter; the next reply is `<id>.<next_reply>`.
    pub next_reply: u64,
}

/// The value of a [`Post`]: its vectors as sequences, its replies as values.
pub struct PostV {
    pub id: Seq<char>,
    pub author: Seq<char>,
    pub body: Seq<char>,
    pub labels: Seq<Seq<char>>,
    pub refs: Seq<Seq<char>>,
    pub attachments: Seq<AttachmentV>,
    pub created: Timestamp,
    pub edited: Option<Timestamp>,
    pub replies: Seq<PostV>,
    pub next_reply: u64,
}

/// The values of a sequence of posts.
pub open spec fn post_views(s: Seq<Post>) -> Seq<PostV>
    decreases s,
{
    if s.len() == 0 {
        Seq::empty()
    } else {
        post_views(s.drop_last()).push(post_view(s.last()))
    }
}

/// The value of a post.
pub open spec fn post_view(p: Post) -> PostV
    decreases p,
{
    proof {
        assert(decreases_to!(p => p.replies));
    }
    PostV {
        id: p.id@,
        author: p.author@,
        body: p.body@,
        labels: texts(p.labels@),
        refs: texts(p.refs@),
        attachments: views(p.attachments@),
        created: p.created,
        edited: p.edited,
        replies: post_views(p.replies@),
        next_reply: p.next_reply,
    }
}

impl View for Post {
    type V = PostV;

    open spec fn view(&self) -> PostV {
        post_view(*self)
    }
}

/// `post_views` maps each post to its value.
pub proof fn lemma_post_views(s: Seq<Post>)
    ensures
        post_views(s).len() == s.len(),
        forall|i: int| 0 <= i < s.len() ==> #[trigger] post_views(s)[i] == post_view(s[i]),
    decreases s.len(),
{
    if s.len() > 0 {
        lemma_post_views(s.drop_last());
    }
}

/// The values of posts are those of their elements, so equal element values give
/// equal sequence values.
pub proof fn lemma_post_views_push(s: Seq<Post>, p: Post)
    ensures
        post_views(s.push(p)) == post_views(s).push(post_view(p)),
{
    assert(s.push(p).drop_last() =~= s);
}

/// A deep copy of a post and all its replies.
pub fn copy_post(p: &Post) -> (r: Post)
    ensures
        r@ == p@,
    decreases p,
{
    let mut replies: Vec<Post> = Vec::new();
    let mut i: usize = 0;
    while i < p.replies.len()
        invariant
            i <= p.replies@.len(),
            post_views(replies@) == post_views(p.replies@.subrange(0, i as int)),
        decreases p.replies@.len() - i,
    {
        proof {
            assert(decreases_to!(p => p.replies));
        }
        let c = copy_post(&p.replies[i]);
        proof {
            lemma_post_views_push(replies@, c);
            lemma_post_views_push(p.replies@.subrange(0, i as int), p.replies@[i as int]);
            assert(p.replies@.subrange(0, i as int).push(p.replies@[i as int]) =~= p.replies@.subrange(0, i + 1));
        }
        replies.push(c);
        i = i + 1;
    }
    assert(p.replies@.subrange(0, i as int) =~= p.replies@);
    Post {
        id: p.id.clone(),
        author: p.author.clone(),
        body: p.body.clone(),
        labels: clone_strings(&p.labels),
        refs: clone_strings(&p.refs),
        attachments: clone_exact(&p.attachments),
        created: p.created,
        edited: p.edited,
        replies,
        next_reply: p.next_reply,
    }
}

impl Clone for Post {
    fn clone(&self) -> (r: Self)
        ensures
            r@ == self@,
    {
        copy_post(self)
    }
}

impl Post {
    /// A new post with no labels, references, attachments or replies.
    pub fn new(id: &str, author: &str, body: &str, now: Timestamp) -> (p: Post)
        ensures
            p@ == (PostV {
                id: id@,
                author: author@,
                body: body@,
                labels: Seq::empty(),
                refs: Seq::empty(),
                attachments: Seq::empty(),
                created: now,
                edited: None,
                replies: Seq::empty(),
                next_reply: 1,
            }),
    {
        let p = Post {
            id: owned(id),
            author: owned(author),
            body: owned(body),
            labels: Vec::new(),
            refs: Vec::new(),
            attachments: Vec::new(),
            created: now,
            edited: None,
            replies: Vec::new(),
            next_reply: 1,
        };
        assert(texts(p.labels@) =~= Seq::empty());
        assert(texts(p.refs@) =~= Seq::empty());
        assert(views(p.attachments@) =~= Seq::empty());
        assert(post_views(p.replies@) =~= Seq::empty());
        p
    }
}

/// A forum thread: a title and a tree of posts rooted at the opening post.
#[derive(Debug)]
pub struct Thread {
    /// On-disk format version.
    pub version: u32,
    /// Thread ID, e.g. `F-1` (also the root post's ID).
    pub id: String,
    /// Thread headline.
    pub title: String,
    /// The opening post and, through it, every reply.
    pub root: Post,
    /// When the thread was opened.
    pub created: Timestamp,
    /// When anything in the thread last changed.
    pub updated: Timestamp,
}

/// The value of a [`Thread`].
pub struct ThreadV {
    pub version: u32,
    pub id: Seq<char>,
    pub title: Seq<char>,
    pub root: PostV,
    pub created: Timestamp,
    pub updated: Timestamp,
}

impl View for Thread {
    type V = ThreadV;

    open spec fn view(&self) -> ThreadV {
        ThreadV {
            version: self.version,
            id: self.id@,
            title: self.title@,
            root: self.root@,
            created: self.created,
            updated: self.updated,
        }
    }
}

impl Clone for Thread {
    fn clone(&self) -> (r: Self)
        ensures
            r@ == self@,
    {
        Thread {
            version: self.version,
            id: self.id.clone(),
            title: self.title.clone(),
            root: copy_post(&self.root),
            created: self.created,
            updated: self.updated,
        }
    }
}

// ---------------------------------------------------------------------------
// subscriptions.json
// ---------------------------------------------------------------------------

/// Who follows what: for each identity, the references it subscribes to
/// (`T-<n>`, `list:<id>`, `forum:<thread>`, `forum:*`, `board:*`). On disk this is
/// an object keyed by identity; a new identity's entry goes last, and each
/// identity's references are kept sorted once it subscribes to something new.
#[derive(Debug)]
pub struct Subscriptions {
    /// `(identity, references)` pairs.
    pub subs: Vec<(String, Vec<String>)>,
}

/// The value of a subscription entry.
pub open spec fn sub_entry_view(e: (String, Vec<String>)) -> (Seq<char>, Seq<Seq<char>>) {
    (e.0@, texts(e.1@))
}

impl View for Subscriptions {
    type V = Seq<(Seq<char>, Seq<Seq<char>>)>;

    open spec fn view(&self) -> Seq<(Seq<char>, Seq<Seq<char>>)> {
        self.subs@.map_values(|e: (String, Vec<String>)| sub_entry_view(e))
    }
}

impl Clone for Subscriptions {
    fn clone(&self) -> (r: Self)
        ensures
            r@ == self@,
    {
        let mut subs: Vec<(String, Vec<String>)> = Vec::new();
        let mut i: usize = 0;
        while i < self.subs.len()
            invariant
                i <= self.subs@.len(),
                subs@.len() == i,
                forall|k: int| 0 <= k < i ==> sub_entry_view(#[trigger] subs@[k]) == sub_entry_view(self.subs@[k]),
            decreases self.subs@.len() - i,
        {
            let e = (self.subs[i].0.clone(), clone_strings(&self.subs[i].1));
            subs.push(e);
            i = i + 1;
        }
        let r = Subscriptions { subs };
        assert(r@ =~= self@);
        r
    }
}

impl Default for Subscriptions {
    fn default() -> (s: Self)
        ensures
            s@.len() == 0,
    {
        let s = Subscriptions { subs: Vec::new() };
        assert(s@ =~= Seq::empty());
        s
    }
}

} // verus!
