//! Which identity an authored action is attributed to, and where that identity
//! comes from.
//!
//! Resolution order: an explicit `--author`; the `--agentid` override of this
//! invocation; `$WIPE_AGENT`; the identity bound to this terminal session;
//! `$WIPE_AUTHOR`; then the project's own default (VCS user, board default,
//! global default). The environment and the session file are read by the
//! caller; the choices are made here.

use vstd::prelude::*;

use crate::config::GlobalConfig;
use crate::keyed::{first_index, lemma_first_index, lemma_first_index_found, lemma_first_index_none};
use crate::model::{opt_text, IdentityKind, IdentityV};
use crate::ops::{identity_key, nonblank};
use crate::store::{Store, StoreV};
use crate::error::Error;
use crate::text::{cat3, contains_char, has_char, is_blank, owned, same, trim, trim_spec};

verus! {

/// A value that is present and not blank, as given.
pub open spec fn given(o: Option<Seq<char>>) -> Option<Seq<char>> {
    match o {
        Some(s) => if trim_spec(s).len() == 0 {
            None
        } else {
            Some(s)
        },
        None => None,
    }
}

/// A value that is present and not blank, trimmed.
pub open spec fn given_trimmed(o: Option<Seq<char>>) -> Option<Seq<char>> {
    match o {
        Some(s) => if trim_spec(s).len() == 0 {
            None
        } else {
            Some(trim_spec(s))
        },
        None => None,
    }
}

fn keep_given(o: Option<String>) -> (r: Option<String>)
    ensures
        opt_text(r) == given(opt_text(o)),
{
    match o {
        Some(s) => if is_blank(s.as_str()) {
            None
        } else {
            Some(s)
        },
        None => None,
    }
}

fn keep_trimmed(o: Option<String>) -> (r: Option<String>)
    ensures
        opt_text(r) == given_trimmed(opt_text(o)),
{
    match o {
        Some(s) => {
            let t = trim(s.as_str());
            if t.as_str().is_empty() {
                None
            } else {
                Some(t)
            }
        },
        None => None,
    }
}

/// The `--agentid` override to keep for this process: the value unless blank.
pub fn set_override(agentid: Option<String>) -> (r: Option<String>)
    ensures
        opt_text(r) == given(opt_text(agentid)),
{
    keep_given(agentid)
}

/// `$WIPE_AGENT`, a stable per-terminal agent identity: trimmed, unless blank.
pub fn agent_env(value: Option<String>) -> (r: Option<String>)
    ensures
        opt_text(r) == given_trimmed(opt_text(value)),
{
    keep_trimmed(value)
}

/// The identity chosen before the project's own default: the explicit one, the
/// `--agentid` override, `$WIPE_AGENT`, the session's, then `$WIPE_AUTHOR`.
pub open spec fn chosen(
    explicit: Option<Seq<char>>,
    override_id: Option<Seq<char>>,
    agent: Option<Seq<char>>,
    active: Option<Seq<char>>,
    author_env: Option<Seq<char>>,
) -> Option<Seq<char>> {
    if given(explicit) is Some {
        explicit
    } else if override_id is Some {
        override_id
    } else if agent is Some {
        agent
    } else if active is Some {
        active
    } else {
        given(author_env)
    }
}

/// Resolve the author from the sources that precede the project default. `None`
/// means the project's default applies (see [`crate::ops::resolve_identity`]).
pub fn resolve(
    explicit: Option<String>,
    override_id: Option<String>,
    agent: Option<String>,
    active: Option<String>,
    author_env: Option<String>,
) -> (r: Option<String>)
    ensures
        opt_text(r) == chosen(
            opt_text(explicit),
            opt_text(override_id),
            opt_text(agent),
            opt_text(active),
            opt_text(author_env),
        ),
{
    let e = keep_given(explicit);
    if e.is_some() {
        return e;
    }
    if override_id.is_some() {
        return override_id;
    }
    if agent.is_some() {
        return agent;
    }
    if active.is_some() {
        return active;
    }
    keep_given(author_env)
}

/// Whether the global default outranks the VCS user: preferred and set.
pub open spec fn prefers_default(g: GlobalConfig) -> bool {
    g.prefer_default_identity == Some(true) && nonblank(g.default_identity) is Some
}

/// Where [`resolve`] gets the identity from, in words.
pub open spec fn source_of(
    explicit: Option<Seq<char>>,
    override_set: bool,
    agent_set: bool,
    active_set: bool,
    author_env: Option<Seq<char>>,
    prefer_default: bool,
    vcs_known: bool,
) -> Seq<char> {
    if given(explicit) is Some {
        "explicit --author"@
    } else if override_set {
        "--agentid override"@
    } else if agent_set {
        "$WIPE_AGENT (per-terminal)"@
    } else if active_set {
        "session (wipe identity use)"@
    } else if given(author_env) is Some {
        "$WIPE_AUTHOR"@
    } else if prefer_default {
        "global default (preferred)"@
    } else if vcs_known {
        "project VCS"@
    } else {
        "default identity"@
    }
}

/// A human-readable note on where the identity comes from, for `whoami`.
pub fn source(
    explicit: Option<&str>,
    override_set: bool,
    agent_set: bool,
    active_set: bool,
    author_env: Option<&str>,
    g: &GlobalConfig,
    vcs_known: bool,
) -> (r: String)
    ensures
        r@ == source_of(
            match explicit {
                Some(e) => Some(e@),
                None => None,
            },
            override_set,
            agent_set,
            active_set,
            match author_env {
                Some(a) => Some(a@),
                None => None,
            },
            prefers_default(*g),
            vcs_known,
        ),
{
    let explicit_given = match explicit {
        Some(e) => !is_blank(e),
        None => false,
    };
    let author_given = match author_env {
        Some(a) => !is_blank(a),
        None => false,
    };
    let prefer = match g.prefer_default_identity {
        Some(b) => b,
        None => false,
    } && match &g.default_identity {
        Some(d) => !is_blank(d.as_str()),
        None => false,
    };
    if explicit_given {
        owned("explicit --author")
    } else if override_set {
        owned("--agentid override")
    } else if agent_set {
        owned("$WIPE_AGENT (per-terminal)")
    } else if active_set {
        owned("session (wipe identity use)")
    } else if author_given {
        owned("$WIPE_AUTHOR")
    } else if prefer {
        owned("global default (preferred)")
    } else if vcs_known {
        owned("project VCS")
    } else {
        owned("default identity")
    }
}

// ---------------------------------------------------------------------------
// Terminal sessions
// ---------------------------------------------------------------------------

/// The identity bound to each terminal session, by session key.
#[derive(Debug)]
pub struct Sessions {
    /// `(session, identity)` pairs.
    pub active: Vec<(String, String)>,
}

impl View for Sessions {
    type V = Seq<(Seq<char>, Seq<char>)>;

    open spec fn view(&self) -> Seq<(Seq<char>, Seq<char>)> {
        self.active@.map_values(|e: (String, String)| (e.0@, e.1@))
    }
}

/// The key of a session entry.
pub open spec fn session_entry_key() -> spec_fn((Seq<char>, Seq<char>)) -> Seq<char> {
    |e: (Seq<char>, Seq<char>)| e.0
}

/// The key of this terminal's session: `$WIPE_SESSION` trimmed, else `default`.
pub open spec fn session_key_of(env: Option<Seq<char>>) -> Seq<char> {
    match given_trimmed(env) {
        Some(k) => k,
        None => "default"@,
    }
}

/// The key of this terminal's session, from `$WIPE_SESSION`.
pub fn session_key(env: Option<String>) -> (r: String)
    ensures
        r@ == session_key_of(opt_text(env)),
{
    match keep_trimmed(env) {
        Some(k) => k,
        None => owned("default"),
    }
}

fn session_pos(s: &Sessions, key: &str) -> (r: Option<usize>)
    ensures
        r matches Some(i) ==> i < s@.len() && first_index(s@, session_entry_key(), key@) == i && s@[i as int].0 == key@,
        r is None ==> first_index(s@, session_entry_key(), key@) == -1,
{
    let mut i: usize = 0;
    while i < s.active.len()
        invariant
            i <= s@.len(),
            s@.len() == s.active@.len(),
            forall|m: int| 0 <= m < i ==> session_entry_key()(#[trigger] s@[m]) != key@,
        decreases s@.len() - i,
    {
        assert(s@[i as int].0 == s.active@[i as int].0@);
        if same(s.active[i].0.as_str(), key) {
            proof {
                lemma_first_index(s@, session_entry_key(), key@, i as int);
            }
            return Some(i);
        }
        i = i + 1;
    }
    proof {
        lemma_first_index_none(s@, session_entry_key(), key@);
    }
    None
}

/// The identity bound to session `key`, trimmed, unless blank.
pub open spec fn active_of(s: Seq<(Seq<char>, Seq<char>)>, key: Seq<char>) -> Option<Seq<char>> {
    let i = first_index(s, session_entry_key(), key);
    if 0 <= i {
        given_trimmed(Some(s[i].1))
    } else {
        None
    }
}

/// The identity bound to session `key`, if any (ignoring blank values).
pub fn active(s: &Sessions, key: &str) -> (r: Option<String>)
    ensures
        opt_text(r) == active_of(s@, key@),
{
    match session_pos(s, key) {
        Some(i) => {
            assert(s@[i as int].1 == s.active@[i as int].1@);
            keep_trimmed(Some(s.active[i].1.clone()))
        },
        None => None,
    }
}

/// `s` with session `key` bound to `author`: its entry replaced, or a new entry
/// at the end.
pub open spec fn bound(s: Seq<(Seq<char>, Seq<char>)>, key: Seq<char>, author: Seq<char>) -> Seq<(Seq<char>, Seq<char>)> {
    let i = first_index(s, session_entry_key(), key);
    if 0 <= i {
        s.update(i, (key, author))
    } else {
        s.push((key, author))
    }
}

/// Bind `author` to session `key`.
pub fn set_active(s: &mut Sessions, key: &str, author: &str)
    ensures
        final(s)@ == bound(old(s)@, key@, author@),
{
    let ghost s0 = s@;
    match session_pos(s, key) {
        Some(i) => {
            s.active.set(i, (owned(key), owned(author)));
            assert(s@ =~= s0.update(i as int, (key@, author@)));
        },
        None => {
            s.active.push((owned(key), owned(author)));
            assert(s@ =~= s0.push((key@, author@)));
        },
    }
}

/// Unbind session `key`. Returns whether it was bound.
pub fn clear_active(s: &mut Sessions, key: &str) -> (removed: bool)
    ensures
        removed == (first_index(old(s)@, session_entry_key(), key@) >= 0),
        removed ==> final(s)@ == old(s)@.remove(first_index(old(s)@, session_entry_key(), key@)),
        !removed ==> final(s)@ == old(s)@,
{
    let ghost s0 = s@;
    match session_pos(s, key) {
        Some(i) => {
            s.active.remove(i);
            assert(s@ =~= s0.remove(i as int));
            true
        },
        None => false,
    }
}

// ---------------------------------------------------------------------------
// Hints and defaults
// ---------------------------------------------------------------------------

/// The shell line that pins `author` through `$WIPE_AUTHOR`, for PowerShell on
/// Windows and for POSIX shells elsewhere.
pub open spec fn export_line(author: Seq<char>, windows: bool) -> Seq<char> {
    if windows {
        "$env:WIPE_AUTHOR = \""@ + author + "\""@
    } else {
        "export WIPE_AUTHOR=\""@ + author + "\""@
    }
}

/// The shell snippet an agent can `eval` to pin this identity for the session.
pub fn export_hint(author: &str, windows: bool) -> (r: String)
    ensures
        r@ == export_line(author@, windows),
{
    if windows {
        cat3("$env:WIPE_AUTHOR = \"", author, "\"")
    } else {
        cat3("export WIPE_AUTHOR=\"", author, "\"")
    }
}

/// The default identity when nothing else supplies one: the global default
/// unless blank, else `human`.
pub fn effective_default(g: &GlobalConfig) -> (r: String)
    ensures
        r@ == match nonblank(g.default_identity) {
            Some(d) => d,
            None => "human"@,
        },
{
    match &g.default_identity {
        Some(d) => if is_blank(d.as_str()) {
            owned("human")
        } else {
            d.clone()
        },
        None => owned("human"),
    }
}

/// The registry after making sure `id` (trimmed) is known: unchanged when it is
/// blank or already there, else with a new entry named `name` (or the ID).
pub open spec fn registered(reg: Seq<IdentityV>, id: Seq<char>, name: Option<Seq<char>>, agent: bool) -> Seq<IdentityV> {
    let t = trim_spec(id);
    if t.len() == 0 || first_index(reg, identity_key(), t) >= 0 {
        reg
    } else {
        reg.push(IdentityV {
            id: t,
            display_name: match name {
                Some(n) => n,
                None => t,
            },
            kind: if agent {
                IdentityKind::Agent
            } else {
                IdentityKind::Human
            },
        })
    }
}

/// Make sure the identity `id` is in the board's registry, so it shows in
/// listings. Insert-only: a known identity (and its display name) is left as it
/// is.
pub fn ensure_registered(store: &mut Store, id: &str, name: Option<&str>, agent: bool)
    requires
        old(store).wf(),
    ensures
        final(store).wf(),
        final(store)@ == (StoreV {
            identities: registered(
                old(store)@.identities,
                id@,
                match name {
                    Some(n) => Some(n@),
                    None => None,
                },
                agent,
            ),
            ..old(store)@
        }),
{
    let t = trim(id);
    if t.as_str().is_empty() {
        return;
    }
    let list = store.load_identities();
    let ghost reg = store@.identities;
    let mut i: usize = 0;
    while i < list.len()
        invariant
            i <= list@.len(),
            reg == crate::model::views(list@),
            reg == old(store)@.identities,
            store.wf(),
            store@ == old(store)@,
            t@ == trim_spec(id@),
            t@.len() > 0,
            forall|m: int| 0 <= m < i ==> identity_key()(#[trigger] reg[m]) != t@,
        decreases list@.len() - i,
    {
        assert(reg[i as int] == list@[i as int]@);
        if same(list[i].id.as_str(), t.as_str()) {
            proof {
                lemma_first_index(reg, identity_key(), t@, i as int);
            }
            return;
        }
        i = i + 1;
    }
    proof {
        lemma_first_index_none(reg, identity_key(), t@);
    }
    let kind = if agent {
        IdentityKind::Agent
    } else {
        IdentityKind::Human
    };
    let display = match name {
        Some(n) => owned(n),
        None => t.clone(),
    };
    let _ = crate::ops::upsert_identity(store, t.as_str(), display.as_str(), Some(kind));
}

/// The kind `identity use` records: an agent when `--agent` was given, or when
/// neither flag was and the ID holds no `@`; else a human.
pub open spec fn use_kind_spec(id: Seq<char>, agent: bool, human: bool) -> IdentityKind {
    if agent || (!human && !has_char(id, '@')) {
        IdentityKind::Agent
    } else {
        IdentityKind::Human
    }
}

/// The kind of identity that `identity use <id>` binds, from its `--agent` and
/// `--human` flags; an ID that is blank is refused.
pub fn use_kind(id: &str, agent: bool, human: bool) -> (r: Result<IdentityKind, Error>)
    ensures
        trim_spec(id@).len() == 0 ==> (r matches Err(Error::Message(m)) && m@ == "identity id cannot be empty"@),
        trim_spec(id@).len() > 0 ==> r == Ok::<IdentityKind, Error>(use_kind_spec(id@, agent, human)),
{
    if is_blank(id) {
        return Err(Error::Message(owned("identity id cannot be empty")));
    }
    if agent || (!human && !contains_char(id, '@')) {
        Ok(IdentityKind::Agent)
    } else {
        Ok(IdentityKind::Human)
    }
}

/// Binding an identity to a session makes it that session's active identity
/// (trimmed; none when blank) and leaves every other session's binding as it
/// was.
pub proof fn law_bind_then_active(
    s: Seq<(Seq<char>, Seq<char>)>,
    key: Seq<char>,
    author: Seq<char>,
    other: Seq<char>,
)
    ensures
        active_of(bound(s, key, author), key) == given_trimmed(Some(author)),
        other != key ==> active_of(bound(s, key, author), other) == active_of(s, other),
{
    let k = session_entry_key();
    let t = bound(s, key, author);
    let i = first_index(s, k, key);
    if 0 <= i {
        lemma_first_index_found(s, k, key);
        assert forall|j: int| 0 <= j < i implies k(#[trigger] t[j]) != key by {
            assert(t[j] == s[j]);
        }
        lemma_first_index(t, k, key, i);
    } else {
        assert forall|j: int| 0 <= j < s.len() implies k(#[trigger] s[j]) != key by {
            if k(s[j]) == key {
                assert(crate::keyed::keyed_has(s, k, key));
                lemma_first_index_found(s, k, key);
            }
        }
        assert forall|j: int| 0 <= j < s.len() implies k(#[trigger] t[j]) != key by {
            assert(t[j] == s[j]);
        }
        lemma_first_index(t, k, key, s.len() as int);
    }
    if other != key {
        if crate::keyed::keyed_has(s, k, other) {
            lemma_first_index_found(s, k, other);
            let o = first_index(s, k, other);
            assert forall|j: int| 0 <= j < o implies k(#[trigger] t[j]) != other by {
                if 0 <= i && j == i {
                } else {
                    assert(t[j] == s[j]);
                }
            }
            assert(t[o] == s[o]);
            lemma_first_index(t, k, other, o);
        } else {
            assert forall|j: int| 0 <= j < t.len() implies k(#[trigger] t[j]) != other by {
                if (0 <= i && j == i) || j == s.len() {
                } else {
                    assert(t[j] == s[j]);
                    if k(s[j]) == other {
                        assert(crate::keyed::keyed_has(s, k, other));
                    }
                }
            }
            lemma_first_index_none(t, k, other);
        }
    }
}

} // verus!
