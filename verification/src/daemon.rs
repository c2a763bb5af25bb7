//! The local daemon's decisions: where it listens, how the UI's settings patch
//! applies to the user defaults, and the forum's thread summaries. Serving HTTP
//! and watching files are the front end's.

use vstd::prelude::*;

use crate::config::{GlobalConfig, GlobalConfigV};
use crate::forum::{PostView, PostViewV};
use crate::model::{texts, views, DaemonSettings, Exposure, Timestamp};
use crate::text::{chars_of, contains_sub, has_infix, same, string_of, trim, trim_spec};

verus! {

/// Configuration for a `wipe serve` invocation.
#[derive(Debug)]
pub struct ServeConfig {
    /// Project root to open by default (the directory containing `.wipe`), if
    /// serving from inside a board.
    pub root: Option<String>,
    /// TCP port to bind.
    pub port: u16,
    /// How the daemon is exposed beyond localhost.
    pub expose: Exposure,
    /// Whether to open a browser once bound.
    pub open: bool,
    /// Stop after this many seconds without viewers (never when `None`).
    pub idle_timeout_secs: Option<u64>,
}

/// How long the daemon may sit idle: `--idle 0` means never, another `--idle`
/// value is taken as is, and without the flag the board's auto-stop setting
/// decides.
pub open spec fn idle_limit(flag: Option<u64>, d: DaemonSettings) -> Option<u64> {
    match flag {
        Some(0) => None,
        Some(n) => Some(n),
        None => if d.autoserve {
            Some(d.idle_timeout_secs)
        } else {
            None
        },
    }
}

/// The idle limit of a `wipe serve` run (see [`idle_limit`]).
pub fn idle_timeout(flag: Option<u64>, d: DaemonSettings) -> (r: Option<u64>)
    ensures
        r == idle_limit(flag, d),
{
    match flag {
        Some(n) => if n == 0 {
            None
        } else {
            Some(n)
        },
        None => if d.autoserve {
            Some(d.idle_timeout_secs)
        } else {
            None
        },
    }
}

/// The daemon settings used when serving outside any board: the built-in ones,
/// with the user's default port, auto-stop and idle timeout where set.
pub fn fallback_daemon(g: &GlobalConfig) -> (d: DaemonSettings)
    ensures
        d.port == match g.default_port {
            Some(p) => p,
            None => crate::model::DEFAULT_PORT,
        },
        d.expose == Exposure::Local,
        d.autoserve == match g.autoserve {
            Some(b) => b,
            None => false,
        },
        d.idle_timeout_secs == match g.idle_timeout_secs {
            Some(n) => n,
            None => crate::model::DEFAULT_IDLE_TIMEOUT_SECS,
        },
{
    let mut d = DaemonSettings::default();
    match g.default_port {
        Some(p) => {
            d.port = p;
        },
        None => {},
    }
    match g.autoserve {
        Some(b) => {
            d.autoserve = b;
        },
        None => {},
    }
    match g.idle_timeout_secs {
        Some(n) => {
            d.idle_timeout_secs = n;
        },
        None => {},
    }
    d
}

/// Whether the daemon listens on every interface (reachable over Tailscale or
/// through a proxy) rather than on localhost only.
pub fn listens_everywhere(e: Exposure) -> (r: bool)
    ensures
        r == (e != Exposure::Local),
{
    match e {
        Exposure::Local => false,
        Exposure::Tailscale => true,
        Exposure::Proxy => true,
    }
}

/// A settings patch from the board UI: only the fields present change.
#[derive(Debug)]
pub struct ConfigPatch {
    pub accent: Option<String>,
    pub theme: Option<String>,
    pub default_identity: Option<String>,
    pub prefer_default_identity: Option<bool>,
}

/// The user defaults after the UI's patch: accent, theme and preference as
/// given; the default identity trimmed, and only when not blank.
pub open spec fn patched_config(g: GlobalConfigV, p: ConfigPatch) -> GlobalConfigV {
    GlobalConfigV {
        ui_accent: match p.accent {
            Some(a) => Some(a@),
            None => g.ui_accent,
        },
        ui_theme: match p.theme {
            Some(t) => Some(t@),
            None => g.ui_theme,
        },
        default_identity: match p.default_identity {
            Some(d) => if trim_spec(d@).len() == 0 {
                g.default_identity
            } else {
                Some(trim_spec(d@))
            },
            None => g.default_identity,
        },
        prefer_default_identity: match p.prefer_default_identity {
            Some(b) => Some(b),
            None => g.prefer_default_identity,
        },
        ..g
    }
}

/// Apply the UI's settings patch to the user defaults.
pub fn apply_config_patch(g: &mut GlobalConfig, p: &ConfigPatch)
    ensures
        final(g)@ == patched_config(old(g)@, *p),
{
    match &p.accent {
        Some(a) => {
            g.ui_accent = Some(a.clone());
        },
        None => {},
    }
    match &p.theme {
        Some(t) => {
            g.ui_theme = Some(t.clone());
        },
        None => {},
    }
    match &p.default_identity {
        Some(d) => {
            let t = trim(d.as_str());
            if !t.as_str().is_empty() {
                g.default_identity = Some(t);
            }
        },
        None => {},
    }
    match p.prefer_default_identity {
        Some(b) => {
            g.prefer_default_identity = Some(b);
        },
        None => {},
    }
}

/// One forum thread as the board UI lists it.
#[derive(Debug)]
pub struct ThreadSummary {
    pub id: String,
    pub title: String,
    pub author: String,
    pub labels: Vec<String>,
    /// Posts in the thread, its root included.
    pub posts: usize,
    pub created: Timestamp,
}

/// The number of posts of `ps` in thread `id`.
pub open spec fn posts_in(ps: Seq<PostViewV>, id: Seq<char>) -> nat
    decreases ps.len(),
{
    if ps.len() == 0 {
        0
    } else {
        posts_in(ps.drop_last(), id) + if ps.last().thread_id == id {
            1nat
        } else {
            0nat
        }
    }
}

/// The summaries of the threads whose roots are among `roots`, with post counts
/// taken over all of `ps`.
pub open spec fn summaries(roots: Seq<PostViewV>, ps: Seq<PostViewV>) -> Seq<(Seq<char>, Seq<char>, Seq<char>, Seq<Seq<char>>, nat, Timestamp)>
    decreases roots.len(),
{
    if roots.len() == 0 {
        Seq::empty()
    } else {
        let rest = summaries(roots.drop_last(), ps);
        let r = roots.last();
        if r.depth == 0 {
            rest.push((r.thread_id, r.thread_title, r.author, r.labels, posts_in(ps, r.thread_id), r.created))
        } else {
            rest
        }
    }
}

/// How a summary reads.
pub open spec fn summary_view(s: ThreadSummary) -> (Seq<char>, Seq<char>, Seq<char>, Seq<Seq<char>>, nat, Timestamp) {
    (s.id@, s.title@, s.author@, texts(s.labels@), s.posts as nat, s.created)
}

fn count_posts(posts: &Vec<PostView>, id: &str) -> (n: usize)
    ensures
        n == posts_in(views(posts@), id@),
{
    let ghost pv = views(posts@);
    let mut n: usize = 0;
    let mut i: usize = 0;
    while i < posts.len()
        invariant
            i <= posts@.len(),
            pv == views(posts@),
            n == posts_in(pv.subrange(0, i as int), id@),
            n <= i,
        decreases posts@.len() - i,
    {
        let ghost pre = pv.subrange(0, i + 1);
        assert(pre.drop_last() =~= pv.subrange(0, i as int));
        assert(pre.last() == posts@[i as int]@);
        if same(posts[i].thread_id.as_str(), id) {
            n = n + 1;
        }
        i = i + 1;
    }
    assert(pv.subrange(0, i as int) =~= pv);
    n
}

/// The thread summaries of a forum listing: one per root post, in listing
/// order, each with the number of posts in its thread.
pub fn thread_summaries(posts: &Vec<PostView>) -> (r: Vec<ThreadSummary>)
    ensures
        r@.map_values(|s: ThreadSummary| summary_view(s)) == summaries(views(posts@), views(posts@)),
{
    let ghost pv = views(posts@);
    let mut out: Vec<ThreadSummary> = Vec::new();
    let mut i: usize = 0;
    while i < posts.len()
        invariant
            i <= posts@.len(),
            pv == views(posts@),
            out@.map_values(|s: ThreadSummary| summary_view(s)) == summaries(pv.subrange(0, i as int), pv),
        decreases posts@.len() - i,
    {
        let ghost pre = pv.subrange(0, i + 1);
        assert(pre.drop_last() =~= pv.subrange(0, i as int));
        assert(pre.last() == posts@[i as int]@);
        let p = &posts[i];
        if p.depth == 0 {
            let s = ThreadSummary {
                id: p.thread_id.clone(),
                title: p.thread_title.clone(),
                author: p.author.clone(),
                labels: crate::model::clone_strings(&p.labels),
                posts: count_posts(posts, p.thread_id.as_str()),
                created: p.created,
            };
            let ghost before = out@.map_values(|s: ThreadSummary| summary_view(s));
            out.push(s);
            assert(out@.map_values(|s: ThreadSummary| summary_view(s)) =~= before.push(summary_view(s)));
        }
        i = i + 1;
    }
    assert(pv.subrange(0, i as int) =~= pv);
    out
}

/// A path with each backslash read as `/`.
pub open spec fn slashed(p: Seq<char>) -> Seq<char> {
    Seq::new(p.len(), |i: int| if p[i] == '\\' { '/' } else { p[i] })
}

/// The repo-relative path that a media request names, with each backslash read
/// as `/`; `None` when it holds `..`, which could climb out of the project.
pub fn media_request_path(path: &str) -> (r: Option<String>)
    ensures
        match r {
            Some(s) => s@ == slashed(path@) && !has_infix(slashed(path@), ".."@),
            None => has_infix(slashed(path@), ".."@),
        },
{
    let cs = chars_of(path);
    let mut out: Vec<char> = Vec::new();
    let mut i: usize = 0;
    while i < cs.len()
        invariant
            i <= cs@.len(),
            cs@ == path@,
            out@ == slashed(path@).subrange(0, i as int),
        decreases cs@.len() - i,
    {
        let c = cs[i];
        if c == '\\' {
            out.push('/');
        } else {
            out.push(c);
        }
        i = i + 1;
        assert(out@ =~= slashed(path@).subrange(0, i as int));
    }
    assert(out@ =~= slashed(path@));
    let rel = string_of(out.as_slice());
    if contains_sub(rel.as_str(), "..") {
        None
    } else {
        Some(rel)
    }
}

} // verus!
