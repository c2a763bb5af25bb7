//! Version-control-agnostic identity resolution.
//!
//! The board lives in a repo, but that repo isn't always git: teams on Plastic
//! SCM, Mercurial, SVN, Fossil or Jujutsu still get real attribution. This module
//! decides which VCS hosts a directory from the markers found walking up from it,
//! which commands ask that VCS who the user is, and how to read their answers.
//! The caller looks for the markers and runs the commands, best-effort.

use vstd::prelude::*;

use crate::git::{first_index_of, opt_str, opt_view, pair_view};
use crate::model::texts;
use crate::parse::{lines, lines_spec, split_once, split_once_spec};
use crate::text::{cat, cat3, chars_of, owned, string_of, trim, trim_spec};

verus! {

/// A recognized version-control system hosting the repo.
#[derive(Debug, Clone, Copy, PartialEq, Eq, Structural)]
pub enum Vcs {
    /// Git.
    Git,
    /// Plastic SCM / Unity Version Control (`cm`).
    Plastic,
    /// Mercurial.
    Mercurial,
    /// Subversion.
    Svn,
    /// Fossil.
    Fossil,
    /// Jujutsu.
    Jujutsu,
    /// No recognized VCS at or above the path.
    NoVcs,
}

impl Vcs {
    /// Short, stable machine name (for `--json` and diagnostics).
    pub fn name(self) -> (r: &'static str)
        ensures
            r@ == match self {
                Vcs::Git => "git"@,
                Vcs::Plastic => "plastic"@,
                Vcs::Mercurial => "mercurial"@,
                Vcs::Svn => "svn"@,
                Vcs::Fossil => "fossil"@,
                Vcs::Jujutsu => "jujutsu"@,
                Vcs::NoVcs => "none"@,
            },
    {
        match self {
            Vcs::Git => "git",
            Vcs::Plastic => "plastic",
            Vcs::Mercurial => "mercurial",
            Vcs::Svn => "svn",
            Vcs::Fossil => "fossil",
            Vcs::Jujutsu => "jujutsu",
            Vcs::NoVcs => "none",
        }
    }
}

/// Which VCS markers one directory holds.
#[derive(Debug, Clone, Copy, PartialEq, Eq, Structural)]
pub struct Markers {
    /// `.git`.
    pub git: bool,
    /// `.plastic`.
    pub plastic: bool,
    /// `.hg`.
    pub hg: bool,
    /// `.svn`.
    pub svn: bool,
    /// `.jj`.
    pub jj: bool,
    /// `.fslckout` or `_FOSSIL_`.
    pub fossil: bool,
}

/// The VCS one directory's markers name, first match in a fixed order.
pub open spec fn level_vcs(m: Markers) -> Option<Vcs> {
    if m.git {
        Some(Vcs::Git)
    } else if m.plastic {
        Some(Vcs::Plastic)
    } else if m.hg {
        Some(Vcs::Mercurial)
    } else if m.svn {
        Some(Vcs::Svn)
    } else if m.jj {
        Some(Vcs::Jujutsu)
    } else if m.fossil {
        Some(Vcs::Fossil)
    } else {
        None
    }
}

/// The VCS of the nearest directory, walking up, that holds a marker.
pub open spec fn detect_spec(levels: Seq<Markers>) -> Vcs
    decreases levels.len(),
{
    if levels.len() == 0 {
        Vcs::NoVcs
    } else {
        match level_vcs(levels[0]) {
            Some(v) => v,
            None => detect_spec(levels.drop_first()),
        }
    }
}

/// Decide the VCS from the markers of the directories from the start directory
/// up to the filesystem root, nearest first.
pub fn detect(levels: &Vec<Markers>) -> (r: Vcs)
    ensures
        r == detect_spec(levels@),
{
    let mut i: usize = 0;
    assert(levels@.subrange(0, levels@.len() as int) =~= levels@);
    while i < levels.len()
        invariant
            i <= levels@.len(),
            detect_spec(levels@) == detect_spec(levels@.subrange(i as int, levels@.len() as int)),
        decreases levels@.len() - i,
    {
        let m = levels[i];
        let ghost rest = levels@.subrange(i as int, levels@.len() as int);
        assert(rest[0] == m);
        assert(rest.drop_first() =~= levels@.subrange(i + 1, levels@.len() as int));
        if m.git {
            return Vcs::Git;
        } else if m.plastic {
            return Vcs::Plastic;
        } else if m.hg {
            return Vcs::Mercurial;
        } else if m.svn {
            return Vcs::Svn;
        } else if m.jj {
            return Vcs::Jujutsu;
        } else if m.fossil {
            return Vcs::Fossil;
        }
        i = i + 1;
    }
    Vcs::NoVcs
}

/// What a probe printed, when it succeeded: trimmed, and `None` when blank.
pub open spec fn finish_spec(out: Option<Seq<char>>) -> Option<Seq<char>> {
    match out {
        Some(s) => if trim_spec(s).len() == 0 { None } else { Some(trim_spec(s)) },
        None => None,
    }
}

/// Read a probe's output: `stdout` when the command succeeded, else `None`.
pub fn finish(stdout: Option<&str>) -> (r: Option<String>)
    ensures
        opt_view(r) == finish_spec(opt_str(stdout)),
{
    match stdout {
        Some(s) => {
            let t = trim(s);
            if t.as_str().is_empty() {
                None
            } else {
                Some(t)
            }
        },
        None => None,
    }
}

/// `Name <email>`, or whichever of the two is known.
pub open spec fn combine_spec(name: Option<Seq<char>>, email: Option<Seq<char>>) -> Option<Seq<char>> {
    match (name, email) {
        (Some(n), Some(e)) => Some(n + " <"@ + e + ">"@),
        (Some(n), None) => Some(n),
        (None, Some(e)) => Some(e),
        (None, None) => None,
    }
}

/// Combine a name and an email into an identity.
pub fn combine(name: Option<String>, email: Option<String>) -> (r: Option<String>)
    ensures
        opt_view(r) == combine_spec(opt_view(name), opt_view(email)),
{
    match (name, email) {
        (Some(n), Some(e)) => {
            let h = cat3(n.as_str(), " <", e.as_str());
            Some(cat(h.as_str(), ">"))
        },
        (Some(n), None) => Some(n),
        (None, Some(e)) => Some(e),
        (None, None) => None,
    }
}

/// One command asked of a VCS: the program, its arguments, and whether the
/// working directory is passed with `-C` (else the command runs in it).
#[derive(Debug)]
pub struct Probe {
    /// The program to run.
    pub program: String,
    /// Its arguments.
    pub args: Vec<String>,
    /// Pass the directory as `-C <dir>` rather than running in it.
    pub dash_c: bool,
}

/// The value of a [`Probe`].
pub open spec fn probe_view(p: Probe) -> (Seq<char>, Seq<Seq<char>>, bool) {
    (p.program@, texts(p.args@), p.dash_c)
}

/// The commands that ask each VCS for the current user: for git and Jujutsu the
/// name then the email; for Plastic, Mercurial and Fossil one command; none for
/// SVN (no reliable query) or when there is no VCS.
pub open spec fn identity_probes_spec(v: Vcs) -> Seq<(Seq<char>, Seq<Seq<char>>, bool)> {
    match v {
        Vcs::Git => seq![("git"@, seq!["config"@, "user.name"@], true), ("git"@, seq!["config"@, "user.email"@], true)],
        Vcs::Plastic => seq![("cm"@, seq!["whoami"@], false)],
        Vcs::Mercurial => seq![("hg"@, seq!["config"@, "ui.username"@], true)],
        Vcs::Fossil => seq![("fossil"@, seq!["user"@, "default"@], false)],
        Vcs::Jujutsu => seq![
            ("jj"@, seq!["config"@, "get"@, "user.name"@], false),
            ("jj"@, seq!["config"@, "get"@, "user.email"@], false),
        ],
        Vcs::Svn | Vcs::NoVcs => Seq::empty(),
    }
}

fn probe1(program: &str, a: &str, dash_c: bool) -> (p: Probe)
    ensures
        probe_view(p) == (program@, seq![a@], dash_c),
{
    let mut args: Vec<String> = Vec::new();
    args.push(owned(a));
    let p = Probe { program: owned(program), args, dash_c };
    assert(texts(p.args@) =~= seq![a@]);
    p
}

fn probe2(program: &str, a: &str, b: &str, dash_c: bool) -> (p: Probe)
    ensures
        probe_view(p) == (program@, seq![a@, b@], dash_c),
{
    let mut args: Vec<String> = Vec::new();
    args.push(owned(a));
    args.push(owned(b));
    let p = Probe { program: owned(program), args, dash_c };
    assert(texts(p.args@) =~= seq![a@, b@]);
    p
}

fn probe3(program: &str, a: &str, b: &str, c: &str, dash_c: bool) -> (p: Probe)
    ensures
        probe_view(p) == (program@, seq![a@, b@, c@], dash_c),
{
    let mut args: Vec<String> = Vec::new();
    args.push(owned(a));
    args.push(owned(b));
    args.push(owned(c));
    let p = Probe { program: owned(program), args, dash_c };
    assert(texts(p.args@) =~= seq![a@, b@, c@]);
    p
}

/// The commands that ask `v` who the current user is.
pub fn identity_probes(v: Vcs) -> (r: Vec<Probe>)
    ensures
        r@.map_values(|p: Probe| probe_view(p)) == identity_probes_spec(v),
{
    let mut r: Vec<Probe> = Vec::new();
    match v {
        Vcs::Git => {
            r.push(probe2("git", "config", "user.name", true));
            r.push(probe2("git", "config", "user.email", true));
        },
        Vcs::Plastic => {
            r.push(probe1("cm", "whoami", false));
        },
        Vcs::Mercurial => {
            r.push(probe2("hg", "config", "ui.username", true));
        },
        Vcs::Fossil => {
            r.push(probe2("fossil", "user", "default", false));
        },
        Vcs::Jujutsu => {
            r.push(probe3("jj", "config", "get", "user.name", false));
            r.push(probe3("jj", "config", "get", "user.email", false));
        },
        Vcs::Svn | Vcs::NoVcs => {},
    }
    assert(r@.map_values(|p: Probe| probe_view(p)) =~= identity_probes_spec(v));
    r
}

/// The identity reported by the VCS from the finished outputs of its probes, in
/// probe order: git and Jujutsu combine name and email, the others report one
/// value, SVN and no VCS report nothing.
pub open spec fn identity_spec(v: Vcs, first: Option<Seq<char>>, second: Option<Seq<char>>) -> Option<Seq<char>> {
    match v {
        Vcs::Git | Vcs::Jujutsu => combine_spec(first, second),
        Vcs::Plastic | Vcs::Mercurial | Vcs::Fossil => first,
        Vcs::Svn | Vcs::NoVcs => None,
    }
}

/// The current user's identity as reported by the repo's VCS (`Name <email>` when
/// available), from the finished outputs of [`identity_probes`].
pub fn identity(v: Vcs, first: Option<String>, second: Option<String>) -> (r: Option<String>)
    ensures
        opt_view(r) == identity_spec(v, opt_view(first), opt_view(second)),
{
    match v {
        Vcs::Git | Vcs::Jujutsu => combine(first, second),
        Vcs::Plastic | Vcs::Mercurial | Vcs::Fossil => first,
        Vcs::Svn | Vcs::NoVcs => None,
    }
}

/// The command listing recent authors, for the VCSs that expose them cheaply.
pub open spec fn authors_probe_spec(v: Vcs) -> Option<(Seq<char>, Seq<Seq<char>>, bool)> {
    match v {
        Vcs::Git => Some(("git"@, seq!["--no-pager"@, "log"@, "-n"@, "2000"@, "--format=%an\t%ae"@], true)),
        Vcs::Mercurial => Some(("hg"@, seq!["log"@, "-l"@, "2000"@, "--template"@, "{author}\n"@], true)),
        _ => None,
    }
}

/// The command that lists the authors of `v`'s recent history, if it has one.
pub fn authors_probe(v: Vcs) -> (r: Option<Probe>)
    ensures
        match authors_probe_spec(v) {
            Some(p) => r matches Some(x) && probe_view(x) == p,
            None => r is None,
        },
{
    match v {
        Vcs::Git => {
            let mut args: Vec<String> = Vec::new();
            args.push(owned("--no-pager"));
            args.push(owned("log"));
            args.push(owned("-n"));
            args.push(owned("2000"));
            args.push(owned("--format=%an\t%ae"));
            let p = Probe { program: owned("git"), args, dash_c: true };
            assert(texts(p.args@) =~= seq!["--no-pager"@, "log"@, "-n"@, "2000"@, "--format=%an\t%ae"@]);
            Some(p)
        },
        Vcs::Mercurial => {
            let mut args: Vec<String> = Vec::new();
            args.push(owned("log"));
            args.push(owned("-l"));
            args.push(owned("2000"));
            args.push(owned("--template"));
            args.push(owned("{author}\n"));
            let p = Probe { program: owned("hg"), args, dash_c: true };
            assert(texts(p.args@) =~= seq!["log"@, "-l"@, "2000"@, "--template"@, "{author}\n"@]);
            Some(p)
        },
        _ => None,
    }
}

/// Git's tab-separated `name`/`email` author lines, distinct by email, first occurrence first.
pub open spec fn git_authors_spec(ls: Seq<Seq<char>>) -> Seq<(Seq<char>, Seq<char>)>
    decreases ls.len(),
{
    if ls.len() == 0 {
        Seq::empty()
    } else {
        let rest = git_authors_spec(ls.drop_last());
        match split_once_spec(ls.last(), '\t') {
            Some((name, email)) => if exists|k: int| 0 <= k < rest.len() && rest[k].1 == email {
                rest
            } else {
                rest.push((name, email))
            },
            None => rest,
        }
    }
}

/// One Mercurial author line: `Name <email>` split, else the whole line as both.
pub open spec fn hg_author(line: Seq<char>) -> (Seq<char>, Seq<char>) {
    let a = first_index_of(line, '<');
    let b = first_index_of(line, '>');
    if a >= 0 && b >= 0 && b > a {
        (trim_spec(line.subrange(0, a)), line.subrange(a + 1, b))
    } else {
        (line, line)
    }
}

/// Mercurial's author lines, trimmed, blank ones skipped, distinct by email.
pub open spec fn hg_authors_spec(ls: Seq<Seq<char>>) -> Seq<(Seq<char>, Seq<char>)>
    decreases ls.len(),
{
    if ls.len() == 0 {
        Seq::empty()
    } else {
        let rest = hg_authors_spec(ls.drop_last());
        let line = trim_spec(ls.last());
        if line.len() == 0 {
            rest
        } else {
            let (name, email) = hg_author(line);
            if exists|k: int| 0 <= k < rest.len() && rest[k].1 == email {
                rest
            } else {
                rest.push((name, email))
            }
        }
    }
}

/// The distinct historical authors `v` reports, from the output of
/// [`authors_probe`] (`None` when it failed or there is no such command).
pub open spec fn authors_spec(v: Vcs, out: Option<Seq<char>>) -> Seq<(Seq<char>, Seq<char>)> {
    match out {
        Some(o) => match v {
            Vcs::Git => git_authors_spec(lines_spec(o)),
            Vcs::Mercurial => hg_authors_spec(lines_spec(o)),
            _ => Seq::empty(),
        },
        None => Seq::empty(),
    }
}

fn seen_email(res: &Vec<(String, String)>, email: &str) -> (r: bool)
    ensures
        r == exists|k: int| 0 <= k < res@.len() && pair_view(res@[k]).1 == email@,
{
    let mut k: usize = 0;
    while k < res.len()
        invariant
            k <= res@.len(),
            forall|m: int| 0 <= m < k ==> pair_view(#[trigger] res@[m]).1 != email@,
        decreases res@.len() - k,
    {
        if crate::text::same(res[k].1.as_str(), email) {
            return true;
        }
        k = k + 1;
    }
    false
}

fn first_pos(cs: &Vec<char>, c: char) -> (r: Option<usize>)
    ensures
        r matches Some(i) ==> i < cs@.len() && first_index_of(cs@, c) == i,
        r is None ==> first_index_of(cs@, c) == -1,
{
    let mut i: usize = 0;
    while i < cs.len()
        invariant
            i <= cs@.len(),
            forall|j: int| 0 <= j < i ==> cs@[j] != c,
        decreases cs@.len() - i,
    {
        if cs[i] == c {
            proof {
                let k = choose|k: int| 0 <= k < cs@.len() && cs@[k] == c && forall|j: int| 0 <= j < k ==> cs@[j] != c;
                if k < i {
                    assert(cs@[k] != c);
                } else if k > i {
                    assert(cs@[i as int] == c);
                }
            }
            return Some(i);
        }
        i = i + 1;
    }
    None
}

fn hg_author_exec(line: &str) -> (r: (String, String))
    ensures
        pair_view(r) == hg_author(line@),
{
    let cs = chars_of(line);
    match (first_pos(&cs, '<'), first_pos(&cs, '>')) {
        (Some(a), Some(b)) => {
            if b > a {
                let n = crate::text::slice_of(&cs, 0, a);
                let e = crate::text::slice_of(&cs, a + 1, b);
                return (trim(string_of(n.as_slice()).as_str()), string_of(e.as_slice()));
            }
        },
        _ => {},
    }
    (owned(line), owned(line))
}

fn git_authors_of(o: &str) -> (r: Vec<(String, String)>)
    ensures
        r@.map_values(|p: (String, String)| pair_view(p)) == git_authors_spec(lines_spec(o@)),
{
    let mut res: Vec<(String, String)> = Vec::new();
    let ls = lines(o);
    let ghost lv = texts(ls@);
    let mut i: usize = 0;
    while i < ls.len()
        invariant
            i <= ls@.len(),
            lv == texts(ls@),
            lv == lines_spec(o@),
            res@.map_values(|p: (String, String)| pair_view(p)) == git_authors_spec(lv.subrange(0, i as int)),
        decreases ls@.len() - i,
    {
        assert(lv.subrange(0, i + 1).drop_last() =~= lv.subrange(0, i as int));
        assert(lv[i as int] == ls@[i as int]@);
        let ghost rv = res@.map_values(|p: (String, String)| pair_view(p));
        match split_once(ls[i].as_str(), '\t') {
            Some((name, email)) => {
                if !seen_email(&res, email.as_str()) {
                    let pair = (name, email);
                    res.push(pair);
                    assert(res@.map_values(|p: (String, String)| pair_view(p)) =~= rv.push(pair_view(pair)));
                } else {
                    assert(exists|k: int| 0 <= k < rv.len() && rv[k].1 == email@) by {
                        let k = choose|k: int| 0 <= k < res@.len() && pair_view(res@[k]).1 == email@;
                        assert(rv[k] == pair_view(res@[k]));
                    }
                }
            },
            None => {},
        }
        i = i + 1;
    }
    assert(lv.subrange(0, i as int) =~= lv);
    res
}

fn hg_authors_of(o: &str) -> (r: Vec<(String, String)>)
    ensures
        r@.map_values(|p: (String, String)| pair_view(p)) == hg_authors_spec(lines_spec(o@)),
{
    let mut res: Vec<(String, String)> = Vec::new();
    let ls = lines(o);
    let ghost lv = texts(ls@);
    let mut i: usize = 0;
    while i < ls.len()
        invariant
            i <= ls@.len(),
            lv == texts(ls@),
            lv == lines_spec(o@),
            res@.map_values(|p: (String, String)| pair_view(p)) == hg_authors_spec(lv.subrange(0, i as int)),
        decreases ls@.len() - i,
    {
        assert(lv.subrange(0, i + 1).drop_last() =~= lv.subrange(0, i as int));
        assert(lv[i as int] == ls@[i as int]@);
        let ghost rv = res@.map_values(|p: (String, String)| pair_view(p));
        let line = trim(ls[i].as_str());
        if !line.as_str().is_empty() {
            let pair = hg_author_exec(line.as_str());
            if !seen_email(&res, pair.1.as_str()) {
                res.push(pair);
                assert(res@.map_values(|p: (String, String)| pair_view(p)) =~= rv.push(pair_view(pair)));
            } else {
                assert(exists|k: int| 0 <= k < rv.len() && rv[k].1 == pair.1@) by {
                    let k = choose|k: int| 0 <= k < res@.len() && pair_view(res@[k]).1 == pair.1@;
                    assert(rv[k] == pair_view(res@[k]));
                }
            }
        }
        i = i + 1;
    }
    assert(lv.subrange(0, i as int) =~= lv);
    res
}

/// The distinct historical authors as `(name, email)`, most recent first, from
/// the output of [`authors_probe`]. Only git and Mercurial expose them.
pub fn authors(v: Vcs, out: Option<&str>) -> (r: Vec<(String, String)>)
    ensures
        r@.map_values(|p: (String, String)| pair_view(p)) == authors_spec(v, opt_str(out)),
{
    match out {
        Some(o) => match v {
            Vcs::Git => git_authors_of(o),
            Vcs::Mercurial => hg_authors_of(o),
            _ => {
                let res: Vec<(String, String)> = Vec::new();
                assert(res@.map_values(|p: (String, String)| pair_view(p)) =~= Seq::empty());
                res
            },
        },
        None => {
            let res: Vec<(String, String)> = Vec::new();
            assert(res@.map_values(|p: (String, String)| pair_view(p)) =~= Seq::empty());
            res
        },
    }
}

/// A path without Windows' verbatim prefix (two backslashes, `?`, a backslash),
/// which some CLIs reject; a verbatim UNC path keeps its two leading backslashes.
pub open spec fn plain_spec(p: Seq<char>) -> Seq<char> {
    let unc = seq!['\\', '\\', '?', '\\', 'U', 'N', 'C', '\\'];
    let verbatim = seq!['\\', '\\', '?', '\\'];
    if crate::text::has_prefix(p, unc) {
        seq!['\\', '\\'] + p.subrange(unc.len() as int, p.len() as int)
    } else if crate::text::has_prefix(p, verbatim) {
        p.subrange(verbatim.len() as int, p.len() as int)
    } else {
        p
    }
}

/// Strip Windows' verbatim prefix from a path (UNC-aware).
pub fn plain(p: &str) -> (r: String)
    ensures
        r@ == plain_spec(p@),
{
    let unc = "\\\\?\\UNC\\";
    let verbatim = "\\\\?\\";
    proof {
        reveal_strlit("\\\\?\\UNC\\");
        reveal_strlit("\\\\?\\");
        reveal_strlit("\\\\");
        assert(unc@ =~= seq!['\\', '\\', '?', '\\', 'U', 'N', 'C', '\\']);
        assert(verbatim@ =~= seq!['\\', '\\', '?', '\\']);
        assert("\\\\"@ =~= seq!['\\', '\\']);
    }
    if crate::text::starts_with(p, unc) {
        let rest = crate::text::skip_chars(p, 8);
        cat("\\\\", rest.as_str())
    } else if crate::text::starts_with(p, verbatim) {
        crate::text::skip_chars(p, 4)
    } else {
        owned(p)
    }
}

} // verus!
