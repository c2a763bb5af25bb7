//! The machine-wide registry of known wipe projects.
//!
//! The daemon records every board it serves here so the UI can list and switch
//! between them, and a scan of the disk registers boards that were never served.
//! The registry itself is a sorted list of project roots; which roots still hold
//! a board, and what each board is called, is read from disk by the caller.

use vstd::prelude::*;

use crate::model::texts;
use crate::order::{lemma_lt_asymmetric, lemma_lt_transitive, seq_lt, str_lt};
use crate::text::{owned, same};

verus! {

broadcast use vstd::seq_lib::group_to_multiset_ensures;

/// One registered project.
#[derive(Debug)]
pub struct ProjectEntry {
    /// Absolute path to the project root (the parent of `.wipe`).
    pub path: String,
    /// Board name, resolved when listed (empty when the board cannot be read).
    pub name: String,
}

/// How many directories one scan root may visit.
pub const SCAN_BUDGET: usize = 40_000;

/// No element is below an earlier one.
pub open spec fn sorted_strs(s: Seq<Seq<char>>) -> bool {
    forall|i: int, j: int| 0 <= i < j < s.len() ==> !seq_lt(#[trigger] s[j], #[trigger] s[i])
}

/// `items` sorted (the order of `str`), keeping every element.
pub fn sort_strings(items: Vec<String>) -> (r: Vec<String>)
    ensures
        sorted_strs(texts(r@)),
        texts(r@).to_multiset() == texts(items@).to_multiset(),
{
    let ghost all = texts(items@);
    let mut out: Vec<String> = Vec::new();
    let mut i: usize = 0;
    while i < items.len()
        invariant
            i <= items@.len(),
            all == texts(items@),
            sorted_strs(texts(out@)),
            texts(out@).to_multiset() == all.subrange(0, i as int).to_multiset(),
        decreases items@.len() - i,
    {
        let x = items[i].clone();
        let ghost o = texts(out@);
        let mut p: usize = 0;
        while p < out.len() && !str_lt(x.as_str(), out[p].as_str())
            invariant
                p <= out@.len(),
                o == texts(out@),
                forall|a: int| 0 <= a < p ==> !seq_lt(x@, #[trigger] o[a]),
            decreases out@.len() - p,
        {
            p = p + 1;
        }
        let ghost xv = x@;
        out.insert(p, x);
        proof {
            let n = texts(out@);
            assert(n =~= o.insert(p as int, xv));
            assert(all.subrange(0, i + 1) =~= all.subrange(0, i as int).push(xv));
            vstd::seq_lib::to_multiset_insert(o, p as int, xv);
            vstd::seq_lib::to_multiset_build(all.subrange(0, i as int), xv);
            assert forall|a: int, b: int| 0 <= a < b < n.len() implies !seq_lt(#[trigger] n[b], #[trigger] n[a]) by {
                if a < p && b < p {
                    assert(n[a] == o[a] && n[b] == o[b]);
                } else if a < p && b == p {
                    assert(n[a] == o[a]);
                } else if a < p && b > p {
                    assert(n[a] == o[a] && n[b] == o[b - 1]);
                } else if a == p {
                    assert(n[b] == o[b - 1]);
                    assert(seq_lt(xv, o[p as int]));
                    if seq_lt(o[b - 1], xv) {
                        if b - 1 == p {
                            lemma_lt_asymmetric(xv, o[p as int]);
                        } else {
                            lemma_lt_transitive(o[b - 1], xv, o[p as int]);
                        }
                    }
                } else {
                    assert(n[a] == o[a - 1] && n[b] == o[b - 1]);
                }
            }
        }
        i = i + 1;
    }
    assert(all.subrange(0, i as int) =~= all);
    out
}

/// Record the project root `key` (idempotent). Returns whether it was newly
/// added; the roots stay sorted.
pub fn register(projects: &mut Vec<String>, key: &str) -> (added: bool)
    ensures
        texts(old(projects)@).contains(key@) ==> !added && final(projects)@ == old(projects)@,
        !texts(old(projects)@).contains(key@) ==> added && sorted_strs(texts(final(projects)@))
            && texts(final(projects)@).to_multiset() == texts(old(projects)@).to_multiset().insert(key@),
{
    if crate::inbox::has_ref(projects, key) {
        return false;
    }
    let mut all = crate::model::clone_strings(projects);
    let ghost before = texts(all@);
    all.push(owned(key));
    assert(texts(all@) =~= before.push(key@));
    *projects = sort_strings(all);
    true
}

/// The roots of `projects` whose board is still there (`alive[i]` for the
/// `i`-th root), in order.
pub open spec fn alive_roots(projects: Seq<Seq<char>>, alive: Seq<bool>) -> Seq<Seq<char>>
    decreases projects.len(),
{
    if projects.len() == 0 {
        Seq::empty()
    } else {
        let rest = alive_roots(projects.drop_last(), alive);
        if alive[projects.len() - 1] {
            rest.push(projects.last())
        } else {
            rest
        }
    }
}

/// Drop the roots whose board no longer exists. Returns whether any went.
pub fn prune(projects: &mut Vec<String>, alive: &Vec<bool>) -> (changed: bool)
    requires
        alive@.len() == old(projects)@.len(),
    ensures
        texts(final(projects)@) == alive_roots(texts(old(projects)@), alive@),
        changed == (final(projects)@.len() != old(projects)@.len()),
{
    let ghost all = texts(projects@);
    let mut kept: Vec<String> = Vec::new();
    let mut i: usize = 0;
    while i < projects.len()
        invariant
            i <= projects@.len(),
            alive@.len() == projects@.len(),
            all == texts(projects@),
            texts(kept@) == alive_roots(all.subrange(0, i as int), alive@),
        decreases projects@.len() - i,
    {
        let ghost pre = all.subrange(0, i + 1);
        assert(pre.drop_last() =~= all.subrange(0, i as int));
        if alive[i] {
            let ghost before = texts(kept@);
            kept.push(projects[i].clone());
            assert(texts(kept@) =~= before.push(all[i as int]));
        }
        i = i + 1;
    }
    assert(all.subrange(0, i as int) =~= all);
    let n = projects.len();
    *projects = kept;
    projects.len() != n
}

/// The entries for the roots that still hold a board: `names[i]` is the board
/// name of the `i`-th root (`None` when it holds no board), in order.
pub open spec fn listed(projects: Seq<Seq<char>>, names: Seq<Option<Seq<char>>>) -> Seq<(Seq<char>, Seq<char>)>
    decreases projects.len(),
{
    if projects.len() == 0 {
        Seq::empty()
    } else {
        let rest = listed(projects.drop_last(), names);
        match names[projects.len() - 1] {
            Some(n) => rest.push((projects.last(), n)),
            None => rest,
        }
    }
}

/// List the registered projects that still have a board, with its name.
pub fn list(projects: &Vec<String>, names: &Vec<Option<String>>) -> (r: Vec<ProjectEntry>)
    requires
        names@.len() == projects@.len(),
    ensures
        r@.map_values(|e: ProjectEntry| (e.path@, e.name@)) == listed(
            texts(projects@),
            names@.map_values(|o: Option<String>| crate::model::opt_text(o)),
        ),
{
    let ghost all = texts(projects@);
    let ghost nv = names@.map_values(|o: Option<String>| crate::model::opt_text(o));
    let mut out: Vec<ProjectEntry> = Vec::new();
    let mut i: usize = 0;
    while i < projects.len()
        invariant
            i <= projects@.len(),
            names@.len() == projects@.len(),
            all == texts(projects@),
            nv == names@.map_values(|o: Option<String>| crate::model::opt_text(o)),
            out@.map_values(|e: ProjectEntry| (e.path@, e.name@)) == listed(all.subrange(0, i as int), nv),
        decreases projects@.len() - i,
    {
        let ghost pre = all.subrange(0, i + 1);
        assert(pre.drop_last() =~= all.subrange(0, i as int));
        assert(nv[i as int] == crate::model::opt_text(names@[i as int]));
        match &names[i] {
            Some(n) => {
                let ghost before = out@.map_values(|e: ProjectEntry| (e.path@, e.name@));
                let e = ProjectEntry { path: projects[i].clone(), name: n.clone() };
                out.push(e);
                assert(out@.map_values(|e: ProjectEntry| (e.path@, e.name@)) =~= before.push((all[i as int], n@)));
            },
            None => {},
        }
        i = i + 1;
    }
    assert(all.subrange(0, i as int) =~= all);
    out
}

/// Generated or tool directories that a scan never enters.
pub open spec fn heavy_dir(name: Seq<char>) -> bool {
    name == "node_modules"@ || name == "target"@ || name == ".git"@ || name == ".hg"@ || name == ".svn"@
        || name == ".plastic"@ || name == ".jj"@ || name == ".cache"@ || name == "dist"@ || name == "build"@
        || name == "out"@ || name == ".svelte-kit"@ || name == ".next"@ || name == ".venv"@ || name == "venv"@
        || name == "vendor"@ || name == ".gradle"@ || name == ".idea"@ || name == ".vs"@ || name == "Library"@
        || name == "Temp"@
}

/// Whether a scan skips the directory `name`: dot-directories (but `.`) and the
/// heavy generated ones.
pub open spec fn skipped(name: Seq<char>) -> bool {
    (name.len() > 0 && name[0] == '.' && name != "."@) || heavy_dir(name)
}

/// Whether a scan skips the directory `name` (see [`skipped`]).
pub fn skips_dir(name: &str) -> (r: bool)
    ensures
        r == skipped(name@),
{
    let cs = crate::text::chars_of(name);
    let dotted = cs.len() > 0 && cs[0] == '.';
    if dotted && !same(name, ".") {
        return true;
    }
    same(name, "node_modules") || same(name, "target") || same(name, ".git") || same(name, ".hg")
        || same(name, ".svn") || same(name, ".plastic") || same(name, ".jj") || same(name, ".cache")
        || same(name, "dist") || same(name, "build") || same(name, "out") || same(name, ".svelte-kit")
        || same(name, ".next") || same(name, ".venv") || same(name, "venv") || same(name, "vendor")
        || same(name, ".gradle") || same(name, ".idea") || same(name, ".vs") || same(name, "Library")
        || same(name, "Temp")
}

/// What a scan does at a directory it has paid to visit.
#[derive(Debug, Clone, Copy, PartialEq, Eq, Structural)]
pub enum ScanStep {
    /// It holds a board: register it, and look no deeper (boards hold no boards).
    Register,
    /// The depth limit is reached: look no deeper.
    Stop,
    /// Visit each subdirectory that [`skips_dir`] lets through, with this many
    /// levels left.
    Descend(usize),
}

/// The visit budget after one more directory, or `None` when it is spent (the
/// directory is then not visited).
pub fn spend(budget: usize) -> (r: Option<usize>)
    ensures
        budget == 0 ==> r is None,
        budget > 0 ==> r == Some((budget - 1) as usize),
{
    if budget == 0 {
        None
    } else {
        Some(budget - 1)
    }
}

/// The step at a visited directory with `depth_left` levels to go, given whether
/// it holds a `.wipe` board.
pub fn scan_step(depth_left: usize, is_board: bool) -> (r: ScanStep)
    ensures
        is_board ==> r == ScanStep::Register,
        !is_board && depth_left == 0 ==> r == ScanStep::Stop,
        !is_board && depth_left > 0 ==> r == ScanStep::Descend((depth_left - 1) as usize),
{
    if is_board {
        ScanStep::Register
    } else if depth_left == 0 {
        ScanStep::Stop
    } else {
        ScanStep::Descend(depth_left - 1)
    }
}

} // verus!
