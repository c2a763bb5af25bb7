//! Git integration: the commands wipe runs and the reading of what they print.
//!
//! wipe shells out to the `git` CLI for the few things the UI needs: the history
//! of the board, a tracked file's contents at a past commit, the commit graph,
//! the tracked blobs (to reference an attachment in place), and atomic commits of
//! `.wipe/`. This module builds those command lines and parses their output; the
//! caller runs them.

use vstd::prelude::*;

use crate::error::Error;
use crate::model::texts;
use crate::parse::{
    lines, lines_spec, split_char, split_once, split_once_spec, split_spec, trimmed_nonblank,
    nonblank_trimmed, words, words_spec,
};
use crate::text::{cat, cat3, chars_of, decimal, decimal_string, is_alnum, is_alnum_exec, owned, string_of, trim, trim_spec, trim_char, trim_matches};

verus! {

/// Field separator in git's formatted output.
pub const FS: char = '\u{1f}';

/// Record separator in git's formatted output.
pub const RS: char = '\u{1e}';

// ---------------------------------------------------------------------------
// Blob hashes
// ---------------------------------------------------------------------------

/// The SHA-1 digest of `data`.
pub uninterp spec fn sha1(data: Seq<u8>) -> Seq<u8>;

/// `sha1::Sha1::digest`: the 20-byte SHA-1 digest of `data`.
#[verifier::external_body]
fn sha1_digest(data: &[u8]) -> (d: Vec<u8>)
    ensures
        d@ == sha1(data@),
        d@.len() == 20,
{
    <sha1::Sha1 as sha1::Digest>::digest(data).to_vec()
}

/// A lowercase hex digit.
pub open spec fn hex_digit(n: u8) -> char {
    if n < 10 {
        (('0' as u8) + n) as char
    } else {
        (('a' as u8) + n - 10) as char
    }
}

/// Lowercase hex of `d`, two digits per byte (`format!("{:x}", ...)` of a digest).
pub open spec fn hex(d: Seq<u8>) -> Seq<char> {
    Seq::new(2 * d.len(), |i: int| if i % 2 == 0 { hex_digit(d[i / 2] / 16) } else { hex_digit(d[i / 2] % 16) })
}

/// The header git hashes before a blob's bytes: `blob <len>\0`.
pub open spec fn blob_header(n: nat) -> Seq<u8> {
    seq![98u8, 108u8, 111u8, 98u8, 32u8] + decimal(n).map_values(|c: char| c as u8) + seq![0u8]
}

/// The git blob hash of `bytes` (what `git hash-object` prints).
pub open spec fn blob_hash_spec(bytes: Seq<u8>) -> Seq<char> {
    hex(sha1(blob_header(bytes.len()) + bytes))
}

fn hex_char(n: u8) -> (c: char)
    requires
        n < 16,
    ensures
        c == hex_digit(n),
{
    let digits: [char; 16] = ['0', '1', '2', '3', '4', '5', '6', '7', '8', '9', 'a', 'b', 'c', 'd', 'e', 'f'];
    let c = digits[n as usize];
    assert(c == hex_digit(n)) by {
        assert(digits@[n as int] == c);
        if n < 10 {
        } else {
        }
    }
    c
}

/// Compute the git blob hash of `bytes` (identical to `git hash-object`).
pub fn blob_hash(bytes: &[u8]) -> (h: String)
    ensures
        h@ == blob_hash_spec(bytes@),
{
    let len = decimal_string(bytes.len() as u64);
    let ds = chars_of(len.as_str());
    let mut data: Vec<u8> = Vec::new();
    data.push(98u8);
    data.push(108u8);
    data.push(111u8);
    data.push(98u8);
    data.push(32u8);
    let mut i: usize = 0;
    while i < ds.len()
        invariant
            ds@ == decimal(bytes@.len() as nat),
            i <= ds@.len(),
            data@ == seq![98u8, 108u8, 111u8, 98u8, 32u8] + ds@.subrange(0, i as int).map_values(|c: char| c as u8),
        decreases ds@.len() - i,
    {
        proof {
            crate::text::lemma_decimal_digits(bytes@.len() as nat);
            assert(crate::text::is_digit(ds@[i as int]));
        }
        let c = ds[i];
        let b: u8 = (c as u32) as u8;
        data.push(b);
        assert(data@ =~= seq![98u8, 108u8, 111u8, 98u8, 32u8] + ds@.subrange(0, i + 1).map_values(|c: char| c as u8));
        i = i + 1;
    }
    data.push(0u8);
    let mut k: usize = 0;
    while k < bytes.len()
        invariant
            k <= bytes@.len(),
            data@ == blob_header(bytes@.len() as nat) + bytes@.subrange(0, k as int),
        decreases bytes@.len() - k,
    {
        data.push(bytes[k]);
        assert(data@ =~= blob_header(bytes@.len() as nat) + bytes@.subrange(0, k + 1));
        k = k + 1;
    }
    proof {
        assert(ds@.subrange(0, ds@.len() as int) =~= ds@);
        assert(bytes@.subrange(0, k as int) =~= bytes@);
    }
    let d = sha1_digest(data.as_slice());
    let mut out: Vec<char> = Vec::new();
    let mut j: usize = 0;
    while j < d.len()
        invariant
            d@.len() == 20,
            j <= d@.len(),
            out@ == hex(d@.subrange(0, j as int)),
        decreases d@.len() - j,
    {
        let b = d[j];
        out.push(hex_char(b / 16));
        out.push(hex_char(b % 16));
        assert(out@ =~= hex(d@.subrange(0, j + 1)));
        j = j + 1;
    }
    assert(d@.subrange(0, j as int) =~= d@);
    string_of(out.as_slice())
}

// ---------------------------------------------------------------------------
// History
// ---------------------------------------------------------------------------

/// A single commit's metadata.
#[derive(Debug)]
pub struct CommitInfo {
    /// Full commit hash.
    pub hash: String,
    /// Abbreviated hash.
    pub short: String,
    /// Author display name.
    pub author_name: String,
    /// Author email.
    pub author_email: String,
    /// Author date, ISO-8601.
    pub date: String,
    /// Commit subject line.
    pub subject: String,
}

/// The value of a [`CommitInfo`].
pub struct CommitInfoV {
    pub hash: Seq<char>,
    pub short: Seq<char>,
    pub author_name: Seq<char>,
    pub author_email: Seq<char>,
    pub date: Seq<char>,
    pub subject: Seq<char>,
}

impl View for CommitInfo {
    type V = CommitInfoV;

    open spec fn view(&self) -> CommitInfoV {
        CommitInfoV {
            hash: self.hash@,
            short: self.short@,
            author_name: self.author_name@,
            author_email: self.author_email@,
            date: self.date@,
            subject: self.subject@,
        }
    }
}

/// The format `git log` is asked for: hash, short hash, author name, email, date
/// and subject, separated by [`FS`], each record ended by [`RS`].
pub open spec fn log_format() -> Seq<char> {
    "--format=%H"@ + seq![FS] + "%h"@ + seq![FS] + "%an"@ + seq![FS] + "%ae"@ + seq![FS] + "%aI"@ + seq![FS] + "%s"@ + seq![RS]
}

/// The arguments of the `git log` that [`log`] reads.
pub open spec fn log_args_spec(pathspec: Option<Seq<char>>, limit: Option<usize>) -> Seq<Seq<char>> {
    seq!["--no-pager"@, "log"@, log_format(), "--no-color"@] + (match limit {
        Some(l) => seq!["-n"@, decimal(l as nat)],
        None => Seq::empty(),
    }) + (match pathspec {
        Some(p) => seq!["--"@, p],
        None => Seq::empty(),
    })
}

fn push_str(v: &mut Vec<String>, s: &str)
    ensures
        texts(final(v)@) == texts(old(v)@).push(s@),
{
    let ghost before = v@;
    v.push(owned(s));
    assert(texts(v@) =~= texts(before).push(s@));
}

fn push_string(v: &mut Vec<String>, s: String)
    ensures
        texts(final(v)@) == texts(old(v)@).push(s@),
{
    let ghost before = v@;
    let ghost sv = s@;
    v.push(s);
    assert(texts(v@) =~= texts(before).push(sv));
}

fn log_format_string() -> (s: String)
    ensures
        s@ == log_format(),
{
    let mut cs: Vec<char> = chars_of("--format=%H");
    cs.push(FS);
    cs.append(&mut chars_of("%h"));
    cs.push(FS);
    cs.append(&mut chars_of("%an"));
    cs.push(FS);
    cs.append(&mut chars_of("%ae"));
    cs.push(FS);
    cs.append(&mut chars_of("%aI"));
    cs.push(FS);
    cs.append(&mut chars_of("%s"));
    cs.push(RS);
    assert(cs@ =~= log_format());
    string_of(cs.as_slice())
}

/// The `git log` arguments for the commit history, most recent first, of the
/// whole repo or of `pathspec`, at most `limit` commits.
pub fn log_args(pathspec: Option<&str>, limit: Option<usize>) -> (r: Vec<String>)
    ensures
        texts(r@) == log_args_spec(
            match pathspec {
                Some(p) => Some(p@),
                None => None,
            },
            limit,
        ),
{
    let mut args: Vec<String> = Vec::new();
    push_str(&mut args, "--no-pager");
    push_str(&mut args, "log");
    push_string(&mut args, log_format_string());
    push_str(&mut args, "--no-color");
    match limit {
        Some(l) => {
            push_str(&mut args, "-n");
            push_string(&mut args, decimal_string(l as u64));
        },
        None => {},
    }
    match pathspec {
        Some(p) => {
            push_str(&mut args, "--");
            push_str(&mut args, p);
        },
        None => {},
    }
    proof {
        let pv: Option<Seq<char>> = match pathspec {
            Some(p) => Some(p@),
            None => None,
        };
        assert(texts(args@) =~= log_args_spec(pv, limit));
    }
    args
}

/// One `git log` record: the fields in order, the subject optional.
pub open spec fn parse_record(r: Seq<char>) -> Option<CommitInfoV> {
    let f = split_spec(r, FS);
    if f.len() >= 5 {
        Some(CommitInfoV {
            hash: f[0],
            short: f[1],
            author_name: f[2],
            author_email: f[3],
            date: f[4],
            subject: if f.len() >= 6 { f[5] } else { Seq::empty() },
        })
    } else {
        None
    }
}

/// The commits in `git log` output: records split on [`RS`], trimmed, blank ones
/// and ones with fewer than five fields skipped.
pub open spec fn parse_log_spec(records: Seq<Seq<char>>) -> Seq<CommitInfoV>
    decreases records.len(),
{
    if records.len() == 0 {
        Seq::empty()
    } else {
        let rest = parse_log_spec(records.drop_last());
        let t = trim_spec(records.last());
        if t.len() == 0 {
            rest
        } else {
            match parse_record(t) {
                Some(c) => rest.push(c),
                None => rest,
            }
        }
    }
}

fn parse_record_exec(t: &str) -> (r: Option<CommitInfo>)
    ensures
        match parse_record(t@) {
            Some(c) => r matches Some(x) && x@ == c,
            None => r is None,
        },
{
    let f = split_char(t, FS);
    if f.len() < 5 {
        return None;
    }
    let subject = if f.len() >= 6 {
        f[5].clone()
    } else {
        String::new()
    };
    let c = CommitInfo {
        hash: f[0].clone(),
        short: f[1].clone(),
        author_name: f[2].clone(),
        author_email: f[3].clone(),
        date: f[4].clone(),
        subject,
    };
    proof {
        assert(texts(f@)[0] == f@[0]@);
        assert(texts(f@)[1] == f@[1]@);
        assert(texts(f@)[2] == f@[2]@);
        assert(texts(f@)[3] == f@[3]@);
        assert(texts(f@)[4] == f@[4]@);
        if f@.len() >= 6 {
            assert(texts(f@)[5] == f@[5]@);
        }
    }
    Some(c)
}

/// Read the commits out of the output of the `git log` that [`log_args`]
/// describes, most recent first.
pub fn log(out: &str) -> (r: Vec<CommitInfo>)
    ensures
        r@.map_values(|c: CommitInfo| c@) == parse_log_spec(split_spec(out@, RS)),
{
    let recs = split_char(out, RS);
    let ghost rv = texts(recs@);
    let mut res: Vec<CommitInfo> = Vec::new();
    let mut i: usize = 0;
    while i < recs.len()
        invariant
            i <= recs@.len(),
            rv == texts(recs@),
            rv == split_spec(out@, RS),
            res@.map_values(|c: CommitInfo| c@) == parse_log_spec(rv.subrange(0, i as int)),
        decreases recs@.len() - i,
    {
        assert(rv.subrange(0, i + 1).drop_last() =~= rv.subrange(0, i as int));
        assert(rv[i as int] == recs@[i as int]@);
        let t = trim(recs[i].as_str());
        if !t.as_str().is_empty() {
            match parse_record_exec(t.as_str()) {
                Some(c) => {
                    let ghost before = res@;
                    res.push(c);
                    assert(res@.map_values(|c: CommitInfo| c@) =~= before.map_values(|c: CommitInfo| c@).push(c@));
                },
                None => {},
            }
        }
        i = i + 1;
    }
    assert(rv.subrange(0, i as int) =~= rv);
    res
}

/// The most recent commit in the output of `git log` for one path limited to one
/// commit (see [`log_args`]), if any.
pub fn last_change(out: &str) -> (r: Option<CommitInfo>)
    ensures
        parse_log_spec(split_spec(out@, RS)).len() == 0 ==> r is None,
        parse_log_spec(split_spec(out@, RS)).len() > 0 ==> (r matches Some(c) && c@ == parse_log_spec(split_spec(out@, RS))[0]),
{
    let mut all = log(out);
    if all.len() == 0 {
        None
    } else {
        assert(all@.map_values(|c: CommitInfo| c@)[0] == all@[0]@);
        Some(all.remove(0))
    }
}

/// Whether the output of `git rev-parse --is-inside-work-tree` (`None` when the
/// command failed) says the directory is inside a work tree.
pub fn is_repo(probe: Option<&str>) -> (r: bool)
    ensures
        r == (probe matches Some(p) && trim_spec(p@) == "true"@),
{
    match probe {
        Some(p) => {
            let t = trim(p);
            crate::text::same(t.as_str(), "true")
        },
        None => false,
    }
}

/// `<rev>:./<relpath>`, backslashes turned into slashes: a path relative to the
/// board's directory rather than the repository root.
pub open spec fn show_spec(rev: Seq<char>, relpath: Seq<char>) -> Seq<char> {
    rev + ":./"@ + relpath.map_values(|c: char| if c == '\\' { '/' } else { c })
}

/// The object name `git show` is given for a file at a revision.
pub fn file_at_commit_spec(rev: &str, relpath: &str) -> (r: String)
    ensures
        r@ == show_spec(rev@, relpath@),
{
    let cs = chars_of(relpath);
    let mut out: Vec<char> = Vec::new();
    let mut i: usize = 0;
    while i < cs.len()
        invariant
            cs@ == relpath@,
            i <= cs@.len(),
            out@ == relpath@.subrange(0, i as int).map_values(|c: char| if c == '\\' { '/' } else { c }),
        decreases cs@.len() - i,
    {
        if cs[i] == '\\' {
            out.push('/');
        } else {
            out.push(cs[i]);
        }
        assert(out@ =~= relpath@.subrange(0, i + 1).map_values(|c: char| if c == '\\' { '/' } else { c }));
        i = i + 1;
    }
    assert(relpath@.subrange(0, i as int) =~= relpath@);
    let p = string_of(out.as_slice());
    cat3(rev, ":./", p.as_str())
}

/// The contents of a file at a revision, from the result of `git show`: a
/// failure of git ([`Error::Message`]) means the path did not exist there.
pub fn file_at_commit(shown: Result<String, Error>) -> (r: Result<Option<String>, Error>)
    ensures
        match shown {
            Ok(s) => r matches Ok(Some(x)) && x@ == s@,
            Err(Error::Message(_)) => r matches Ok(None),
            Err(e) => r matches Err(x) && x == e,
        },
{
    match shown {
        Ok(s) => Ok(Some(s)),
        Err(Error::Message(_)) => Ok(None),
        Err(e) => Err(e),
    }
}

// ---------------------------------------------------------------------------
// Committing
// ---------------------------------------------------------------------------

/// The index of the last `c` in `s`, or `-1`.
pub open spec fn last_index_of(s: Seq<char>, c: char) -> int {
    if exists|i: int| 0 <= i < s.len() && s[i] == c {
        choose|i: int| 0 <= i < s.len() && s[i] == c && forall|j: int| i < j < s.len() ==> s[j] != c
    } else {
        -1
    }
}

/// The index of the first `c` in `s`, or `-1`.
pub open spec fn first_index_of(s: Seq<char>, c: char) -> int {
    if exists|i: int| 0 <= i < s.len() && s[i] == c {
        choose|i: int| 0 <= i < s.len() && s[i] == c && forall|j: int| 0 <= j < i ==> s[j] != c
    } else {
        -1
    }
}

/// The `Name <email>` reading of an identity, when it has a non-empty email.
pub open spec fn bracketed(a: Seq<char>) -> Option<(Seq<char>, Seq<char>)> {
    let open = last_index_of(a, '<');
    if open < 0 {
        None
    } else {
        let close = first_index_of(a.subrange(open, a.len() as int), '>');
        if close < 0 {
            None
        } else {
            let name = trim_spec(a.subrange(0, open));
            let email = trim_spec(a.subrange(open + 1, open + close));
            if email.len() == 0 {
                None
            } else {
                Some((if name.len() == 0 { email } else { name }, email))
            }
        }
    }
}

/// A character kept in a synthetic agent email.
pub open spec fn email_char(c: char) -> char {
    if is_alnum(c) || c == '-' || c == '.' || c == '_' {
        c
    } else {
        '-'
    }
}

/// The git `(name, email)` of an identity: `Name <email>` read as such (the email
/// standing in for a missing name); anything else, such as a bare agent ID, keeps
/// its text as the name with a synthetic `<slug>@wipe.local` address.
pub open spec fn author_ident_spec(a: Seq<char>) -> (Seq<char>, Seq<char>) {
    match bracketed(a) {
        Some(p) => p,
        None => {
            let slug = a.map_values(|c: char| email_char(c));
            let slug2 = if trim_char(slug, '-').len() == 0 { "agent"@ } else { slug };
            (a, slug2 + "@wipe.local"@)
        },
    }
}

fn last_pos(cs: &Vec<char>, c: char) -> (r: Option<usize>)
    ensures
        r matches Some(i) ==> i < cs@.len() && last_index_of(cs@, c) == i && cs@[i as int] == c,
        r is None ==> last_index_of(cs@, c) == -1,
{
    let mut i: usize = cs.len();
    while i > 0
        invariant
            i <= cs@.len(),
            forall|j: int| i <= j < cs@.len() ==> cs@[j] != c,
        decreases i,
    {
        if cs[i - 1] == c {
            proof {
                let k = choose|k: int| 0 <= k < cs@.len() && cs@[k] == c && forall|j: int| k < j < cs@.len() ==> cs@[j] != c;
                if k < i - 1 {
                    assert(cs@[i - 1] == c);
                } else if k > i - 1 {
                    assert(cs@[k] != c);
                }
            }
            return Some(i - 1);
        }
        i = i - 1;
    }
    None
}

fn first_pos_from(cs: &Vec<char>, from: usize, c: char) -> (r: Option<usize>)
    requires
        from <= cs@.len(),
    ensures
        r matches Some(k) ==> k < cs@.len() - from && first_index_of(cs@.subrange(from as int, cs@.len() as int), c) == k
            && cs@[from + k] == c,
        r is None ==> first_index_of(cs@.subrange(from as int, cs@.len() as int), c) == -1,
{
    let ghost t = cs@.subrange(from as int, cs@.len() as int);
    let total = cs.len();
    let n = total - from;
    let mut k: usize = 0;
    while k < n
        invariant
            total == cs@.len(),
            n == total - from,
            n == t.len(),
            from <= cs@.len(),
            t == cs@.subrange(from as int, cs@.len() as int),
            k <= t.len(),
            forall|j: int| 0 <= j < k ==> t[j] != c,
        decreases t.len() - k,
    {
        if cs[from + k] == c {
            proof {
                assert(t[k as int] == c);
                let m = choose|m: int| 0 <= m < t.len() && t[m] == c && forall|j: int| 0 <= j < m ==> t[j] != c;
                if m < k {
                    assert(t[m] != c);
                } else if m > k {
                    assert(t[k as int] == c);
                }
            }
            return Some(k);
        }
        k = k + 1;
    }
    None
}

#[verifier::rlimit(60)]
fn bracketed_exec(author: &str) -> (r: Option<(String, String)>)
    ensures
        match bracketed(author@) {
            Some(p) => r matches Some(x) && x.0@ == p.0 && x.1@ == p.1,
            None => r is None,
        },
{
    let cs = chars_of(author);
    let open = match last_pos(&cs, '<') {
        Some(o) => o,
        None => return None,
    };
    let close = match first_pos_from(&cs, open, '>') {
        Some(c) => c,
        None => return None,
    };
    let ghost a = author@;
    assert(close != 0);
    assert(last_index_of(a, '<') == open as int);
    assert(first_index_of(a.subrange(open as int, a.len() as int), '>') == close as int);
    let name_v = crate::text::slice_of(&cs, 0, open);
    let email_v = crate::text::slice_of(&cs, open + 1, open + close);
    let name = trim(string_of(name_v.as_slice()).as_str());
    let email = trim(string_of(email_v.as_slice()).as_str());
    assert(name@ == trim_spec(a.subrange(0, open as int)));
    assert(email@ == trim_spec(a.subrange(open + 1, open + close)));
    if email.as_str().is_empty() {
        return None;
    }
    let name = if name.as_str().is_empty() {
        email.clone()
    } else {
        name
    };
    Some((name, email))
}

fn agent_email(author: &str) -> (r: String)
    ensures
        r@ == (if trim_char(author@.map_values(|c: char| email_char(c)), '-').len() == 0 {
            "agent"@
        } else {
            author@.map_values(|c: char| email_char(c))
        }) + "@wipe.local"@,
{
    let cs = chars_of(author);
    let mut out: Vec<char> = Vec::new();
    let mut i: usize = 0;
    while i < cs.len()
        invariant
            cs@ == author@,
            i <= cs@.len(),
            out@ == author@.subrange(0, i as int).map_values(|c: char| email_char(c)),
        decreases cs@.len() - i,
    {
        let c = cs[i];
        let k = if is_alnum_exec(c) || c == '-' || c == '.' || c == '_' {
            c
        } else {
            '-'
        };
        out.push(k);
        assert(out@ =~= author@.subrange(0, i + 1).map_values(|c: char| email_char(c)));
        i = i + 1;
    }
    assert(author@.subrange(0, i as int) =~= author@);
    let slug = string_of(out.as_slice());
    let trimmed = trim_matches(slug.as_str(), '-');
    let slug2 = if trimmed.as_str().is_empty() {
        owned("agent")
    } else {
        slug
    };
    cat(slug2.as_str(), "@wipe.local")
}

/// Turn an identity string into a git `(name, email)` pair.
pub fn author_ident(author: &str) -> (r: (String, String))
    ensures
        (r.0@, r.1@) == author_ident_spec(author@),
{
    match bracketed_exec(author) {
        Some(p) => p,
        None => (owned(author), agent_email(author)),
    }
}

/// The git invocations of an atomic commit of some paths: stage them, check
/// whether anything under them changed, and commit only them.
#[derive(Debug)]
pub struct CommitSteps {
    /// `git add -- <paths>`.
    pub add: Vec<String>,
    /// `git status --porcelain -- <paths>`.
    pub status: Vec<String>,
    /// The commit itself, attributed to the author when one is given.
    pub commit: Vec<String>,
}

/// The arguments of the commit itself.
pub open spec fn commit_args_spec(paths: Seq<Seq<char>>, message: Seq<char>, author: Option<Seq<char>>) -> Seq<Seq<char>> {
    (match author {
        Some(a) => {
            let (n, e) = author_ident_spec(a);
            seq!["-c"@, "user.name="@ + n, "-c"@, "user.email="@ + e, "commit"@, "--author="@ + n + " <"@ + e + ">"@]
        },
        None => seq!["commit"@],
    }) + seq!["-m"@, message, "--"@] + paths
}

fn append_all(v: &mut Vec<String>, items: &Vec<String>)
    ensures
        texts(final(v)@) == texts(old(v)@) + texts(items@),
{
    let mut i: usize = 0;
    while i < items.len()
        invariant
            i <= items@.len(),
            texts(v@) == texts(old(v)@) + texts(items@).subrange(0, i as int),
        decreases items@.len() - i,
    {
        push_string(v, items[i].clone());
        assert(texts(old(v)@) + texts(items@).subrange(0, i + 1) =~= (texts(old(v)@) + texts(items@).subrange(0, i as int)).push(items@[i as int]@));
        i = i + 1;
    }
    assert(texts(items@).subrange(0, i as int) =~= texts(items@));
}

/// Plan a commit containing only `pathspecs`, attributed to `author` (as both
/// author and committer) when given. Other staged changes are left out, so
/// `.wipe/` commits stay atomic and isolated.
pub fn commit_paths(pathspecs: &Vec<String>, message: &str, author: Option<&str>) -> (r: CommitSteps)
    ensures
        texts(r.add@) == seq!["add"@, "--"@] + texts(pathspecs@),
        texts(r.status@) == seq!["status"@, "--porcelain"@, "--"@] + texts(pathspecs@),
        texts(r.commit@) == commit_args_spec(texts(pathspecs@), message@, match author {
            Some(a) => Some(a@),
            None => None,
        }),
{
    let mut add: Vec<String> = Vec::new();
    push_str(&mut add, "add");
    push_str(&mut add, "--");
    append_all(&mut add, pathspecs);
    let mut status: Vec<String> = Vec::new();
    push_str(&mut status, "status");
    push_str(&mut status, "--porcelain");
    push_str(&mut status, "--");
    append_all(&mut status, pathspecs);
    let mut commit: Vec<String> = Vec::new();
    match author {
        Some(a) => {
            let (name, email) = author_ident(a);
            push_str(&mut commit, "-c");
            push_string(&mut commit, cat("user.name=", name.as_str()));
            push_str(&mut commit, "-c");
            push_string(&mut commit, cat("user.email=", email.as_str()));
            push_str(&mut commit, "commit");
            let who = cat3("--author=", name.as_str(), " <");
            push_string(&mut commit, cat3(who.as_str(), email.as_str(), ">"));
        },
        None => {
            push_str(&mut commit, "commit");
        },
    }
    push_str(&mut commit, "-m");
    push_str(&mut commit, message);
    push_str(&mut commit, "--");
    append_all(&mut commit, pathspecs);
    proof {
        assert(texts(add@) =~= seq!["add"@, "--"@] + texts(pathspecs@));
        assert(texts(status@) =~= seq!["status"@, "--porcelain"@, "--"@] + texts(pathspecs@));
        let av: Option<Seq<char>> = match author {
            Some(a) => Some(a@),
            None => None,
        };
        assert(texts(commit@) =~= commit_args_spec(texts(pathspecs@), message@, av));
    }
    CommitSteps { add, status, commit }
}

/// Whether `git status --porcelain` output reports any change.
pub fn has_changes(status_out: &str) -> (r: bool)
    ensures
        r == (trim_spec(status_out@).len() > 0),
{
    let t = trim(status_out);
    !t.as_str().is_empty()
}

/// The short hash printed by `git rev-parse --short HEAD`.
pub fn head_hash(out: &str) -> (r: String)
    ensures
        r@ == trim_spec(out@),
{
    trim(out)
}

/// The step of an atomic commit that has just finished, with git's output
/// where the next decision reads it.
#[derive(Debug)]
pub enum CommitEvent {
    /// Nothing has run yet.
    Started,
    /// `git add` finished.
    Added,
    /// `git status --porcelain` finished with this output.
    Checked(String),
    /// `git commit` finished.
    Committed,
    /// `git rev-parse --short HEAD` finished with this output.
    Headed(String),
}

/// Which git invocation of an atomic commit is being run.
#[derive(Debug, Clone, Copy, PartialEq, Eq, Structural)]
pub enum CommitStage {
    /// `git add`; report [`CommitEvent::Added`].
    Add,
    /// `git status --porcelain`; report [`CommitEvent::Checked`] with its output.
    Status,
    /// `git commit`; report [`CommitEvent::Committed`].
    Commit,
    /// `git rev-parse --short HEAD`; report [`CommitEvent::Headed`] with its output.
    Head,
}

/// What an atomic commit does next.
#[derive(Debug)]
pub enum CommitAction {
    /// Run git with these arguments as this stage, then report how it went.
    Run(Vec<String>, CommitStage),
    /// The commit is over: the new commit's short hash, or `None` when nothing
    /// under the paths had changed.
    Finish(Option<String>),
}

/// The arguments that print the short hash of `HEAD`.
pub open spec fn head_args_spec() -> Seq<Seq<char>> {
    seq!["rev-parse"@, "--short"@, "HEAD"@]
}

/// The next step of the commit planned by [`commit_paths`]: stage the paths,
/// check whether anything under them changed (finishing with `None` when not),
/// commit them, and report the new commit's short hash.
pub fn commit_next(steps: &CommitSteps, event: CommitEvent) -> (r: CommitAction)
    ensures
        match event {
            CommitEvent::Started => r matches CommitAction::Run(a, CommitStage::Add) && a@ == steps.add@,
            CommitEvent::Added => r matches CommitAction::Run(a, CommitStage::Status) && a@ == steps.status@,
            CommitEvent::Checked(o) => if trim_spec(o@).len() == 0 {
                r matches CommitAction::Finish(None)
            } else {
                r matches CommitAction::Run(a, CommitStage::Commit) && a@ == steps.commit@
            },
            CommitEvent::Committed => r matches CommitAction::Run(a, CommitStage::Head) && texts(a@) == head_args_spec(),
            CommitEvent::Headed(o) => r matches CommitAction::Finish(Some(h)) && h@ == trim_spec(o@),
        },
{
    match event {
        CommitEvent::Started => CommitAction::Run(crate::model::clone_strings(&steps.add), CommitStage::Add),
        CommitEvent::Added => CommitAction::Run(crate::model::clone_strings(&steps.status), CommitStage::Status),
        CommitEvent::Checked(o) => {
            if has_changes(o.as_str()) {
                CommitAction::Run(crate::model::clone_strings(&steps.commit), CommitStage::Commit)
            } else {
                CommitAction::Finish(None)
            }
        },
        CommitEvent::Committed => {
            let mut a: Vec<String> = Vec::new();
            push_str(&mut a, "rev-parse");
            push_str(&mut a, "--short");
            push_str(&mut a, "HEAD");
            assert(texts(a@) =~= head_args_spec());
            CommitAction::Run(a, CommitStage::Head)
        },
        CommitEvent::Headed(o) => CommitAction::Finish(Some(head_hash(o.as_str()))),
    }
}

// ---------------------------------------------------------------------------
// Tracked files and authors
// ---------------------------------------------------------------------------

/// One `git ls-files -s` line (`<mode> <hash> <stage>\t<path>`) as `(hash, path)`.
pub open spec fn blob_line(l: Seq<char>) -> Option<(Seq<char>, Seq<char>)> {
    match split_once_spec(l, '\t') {
        Some((meta, path)) => {
            let cols = words_spec(meta);
            if cols.len() >= 2 {
                Some((cols[1], path))
            } else {
                None
            }
        },
        None => None,
    }
}

/// The `(hash, path)` of every readable line.
pub open spec fn blobs_spec(ls: Seq<Seq<char>>) -> Seq<(Seq<char>, Seq<char>)>
    decreases ls.len(),
{
    if ls.len() == 0 {
        Seq::empty()
    } else {
        let rest = blobs_spec(ls.drop_last());
        match blob_line(ls.last()) {
            Some(p) => rest.push(p),
            None => rest,
        }
    }
}

/// The value of a pair of strings.
pub open spec fn pair_view(p: (String, String)) -> (Seq<char>, Seq<char>) {
    (p.0@, p.1@)
}

/// All tracked files as `(blob_hash, repo-relative path)`, from `git ls-files -s`.
pub fn tracked_blobs(out: &str) -> (r: Vec<(String, String)>)
    ensures
        r@.map_values(|p: (String, String)| pair_view(p)) == blobs_spec(lines_spec(out@)),
{
    let ls = lines(out);
    let ghost lv = texts(ls@);
    let mut res: Vec<(String, String)> = Vec::new();
    let mut i: usize = 0;
    while i < ls.len()
        invariant
            i <= ls@.len(),
            lv == texts(ls@),
            lv == lines_spec(out@),
            res@.map_values(|p: (String, String)| pair_view(p)) == blobs_spec(lv.subrange(0, i as int)),
        decreases ls@.len() - i,
    {
        assert(lv.subrange(0, i + 1).drop_last() =~= lv.subrange(0, i as int));
        assert(lv[i as int] == ls@[i as int]@);
        match split_once(ls[i].as_str(), '\t') {
            Some((meta, path)) => {
                let cols = words(meta.as_str());
                if cols.len() >= 2 {
                    assert(texts(cols@)[1] == cols@[1]@);
                    let ghost before = res@;
                    let pair = (cols[1].clone(), path);
                    res.push(pair);
                    assert(res@.map_values(|p: (String, String)| pair_view(p)) =~= before.map_values(|p: (String, String)| pair_view(p)).push(pair_view(pair)));
                }
            },
            None => {},
        }
        i = i + 1;
    }
    assert(lv.subrange(0, i as int) =~= lv);
    res
}

/// The distinct authors of `git log --format=%an<FS>%ae` lines, by email, first
/// occurrence (most recent) first.
pub open spec fn authors_spec(ls: Seq<Seq<char>>) -> Seq<(Seq<char>, Seq<char>)>
    decreases ls.len(),
{
    if ls.len() == 0 {
        Seq::empty()
    } else {
        let rest = authors_spec(ls.drop_last());
        match split_once_spec(ls.last(), FS) {
            Some((name, email)) => if exists|k: int| 0 <= k < rest.len() && rest[k].1 == email {
                rest
            } else {
                rest.push((name, email))
            },
            None => rest,
        }
    }
}

/// The arguments of the `git log` whose output [`authors`] reads.
pub open spec fn authors_args_spec() -> Seq<Seq<char>> {
    seq!["--no-pager"@, "log"@, "--format=%an"@ + seq![FS] + "%ae"@]
}

/// The `git log` arguments listing every commit's author.
pub fn authors_args() -> (r: Vec<String>)
    ensures
        texts(r@) == authors_args_spec(),
{
    let mut args: Vec<String> = Vec::new();
    push_str(&mut args, "--no-pager");
    push_str(&mut args, "log");
    let mut cs = chars_of("--format=%an");
    cs.push(FS);
    cs.append(&mut chars_of("%ae"));
    assert(cs@ =~= "--format=%an"@ + seq![FS] + "%ae"@);
    push_string(&mut args, string_of(cs.as_slice()));
    assert(texts(args@) =~= authors_args_spec());
    args
}

/// Distinct commit authors as `(name, email)`, most recent first.
pub fn authors(out: &str) -> (r: Vec<(String, String)>)
    ensures
        r@.map_values(|p: (String, String)| pair_view(p)) == authors_spec(lines_spec(out@)),
{
    let ls = lines(out);
    let ghost lv = texts(ls@);
    let mut res: Vec<(String, String)> = Vec::new();
    let mut i: usize = 0;
    while i < ls.len()
        invariant
            i <= ls@.len(),
            lv == texts(ls@),
            lv == lines_spec(out@),
            res@.map_values(|p: (String, String)| pair_view(p)) == authors_spec(lv.subrange(0, i as int)),
        decreases ls@.len() - i,
    {
        assert(lv.subrange(0, i + 1).drop_last() =~= lv.subrange(0, i as int));
        assert(lv[i as int] == ls@[i as int]@);
        let ghost rv = res@.map_values(|p: (String, String)| pair_view(p));
        match split_once(ls[i].as_str(), FS) {
            Some((name, email)) => {
                let mut seen = false;
                let mut k: usize = 0;
                while k < res.len()
                    invariant
                        k <= res@.len(),
                        rv == res@.map_values(|p: (String, String)| pair_view(p)),
                        seen == exists|m: int| 0 <= m < k && rv[m].1 == email@,
                    decreases res@.len() - k,
                {
                    assert(rv[k as int] == pair_view(res@[k as int]));
                    if crate::text::same(res[k].1.as_str(), email.as_str()) {
                        seen = true;
                    }
                    k = k + 1;
                }
                if !seen {
                    let pair = (name, email);
                    res.push(pair);
                    assert(res@.map_values(|p: (String, String)| pair_view(p)) =~= rv.push(pair_view(pair)));
                }
            },
            None => {},
        }
        i = i + 1;
    }
    assert(lv.subrange(0, i as int) =~= lv);
    res
}

/// A `git config` value: the command's trimmed output when it succeeded and is
/// not blank.
pub open spec fn config_value(o: Option<Seq<char>>) -> Option<Seq<char>> {
    match o {
        Some(s) => if trim_spec(s).len() == 0 { None } else { Some(trim_spec(s)) },
        None => None,
    }
}

/// The configured git identity: `Name <email>`, or whichever of the two is set.
/// `name` and `email` are the outputs of `git config user.name` / `user.email`
/// (`None` when the command failed).
pub fn config_identity(name: Option<&str>, email: Option<&str>) -> (r: Option<String>)
    ensures
        opt_view(r) == (match (config_value(opt_str(name)), config_value(opt_str(email))) {
            (Some(n), Some(e)) => Some(n + " <"@ + e + ">"@),
            (Some(n), None) => Some(n),
            (None, Some(e)) => Some(e),
            (None, None) => None,
        }),
{
    let n = match name {
        Some(s) => {
            let t = trim(s);
            if t.as_str().is_empty() {
                None
            } else {
                Some(t)
            }
        },
        None => None,
    };
    let e = match email {
        Some(s) => {
            let t = trim(s);
            if t.as_str().is_empty() {
                None
            } else {
                Some(t)
            }
        },
        None => None,
    };
    match (n, e) {
        (Some(n), Some(e)) => {
            let h = cat3(n.as_str(), " <", e.as_str());
            Some(cat(h.as_str(), ">"))
        },
        (Some(n), None) => Some(n),
        (None, Some(e)) => Some(e),
        (None, None) => None,
    }
}

/// The view of an optional string slice.
pub open spec fn opt_str(o: Option<&str>) -> Option<Seq<char>> {
    match o {
        Some(s) => Some(s@),
        None => None,
    }
}

/// The view of an optional string.
pub open spec fn opt_view(o: Option<String>) -> Option<Seq<char>> {
    match o {
        Some(s) => Some(s@),
        None => None,
    }
}

// ---------------------------------------------------------------------------
// The commit graph
// ---------------------------------------------------------------------------

/// A commit in the repository graph, with parent links and ref decorations.
#[derive(Debug)]
pub struct GraphCommit {
    /// Full commit hash.
    pub hash: String,
    /// Abbreviated hash.
    pub short: String,
    /// Parent commit hashes (two or more for a merge).
    pub parents: Vec<String>,
    /// Ref decorations pointing at this commit (branches, tags, HEAD).
    pub refs: Vec<String>,
    /// Author display name.
    pub author_name: String,
    /// Author date, ISO-8601.
    pub date: String,
    /// Commit subject.
    pub subject: String,
    /// Whether this commit changed the board (`.wipe/`).
    pub board: bool,
}

/// The value of a [`GraphCommit`].
pub struct GraphCommitV {
    pub hash: Seq<char>,
    pub short: Seq<char>,
    pub parents: Seq<Seq<char>>,
    pub refs: Seq<Seq<char>>,
    pub author_name: Seq<char>,
    pub date: Seq<char>,
    pub subject: Seq<char>,
    pub board: bool,
}

impl View for GraphCommit {
    type V = GraphCommitV;

    open spec fn view(&self) -> GraphCommitV {
        GraphCommitV {
            hash: self.hash@,
            short: self.short@,
            parents: texts(self.parents@),
            refs: texts(self.refs@),
            author_name: self.author_name@,
            date: self.date@,
            subject: self.subject@,
            board: self.board,
        }
    }
}

/// The format of the graph's `git log`: hash, short hash, parents, decorations,
/// author, date and subject.
pub open spec fn graph_format() -> Seq<char> {
    "--format=%H"@ + seq![FS] + "%h"@ + seq![FS] + "%P"@ + seq![FS] + "%D"@ + seq![FS] + "%an"@ + seq![FS] + "%aI"@
        + seq![FS] + "%s"@ + seq![RS]
}

/// The arguments of the graph's `git log`.
pub open spec fn graph_args_spec(limit: Option<usize>) -> Seq<Seq<char>> {
    seq!["--no-pager"@, "log"@, "--all"@, "--date-order"@, graph_format(), "--no-color"@] + (match limit {
        Some(l) => seq!["-n"@, decimal(l as nat)],
        None => Seq::empty(),
    })
}

/// The `git log` arguments for the graph across all branches, most recent first.
pub fn graph_args(limit: Option<usize>) -> (r: Vec<String>)
    ensures
        texts(r@) == graph_args_spec(limit),
{
    let mut cs: Vec<char> = chars_of("--format=%H");
    cs.push(FS);
    cs.append(&mut chars_of("%h"));
    cs.push(FS);
    cs.append(&mut chars_of("%P"));
    cs.push(FS);
    cs.append(&mut chars_of("%D"));
    cs.push(FS);
    cs.append(&mut chars_of("%an"));
    cs.push(FS);
    cs.append(&mut chars_of("%aI"));
    cs.push(FS);
    cs.append(&mut chars_of("%s"));
    cs.push(RS);
    assert(cs@ =~= graph_format());
    let mut args: Vec<String> = Vec::new();
    push_str(&mut args, "--no-pager");
    push_str(&mut args, "log");
    push_str(&mut args, "--all");
    push_str(&mut args, "--date-order");
    push_string(&mut args, string_of(cs.as_slice()));
    push_str(&mut args, "--no-color");
    match limit {
        Some(l) => {
            push_str(&mut args, "-n");
            push_string(&mut args, decimal_string(l as u64));
        },
        None => {},
    }
    assert(texts(args@) =~= graph_args_spec(limit));
    args
}

/// The arguments of the `git log` listing the commits that touched the board.
pub open spec fn board_commits_args_spec() -> Seq<Seq<char>> {
    seq!["--no-pager"@, "log"@, "--all"@, "--format=%H"@, "--"@, ".wipe"@]
}

/// The `git log` arguments listing the commits that touched `.wipe/`.
pub fn board_commits_args() -> (r: Vec<String>)
    ensures
        texts(r@) == board_commits_args_spec(),
{
    let mut args: Vec<String> = Vec::new();
    push_str(&mut args, "--no-pager");
    push_str(&mut args, "log");
    push_str(&mut args, "--all");
    push_str(&mut args, "--format=%H");
    push_str(&mut args, "--");
    push_str(&mut args, ".wipe");
    assert(texts(args@) =~= board_commits_args_spec());
    args
}

/// Field `i` of a record, or the empty text when it is missing.
pub open spec fn field_or_empty(f: Seq<Seq<char>>, i: int) -> Seq<char> {
    if i < f.len() { f[i] } else { Seq::empty() }
}

/// One graph record; `board` is the set of commits that touched the board.
pub open spec fn graph_record(r: Seq<char>, board: Seq<Seq<char>>) -> Option<GraphCommitV> {
    let f = split_spec(r, FS);
    if f.len() >= 3 {
        Some(GraphCommitV {
            hash: f[0],
            short: f[1],
            parents: words_spec(f[2]),
            refs: nonblank_trimmed(split_spec(field_or_empty(f, 3), ',')),
            author_name: field_or_empty(f, 4),
            date: field_or_empty(f, 5),
            subject: field_or_empty(f, 6),
            board: board.contains(f[0]),
        })
    } else {
        None
    }
}

/// The commits of a graph `git log` output.
pub open spec fn graph_spec(records: Seq<Seq<char>>, board: Seq<Seq<char>>) -> Seq<GraphCommitV>
    decreases records.len(),
{
    if records.len() == 0 {
        Seq::empty()
    } else {
        let rest = graph_spec(records.drop_last(), board);
        let t = trim_spec(records.last());
        if t.len() == 0 {
            rest
        } else {
            match graph_record(t, board) {
                Some(c) => rest.push(c),
                None => rest,
            }
        }
    }
}

/// The trimmed lines of `s`.
pub open spec fn trimmed_lines(s: Seq<char>) -> Seq<Seq<char>> {
    lines_spec(s).map_values(|l: Seq<char>| trim_spec(l))
}

fn field_or_empty_exec(f: &Vec<String>, i: usize) -> (r: String)
    ensures
        r@ == field_or_empty(texts(f@), i as int),
{
    if i < f.len() {
        assert(texts(f@)[i as int] == f@[i as int]@);
        f[i].clone()
    } else {
        String::new()
    }
}

fn graph_record_exec(t: &str, board: &Vec<String>) -> (r: Option<GraphCommit>)
    ensures
        match graph_record(t@, texts(board@)) {
            Some(c) => r matches Some(x) && x@ == c,
            None => r is None,
        },
{
    let f = split_char(t, FS);
    if f.len() < 3 {
        return None;
    }
    assert(texts(f@)[0] == f@[0]@);
    assert(texts(f@)[1] == f@[1]@);
    assert(texts(f@)[2] == f@[2]@);
    let parents = words(f[2].as_str());
    let refs_field = field_or_empty_exec(&f, 3);
    let refs = trimmed_nonblank(&split_char(refs_field.as_str(), ','));
    let on_board = crate::ops::contains_text(board, f[0].as_str());
    Some(GraphCommit {
        hash: f[0].clone(),
        short: f[1].clone(),
        parents,
        refs,
        author_name: field_or_empty_exec(&f, 4),
        date: field_or_empty_exec(&f, 5),
        subject: field_or_empty_exec(&f, 6),
        board: on_board,
    })
}

/// The commit graph across all branches (most recent first), from the output of
/// the graph's `git log` (see [`graph_args`]) and that of the board-commits
/// `git log` (see [`board_commits_args`]; empty when it failed), each commit
/// flagged when it touched the board.
pub fn graph(board_out: &str, log_out: &str) -> (r: Vec<GraphCommit>)
    ensures
        r@.map_values(|c: GraphCommit| c@) == graph_spec(split_spec(log_out@, RS), trimmed_lines(board_out@)),
{
    let bl = lines(board_out);
    let mut board: Vec<String> = Vec::new();
    let mut j: usize = 0;
    while j < bl.len()
        invariant
            j <= bl@.len(),
            texts(bl@) == lines_spec(board_out@),
            texts(board@) == trimmed_lines(board_out@).subrange(0, j as int),
        decreases bl@.len() - j,
    {
        assert(texts(bl@)[j as int] == bl@[j as int]@);
        push_string(&mut board, trim(bl[j].as_str()));
        assert(texts(board@) =~= trimmed_lines(board_out@).subrange(0, j + 1));
        j = j + 1;
    }
    assert(trimmed_lines(board_out@).subrange(0, j as int) =~= trimmed_lines(board_out@));
    let recs = split_char(log_out, RS);
    let ghost rv = texts(recs@);
    let ghost bv = texts(board@);
    let mut res: Vec<GraphCommit> = Vec::new();
    let mut i: usize = 0;
    while i < recs.len()
        invariant
            i <= recs@.len(),
            rv == texts(recs@),
            rv == split_spec(log_out@, RS),
            bv == texts(board@),
            bv == trimmed_lines(board_out@),
            res@.map_values(|c: GraphCommit| c@) == graph_spec(rv.subrange(0, i as int), bv),
        decreases recs@.len() - i,
    {
        assert(rv.subrange(0, i + 1).drop_last() =~= rv.subrange(0, i as int));
        assert(rv[i as int] == recs@[i as int]@);
        let t = trim(recs[i].as_str());
        if !t.as_str().is_empty() {
            match graph_record_exec(t.as_str(), &board) {
                Some(c) => {
                    let ghost before = res@;
                    res.push(c);
                    assert(res@.map_values(|c: GraphCommit| c@) =~= before.map_values(|c: GraphCommit| c@).push(c@));
                },
                None => {},
            }
        }
        i = i + 1;
    }
    assert(rv.subrange(0, i as int) =~= rv);
    res
}

} // verus!
