//! Small decisions behind the command line: where "close" moves a ticket, and
//! the MIME type an attachment is sent with.

use vstd::prelude::*;

use crate::model::{texts, Ticket, TicketV, find_list, first_list_index, lemma_first_list_index, lemma_no_list_index, views, Board, BoardV};
use crate::text::{chars_of, lower, lower_seq, owned, same, string_of};

verus! {

/// The list "close" moves a ticket to: `done` if the board has it, else the
/// last list, else none.
pub open spec fn done_list_of(b: BoardV) -> Option<Seq<char>> {
    match first_list_index(b.lists, "done"@) {
        Some(_) => Some("done"@),
        None => if b.lists.len() > 0 {
            Some(b.lists.last().id)
        } else {
            None
        },
    }
}

/// The list "close" moves a ticket to.
pub fn done_list(board: &Board) -> (r: Option<String>)
    ensures
        crate::model::opt_text(r) == done_list_of(board@),
{
    match find_list(&board.lists, "done") {
        Some(i) => {
            proof {
                lemma_first_list_index(board@.lists, "done"@, i as int);
            }
            assert(board@.lists[i as int].id == board.lists@[i as int].id@);
            Some(board.lists[i].id.clone())
        },
        None => {
            proof {
                lemma_no_list_index(board@.lists, "done"@);
            }
            let n = board.lists.len();
            if n == 0 {
                None
            } else {
                assert(board@.lists.last() == board.lists@[n - 1]@);
                Some(board.lists[n - 1].id.clone())
            }
        },
    }
}

/// The text after the last `.` of `s` (all of `s` when it has none).
pub open spec fn after_last_dot(s: Seq<char>) -> Seq<char>
    decreases s.len(),
{
    if s.len() == 0 {
        s
    } else if s.last() == '.' {
        Seq::empty()
    } else {
        after_last_dot(s.drop_last()).push(s.last())
    }
}

/// The MIME type of a (lowercase) file extension; unknown ones are binary.
pub open spec fn mime_of(ext: Seq<char>) -> Seq<char> {
    if ext == "png"@ {
        "image/png"@
    } else if ext == "jpg"@ || ext == "jpeg"@ {
        "image/jpeg"@
    } else if ext == "gif"@ {
        "image/gif"@
    } else if ext == "webp"@ {
        "image/webp"@
    } else if ext == "svg"@ {
        "image/svg+xml"@
    } else if ext == "mp3"@ {
        "audio/mpeg"@
    } else if ext == "wav"@ {
        "audio/wav"@
    } else if ext == "ogg"@ {
        "audio/ogg"@
    } else if ext == "mp4"@ {
        "video/mp4"@
    } else if ext == "webm"@ {
        "video/webm"@
    } else if ext == "pdf"@ {
        "application/pdf"@
    } else if ext == "md"@ {
        "text/markdown"@
    } else if ext == "txt"@ || ext == "log"@ {
        "text/plain"@
    } else if ext == "csv"@ {
        "text/csv"@
    } else if ext == "json"@ {
        "application/json"@
    } else {
        "application/octet-stream"@
    }
}

fn extension(name: &str) -> (r: String)
    ensures
        r@ == after_last_dot(name@),
{
    let cs = chars_of(name);
    let mut k: usize = cs.len();
    assert(cs@.subrange(0, k as int) =~= cs@);
    assert(after_last_dot(cs@) + cs@.subrange(k as int, k as int) =~= after_last_dot(cs@));
    while k > 0 && cs[k - 1] != '.'
        invariant
            cs@ == name@,
            k <= cs@.len(),
            forall|m: int| k <= m < cs@.len() ==> cs@[m] != '.',
            after_last_dot(name@) == after_last_dot(cs@.subrange(0, k as int)) + cs@.subrange(k as int, cs@.len() as int),
        decreases k,
    {
        let ghost pre = cs@.subrange(0, k as int);
        assert(pre.drop_last() =~= cs@.subrange(0, k - 1));
        assert(cs@.subrange(k - 1, cs@.len() as int) =~= seq![pre.last()] + cs@.subrange(k as int, cs@.len() as int));
        assert(after_last_dot(pre) == after_last_dot(pre.drop_last()).push(pre.last()));
        assert(after_last_dot(pre.drop_last()).push(pre.last()) + cs@.subrange(k as int, cs@.len() as int)
            =~= after_last_dot(cs@.subrange(0, k - 1)) + cs@.subrange(k - 1, cs@.len() as int));
        k = k - 1;
    }
    proof {
        let pre = cs@.subrange(0, k as int);
        if k > 0 {
            assert(pre.last() == '.');
        }
        assert(after_last_dot(pre) =~= Seq::<char>::empty());
        assert(after_last_dot(name@) =~= cs@.subrange(k as int, cs@.len() as int));
    }
    let v = crate::text::slice_of(&cs, k, cs.len());
    string_of(v.as_slice())
}

/// Best-effort MIME type from a file name's extension (case-insensitive).
pub fn guess_mime(name: &str) -> (r: String)
    ensures
        r@ == mime_of(lower_seq(after_last_dot(name@))),
{
    let e = lower(extension(name).as_str());
    let x = e.as_str();
    if same(x, "png") {
        owned("image/png")
    } else if same(x, "jpg") || same(x, "jpeg") {
        owned("image/jpeg")
    } else if same(x, "gif") {
        owned("image/gif")
    } else if same(x, "webp") {
        owned("image/webp")
    } else if same(x, "svg") {
        owned("image/svg+xml")
    } else if same(x, "mp3") {
        owned("audio/mpeg")
    } else if same(x, "wav") {
        owned("audio/wav")
    } else if same(x, "ogg") {
        owned("audio/ogg")
    } else if same(x, "mp4") {
        owned("video/mp4")
    } else if same(x, "webm") {
        owned("video/webm")
    } else if same(x, "pdf") {
        owned("application/pdf")
    } else if same(x, "md") {
        owned("text/markdown")
    } else if same(x, "txt") || same(x, "log") {
        owned("text/plain")
    } else if same(x, "csv") {
        owned("text/csv")
    } else if same(x, "json") {
        owned("application/json")
    } else {
        owned("application/octet-stream")
    }
}

/// How `wipe` reports results: as text, or as JSON for `--json`.
#[derive(Debug, Clone, Copy, PartialEq, Eq, Structural)]
pub struct Out {
    /// Whether `--json` was requested.
    pub json: bool,
}

impl Out {
    /// Create an output mode.
    pub fn new(json: bool) -> (o: Out)
        ensures
            o.json == json,
    {
        Out { json }
    }
}

/// `s` with every `"` doubled (a quoted VBScript string literal's escaping).
pub open spec fn doubled_quotes(s: Seq<char>) -> Seq<char>
    decreases s.len(),
{
    if s.len() == 0 {
        s
    } else if s.last() == '"' {
        doubled_quotes(s.drop_last()) + seq!['"', '"']
    } else {
        doubled_quotes(s.drop_last()).push(s.last())
    }
}

/// Double every `"` in `s`.
pub fn double_quotes(s: &str) -> (r: String)
    ensures
        r@ == doubled_quotes(s@),
{
    let cs = chars_of(s);
    let mut out: Vec<char> = Vec::new();
    let mut i: usize = 0;
    while i < cs.len()
        invariant
            cs@ == s@,
            i <= cs@.len(),
            out@ == doubled_quotes(s@.subrange(0, i as int)),
        decreases cs@.len() - i,
    {
        let ghost pre = s@.subrange(0, i + 1);
        assert(pre.drop_last() =~= s@.subrange(0, i as int));
        assert(pre.last() == cs@[i as int]);
        let ghost before = out@;
        if cs[i] == '"' {
            out.push('"');
            out.push('"');
            assert(out@ =~= before + seq!['"', '"']);
        } else {
            out.push(cs[i]);
        }
        i = i + 1;
    }
    assert(s@.subrange(0, i as int) =~= s@);
    string_of(out.as_slice())
}

/// The Windows login launcher: a VBScript that runs `<exe> serve --idle 0`
/// with a hidden window.
pub open spec fn launcher_script(exe: Seq<char>) -> Seq<char> {
    "CreateObject(\"WScript.Shell\").Run \"\"\""@ + doubled_quotes(exe) + "\"\" serve --idle 0\", 0, False\r\n"@
}

/// The Windows login launcher for the executable at `exe`.
pub fn launcher(exe: &str) -> (r: String)
    ensures
        r@ == launcher_script(exe@),
{
    let q = double_quotes(exe);
    crate::text::cat3("CreateObject(\"WScript.Shell\").Run \"\"\"", q.as_str(), "\"\" serve --idle 0\", 0, False\r\n")
}

/// The systemd user unit that runs `<exe> serve --idle 0` at login.
pub open spec fn unit_text(exe: Seq<char>) -> Seq<char> {
    "[Unit]\nDescription=wipe UI daemon (always-on)\nAfter=default.target\n\n[Service]\nExecStart="@ + exe
        + " serve --idle 0\nRestart=on-failure\n\n[Install]\nWantedBy=default.target\n"@
}

/// The systemd user unit for the executable at `exe`.
pub fn systemd_unit(exe: &str) -> (r: String)
    ensures
        r@ == unit_text(exe@),
{
    crate::text::cat3(
        "[Unit]\nDescription=wipe UI daemon (always-on)\nAfter=default.target\n\n[Service]\nExecStart=",
        exe,
        " serve --idle 0\nRestart=on-failure\n\n[Install]\nWantedBy=default.target\n",
    )
}

/// The assignees (or labels) after `who` is added at the end unless already
/// there or, with `remove`, taken out.
pub open spec fn reassigned(assignees: Seq<Seq<char>>, who: Seq<char>, remove: bool) -> Seq<Seq<char>> {
    if remove {
        crate::ops::without(assignees, who)
    } else if assignees.contains(who) {
        assignees
    } else {
        assignees.push(who)
    }
}

/// The assignee list for `wipe ticket assign`, and the label list for `wipe
/// label assign` / `remove` (see [`reassigned`]).
pub fn assign_list(assignees: &Vec<String>, who: &str, remove: bool) -> (r: Vec<String>)
    ensures
        texts(r@) == reassigned(texts(assignees@), who@, remove),
{
    if remove {
        crate::ops::remove_card(assignees, who)
    } else if crate::inbox::has_ref(assignees, who) {
        crate::model::clone_strings(assignees)
    } else {
        let mut v = crate::model::clone_strings(assignees);
        v.push(owned(who));
        assert(texts(v@) =~= texts(assignees@).push(who@));
        v
    }
}

/// The rows of list `lid`'s tickets `ts` that carry `label` (all when none).
pub open spec fn rows_in(lid: Seq<char>, ts: Seq<TicketV>, label: Option<Seq<char>>) -> Seq<(Seq<char>, TicketV)>
    decreases ts.len(),
{
    if ts.len() == 0 {
        Seq::empty()
    } else {
        let rest = rows_in(lid, ts.drop_last(), label);
        if label matches Some(l) && !ts.last().labels.contains(l) {
            rest
        } else {
            rest.push((lid, ts.last()))
        }
    }
}

/// The rows of `wipe ticket list`: each ticket with its list, for the list asked
/// for (all when none) and the label asked for, in board order.
pub open spec fn rows_of(view: Seq<(Seq<char>, Seq<TicketV>)>, list: Option<Seq<char>>, label: Option<Seq<char>>) -> Seq<(Seq<char>, TicketV)>
    decreases view.len(),
{
    if view.len() == 0 {
        Seq::empty()
    } else {
        let rest = rows_of(view.drop_last(), list, label);
        let (lid, ts) = view.last();
        if list matches Some(f) && lid != f {
            rest
        } else {
            rest + rows_in(lid, ts, label)
        }
    }
}

/// How a board view reads.
pub open spec fn view_of(v: Seq<(String, Vec<Ticket>)>) -> Seq<(Seq<char>, Seq<TicketV>)> {
    v.map_values(|e: (String, Vec<Ticket>)| (e.0@, crate::model::views(e.1@)))
}

/// The rows of `wipe ticket list` over a board view (see [`rows_of`]).
pub fn ticket_rows(view: &Vec<(String, Vec<Ticket>)>, list: Option<&str>, label: Option<&str>) -> (r: Vec<(String, Ticket)>)
    ensures
        r@.map_values(|e: (String, Ticket)| (e.0@, e.1@)) == rows_of(
            view_of(view@),
            match list {
                Some(l) => Some(l@),
                None => None,
            },
            match label {
                Some(l) => Some(l@),
                None => None,
            },
        ),
{
    let ghost vv = view_of(view@);
    let ghost lf = match list {
        Some(l) => Some(l@),
        None => None::<Seq<char>>,
    };
    let ghost lb = match label {
        Some(l) => Some(l@),
        None => None::<Seq<char>>,
    };
    let mut out: Vec<(String, Ticket)> = Vec::new();
    let mut i: usize = 0;
    while i < view.len()
        invariant
            i <= view@.len(),
            vv == view_of(view@),
            lf == match list {
                Some(l) => Some(l@),
                None => None::<Seq<char>>,
            },
            lb == match label {
                Some(l) => Some(l@),
                None => None::<Seq<char>>,
            },
            out@.map_values(|e: (String, Ticket)| (e.0@, e.1@)) == rows_of(vv.subrange(0, i as int), lf, lb),
        decreases view@.len() - i,
    {
        let ghost pre = vv.subrange(0, i + 1);
        assert(pre.drop_last() =~= vv.subrange(0, i as int));
        assert(pre.last() == (view@[i as int].0@, crate::model::views(view@[i as int].1@)));
        let lid = &view[i].0;
        let skip = match list {
            Some(f) => !same(lid.as_str(), f),
            None => false,
        };
        if !skip {
            let ts = &view[i].1;
            let ghost tv = crate::model::views(ts@);
            let ghost base = out@.map_values(|e: (String, Ticket)| (e.0@, e.1@));
            let mut k: usize = 0;
            while k < ts.len()
                invariant
                    k <= ts@.len(),
                    tv == crate::model::views(ts@),
                    lb == match label {
                        Some(l) => Some(l@),
                        None => None::<Seq<char>>,
                    },
                    out@.map_values(|e: (String, Ticket)| (e.0@, e.1@)) == base + rows_in(lid@, tv.subrange(0, k as int), lb),
                decreases ts@.len() - k,
            {
                let ghost pk = tv.subrange(0, k + 1);
                assert(pk.drop_last() =~= tv.subrange(0, k as int));
                assert(pk.last() == ts@[k as int]@);
                let keep = match label {
                    Some(l) => crate::ops::contains_text(&ts[k].labels, l),
                    None => true,
                };
                if keep {
                    let ghost before = out@.map_values(|e: (String, Ticket)| (e.0@, e.1@));
                    out.push((lid.clone(), ts[k].clone()));
                    assert(out@.map_values(|e: (String, Ticket)| (e.0@, e.1@)) =~= before.push((lid@, pk.last())));
                }
                k = k + 1;
            }
            assert(tv.subrange(0, k as int) =~= tv);
        }
        i = i + 1;
    }
    assert(vv.subrange(0, i as int) =~= vv);
    out
}

} // verus!
