//! Stable, human-friendly ID formatting.
//!
//! Ticket IDs look like `T-23`, comment IDs like `c-7`. IDs are allocated from
//! monotonic counters stored in the board / ticket, so they are deterministic and
//! never reused within a board.

use vstd::prelude::*;

use crate::text::{
    chars_of, decimal, is_alnum, is_alnum_exec, lower_char, lower_char_exec, owned, string_of,
    trim_char, trim_matches, with_number,
};

verus! {

/// `T-<n>`.
pub open spec fn ticket_id_spec(n: nat) -> Seq<char> {
    seq!['T', '-'] + decimal(n)
}

/// `c-<n>`.
pub open spec fn comment_id_spec(n: nat) -> Seq<char> {
    seq!['c', '-'] + decimal(n)
}

/// `ck-<n>`.
pub open spec fn checklist_id_spec(n: nat) -> Seq<char> {
    seq!['c', 'k', '-'] + decimal(n)
}

/// `ac-<n>`.
pub open spec fn acceptance_id_spec(n: nat) -> Seq<char> {
    seq!['a', 'c', '-'] + decimal(n)
}

/// Format a ticket ID from its numeric counter, e.g. `T-23`.
pub fn ticket_id(n: u64) -> (s: String)
    ensures
        s@ == ticket_id_spec(n as nat),
{
    proof {
        reveal_strlit("T-");
    }
    with_number("T-", n)
}

/// Format a comment ID from its numeric counter, e.g. `c-7`.
pub fn comment_id(n: u64) -> (s: String)
    ensures
        s@ == comment_id_spec(n as nat),
{
    proof {
        reveal_strlit("c-");
    }
    with_number("c-", n)
}

/// Format a checklist-item ID from its numeric counter, e.g. `ck-3`.
pub fn checklist_id(n: u64) -> (s: String)
    ensures
        s@ == checklist_id_spec(n as nat),
{
    proof {
        reveal_strlit("ck-");
    }
    with_number("ck-", n)
}

/// Format an acceptance-criterion ID from its numeric counter, e.g. `ac-2`.
pub fn acceptance_id(n: u64) -> (s: String)
    ensures
        s@ == acceptance_id_spec(n as nat),
{
    proof {
        reveal_strlit("ac-");
    }
    with_number("ac-", n)
}

/// A lowercase hexadecimal digit.
pub open spec fn lower_hex(c: char) -> bool {
    ('0' <= c && c <= '9') || ('a' <= c && c <= 'f')
}

/// The hex digit that carries the RFC 4122 variant bits (`10xx`).
pub open spec fn variant_digit(c: char) -> bool {
    c == '8' || c == '9' || c == 'a' || c == 'b'
}

/// The hyphen-free text of a version-4 UUID: 32 lowercase hex digits, the
/// version digit `4` at index 12 and the variant digit at index 16.
pub open spec fn uuid_simple_form(s: Seq<char>) -> bool {
    &&& s.len() == 32
    &&& forall|i: int| 0 <= i < 32 ==> lower_hex(#[trigger] s[i])
    &&& s[12] == '4'
    &&& variant_digit(s[16])
}

/// The hyphenated text of a version-4 UUID: 36 characters with `-` at indices
/// 8, 13, 18 and 23, lowercase hex digits elsewhere, the version digit `4` at
/// index 14 and the variant digit at index 19.
pub open spec fn uuid_hyphenated_form(s: Seq<char>) -> bool {
    &&& s.len() == 36
    &&& forall|i: int| 0 <= i < 36 ==> if i == 8 || i == 13 || i == 18 || i == 23 {
        #[trigger] s[i] == '-'
    } else {
        lower_hex(s[i])
    }
    &&& s[14] == '4'
    &&& variant_digit(s[19])
}

/// A random v4 UUID in its hyphen-free form
/// (`uuid::Uuid::new_v4().simple().to_string()`). The value is random; what is
/// stated is the shape that `new_v4`'s version and variant masks and the `uuid`
/// crate's lowercase simple format give every outcome.
#[verifier::external_body]
fn random_simple_uuid() -> (s: String)
    ensures
        uuid_simple_form(s@),
{
    uuid::Uuid::new_v4().simple().to_string()
}

/// A random v4 UUID in its hyphenated form (`uuid::Uuid::new_v4().to_string()`).
/// The value is random; what is stated is the shape that `new_v4`'s version and
/// variant masks and the `uuid` crate's lowercase hyphenated format give every
/// outcome.
#[verifier::external_body]
pub(crate) fn random_uuid() -> (s: String)
    ensures
        uuid_hyphenated_form(s@),
{
    uuid::Uuid::new_v4().to_string()
}

/// Generate a fresh, URL-safe bearer token (a hyphen-free UUIDv4), used to guard
/// an exposed daemon.
pub fn token() -> (s: String)
    ensures
        uuid_simple_form(s@),
{
    random_simple_uuid()
}

/// The characters a slug is built from, before trimming dashes, together with
/// whether the last character processed produced a dash.
pub open spec fn slug_scan(s: Seq<char>) -> (Seq<char>, bool)
    decreases s.len(),
{
    if s.len() == 0 {
        (Seq::empty(), false)
    } else {
        let (out, prev_dash) = slug_scan(s.drop_last());
        let c = s.last();
        if is_alnum(c) {
            (out.push(lower_char(c)), false)
        } else if !prev_dash {
            (out.push('-'), true)
        } else {
            (out, prev_dash)
        }
    }
}

/// The slug of a name: ASCII alphanumerics lowercased, every run of other
/// characters collapsed to one `-`, leading/trailing dashes trimmed, and
/// `list` when nothing is left.
pub open spec fn slug_spec(s: Seq<char>) -> Seq<char> {
    let t = trim_char(slug_scan(s).0, '-');
    if t.len() == 0 {
        seq!['l', 'i', 's', 't']
    } else {
        t
    }
}

/// Turn a human name into a stable kebab-case slug used for list IDs.
///
/// Non-alphanumeric runs collapse to a single `-`; the result is lowercased and
/// trimmed of leading/trailing dashes. Empty input yields `"list"`.
pub fn slug(name: &str) -> (r: String)
    ensures
        r@ == slug_spec(name@),
{
    let cs = chars_of(name);
    let mut out: Vec<char> = Vec::new();
    let mut prev_dash = false;
    let mut i: usize = 0;
    while i < cs.len()
        invariant
            cs@ == name@,
            i <= cs.len(),
            slug_scan(name@.subrange(0, i as int)) == (out@, prev_dash),
        decreases cs.len() - i,
    {
        let c = cs[i];
        assert(name@.subrange(0, i + 1).drop_last() =~= name@.subrange(0, i as int));
        if is_alnum_exec(c) {
            out.push(lower_char_exec(c));
            prev_dash = false;
        } else if !prev_dash {
            out.push('-');
            prev_dash = true;
        }
        i = i + 1;
    }
    assert(name@.subrange(0, i as int) =~= name@);
    let raw = string_of(out.as_slice());
    let trimmed = trim_matches(raw.as_str(), '-');
    if trimmed.as_str().is_empty() {
        proof {
            reveal_strlit("list");
        }
        owned("list")
    } else {
        trimmed
    }
}

} // verus!
