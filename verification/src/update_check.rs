//! The once-a-day "a newer version is available" check: comparing versions and
//! deciding when the check is due. Fetching the latest version and keeping the
//! state file are the front end's.

use vstd::prelude::*;

use crate::keys::{parse_uint, parse_uint_spec};
use crate::model::{texts, Timestamp};
use crate::parse::{split_char, split_spec};
use crate::text::{chars_of, string_of, trim, trim_spec};

verus! {

/// Hours between two checks.
pub const COOLDOWN_HOURS: u64 = 24;

/// Nanoseconds between two checks.
pub open spec fn cooldown_nanos() -> int {
    86_400_000_000_000
}

/// `s` up to (not including) its first `-` or `+`.
pub open spec fn before_suffix(s: Seq<char>) -> Seq<char>
    decreases s.len(),
{
    if s.len() == 0 {
        s
    } else if s[0] == '-' || s[0] == '+' {
        Seq::empty()
    } else {
        seq![s[0]] + before_suffix(s.drop_first())
    }
}

/// The `i`-th dotted piece, or `0` when there is none.
pub open spec fn piece(ps: Seq<Seq<char>>, i: int) -> Seq<char> {
    if i < ps.len() {
        ps[i]
    } else {
        "0"@
    }
}

/// The `major.minor.patch` prefix of a version, ignoring any `-pre` or
/// `+build` suffix; missing parts count as 0.
pub open spec fn version_of(v: Seq<char>) -> Option<(u64, u64, u64)> {
    let ps = split_spec(before_suffix(trim_spec(v)), '.');
    match (parse_uint_spec(ps[0], u64::MAX as nat), parse_uint_spec(piece(ps, 1), u64::MAX as nat), parse_uint_spec(piece(ps, 2), u64::MAX as nat)) {
        (Ok(a), Ok(b), Ok(c)) => Some((a as u64, b as u64, c as u64)),
        _ => None,
    }
}

/// Whether version `l` comes after `c` (component by component).
pub open spec fn later(l: (u64, u64, u64), c: (u64, u64, u64)) -> bool {
    l.0 > c.0 || (l.0 == c.0 && (l.1 > c.1 || (l.1 == c.1 && l.2 > c.2)))
}

fn core_of(v: &str) -> (r: String)
    ensures
        r@ == before_suffix(trim_spec(v@)),
{
    let t = trim(v);
    let cs = chars_of(t.as_str());
    let mut k: usize = 0;
    assert(cs@.subrange(0, cs@.len() as int) =~= cs@);
    assert(cs@.subrange(0, 0) + before_suffix(cs@) =~= before_suffix(cs@));
    while k < cs.len() && cs[k] != '-' && cs[k] != '+'
        invariant
            cs@ == t@,
            k <= cs@.len(),
            before_suffix(t@) == cs@.subrange(0, k as int) + before_suffix(cs@.subrange(k as int, cs@.len() as int)),
        decreases cs@.len() - k,
    {
        let ghost rest = cs@.subrange(k as int, cs@.len() as int);
        assert(rest.drop_first() =~= cs@.subrange(k + 1, cs@.len() as int));
        assert(cs@.subrange(0, k + 1) =~= cs@.subrange(0, k as int) + seq![rest[0]]);
        k = k + 1;
    }
    let ghost rest = cs@.subrange(k as int, cs@.len() as int);
    assert(before_suffix(rest) =~= Seq::<char>::empty());
    assert(cs@.subrange(0, cs@.len() as int) =~= cs@);
    let v2 = crate::text::slice_of(&cs, 0, k);
    string_of(v2.as_slice())
}

/// Parse a `major.minor.patch` prefix, ignoring any `-pre`/`+build` suffix.
pub fn parse(v: &str) -> (r: Option<(u64, u64, u64)>)
    ensures
        r == version_of(v@),
{
    let core = core_of(v);
    let ps = split_char(core.as_str(), '.');
    proof {
        crate::parse::lemma_split_nonempty(core@, '.');
    }
    let ghost pv = texts(ps@);
    assert(pv[0] == ps@[0]@);
    let major = match parse_uint(ps[0].as_str(), u64::MAX) {
        Ok(n) => n,
        Err(_) => return None,
    };
    let minor = if ps.len() > 1 {
        assert(pv[1] == ps@[1]@);
        match parse_uint(ps[1].as_str(), u64::MAX) {
            Ok(n) => n,
            Err(_) => return None,
        }
    } else {
        match parse_uint("0", u64::MAX) {
            Ok(n) => n,
            Err(_) => return None,
        }
    };
    let patch = if ps.len() > 2 {
        assert(pv[2] == ps@[2]@);
        match parse_uint(ps[2].as_str(), u64::MAX) {
            Ok(n) => n,
            Err(_) => return None,
        }
    } else {
        match parse_uint("0", u64::MAX) {
            Ok(n) => n,
            Err(_) => return None,
        }
    };
    Some((major, minor, patch))
}

/// Whether `latest` is a strictly newer version than `current`; an unreadable
/// version is never newer.
pub fn is_newer(latest: &str, current: &str) -> (r: bool)
    ensures
        r == match (version_of(latest@), version_of(current@)) {
            (Some(l), Some(c)) => later(l, c),
            _ => false,
        },
{
    match (parse(latest), parse(current)) {
        (Some(l), Some(c)) => l.0 > c.0 || (l.0 == c.0 && (l.1 > c.1 || (l.1 == c.1 && l.2 > c.2))),
        _ => false,
    }
}

/// Whether a check is due at `now`: never checked, or a full cooldown since.
pub fn due(last_check: Option<Timestamp>, now: Timestamp) -> (r: bool)
    ensures
        r == match last_check {
            Some(t) => now - t >= cooldown_nanos(),
            None => true,
        },
{
    match last_check {
        Some(t) => {
            if t > i128::MAX - 86_400_000_000_000i128 {
                false
            } else {
                now >= t + 86_400_000_000_000i128
            }
        },
        None => true,
    }
}

} // verus!
