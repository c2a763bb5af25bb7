//! Character-level text helpers shared by the whole library: decimal
//! formatting and parsing, ASCII classification, trimming, prefix tests and
//! conversions between `String` and character vectors.

use vstd::prelude::*;

verus! {

// ---------------------------------------------------------------------------
// Specifications
// ---------------------------------------------------------------------------

/// ASCII decimal digit.
pub open spec fn is_digit(c: char) -> bool {
    '0' <= c && c <= '9'
}

/// ASCII lowercase letter.
pub open spec fn is_lower(c: char) -> bool {
    'a' <= c && c <= 'z'
}

/// ASCII uppercase letter.
pub open spec fn is_upper(c: char) -> bool {
    'A' <= c && c <= 'Z'
}

/// ASCII letter or digit (`char::is_ascii_alphanumeric`).
pub open spec fn is_alnum(c: char) -> bool {
    is_digit(c) || is_lower(c) || is_upper(c)
}

/// `char::to_ascii_lowercase`.
pub open spec fn lower_char(c: char) -> char {
    if is_upper(c) {
        ((c as u32) + 32) as char
    } else {
        c
    }
}

/// `str::to_ascii_lowercase`, character by character.
pub open spec fn lower_seq(s: Seq<char>) -> Seq<char> {
    s.map_values(|c: char| lower_char(c))
}

/// The value of an ASCII digit.
pub open spec fn digit_value(c: char) -> nat {
    ((c as u32) - ('0' as u32)) as nat
}

/// The digit character for `d < 10`.
pub open spec fn digit_char(d: nat) -> char {
    (('0' as u32) + d) as char
}

/// Every character is an ASCII digit.
pub open spec fn all_digits(s: Seq<char>) -> bool {
    forall|i: int| 0 <= i < s.len() ==> is_digit(#[trigger] s[i])
}

/// The number written by a sequence of decimal digits (most significant first).
pub open spec fn digits_value(s: Seq<char>) -> nat
    decreases s.len(),
{
    if s.len() == 0 {
        0
    } else {
        digits_value(s.drop_last()) * 10 + digit_value(s.last())
    }
}

/// The shortest decimal spelling of `n` (as `format!("{n}")` writes it).
pub open spec fn decimal(n: nat) -> Seq<char>
    decreases n,
{
    if n < 10 {
        seq![digit_char(n)]
    } else {
        decimal(n / 10).push(digit_char(n % 10))
    }
}

/// What `str::parse::<u64>` accepts and returns: an optional `+`, then a
/// non-empty run of ASCII digits whose value fits in a `u64`.
pub open spec fn parse_u64_spec(s: Seq<char>) -> Option<u64> {
    let digits = if s.len() > 0 && s[0] == '+' { s.drop_first() } else { s };
    if digits.len() > 0 && all_digits(digits) && digits_value(digits) <= u64::MAX {
        Some(digits_value(digits) as u64)
    } else {
        None
    }
}

/// ASCII/Unicode whitespace as `char::is_whitespace` reports it.
pub open spec fn is_space(c: char) -> bool {
    c == ' ' || c == '\t' || c == '\n' || c == '\r' || c == '\x0b' || c == '\x0c'
        || c == '\u{85}' || c == '\u{a0}' || c == '\u{1680}' || ('\u{2000}' <= c && c
        <= '\u{200a}') || c == '\u{2028}' || c == '\u{2029}' || c == '\u{202f}' || c
        == '\u{205f}' || c == '\u{3000}'
}

/// Number of leading characters of `s` satisfying "is `c`".
pub open spec fn lead_count(s: Seq<char>, c: char) -> nat
    decreases s.len(),
{
    if s.len() > 0 && s[0] == c {
        1 + lead_count(s.drop_first(), c)
    } else {
        0
    }
}

/// Number of trailing characters of `s` equal to `c`.
pub open spec fn trail_count(s: Seq<char>, c: char) -> nat
    decreases s.len(),
{
    if s.len() > 0 && s.last() == c {
        1 + trail_count(s.drop_last(), c)
    } else {
        0
    }
}

/// `str::trim_matches(c)` for a single character `c`.
pub open spec fn trim_char(s: Seq<char>, c: char) -> Seq<char> {
    let a = lead_count(s, c);
    if a == s.len() {
        Seq::empty()
    } else {
        s.subrange(a as int, s.len() - trail_count(s, c))
    }
}

/// Number of leading whitespace characters.
pub open spec fn lead_space(s: Seq<char>) -> nat
    decreases s.len(),
{
    if s.len() > 0 && is_space(s[0]) {
        1 + lead_space(s.drop_first())
    } else {
        0
    }
}

/// Number of trailing whitespace characters.
pub open spec fn trail_space(s: Seq<char>) -> nat
    decreases s.len(),
{
    if s.len() > 0 && is_space(s.last()) {
        1 + trail_space(s.drop_last())
    } else {
        0
    }
}

/// `str::trim`: drop leading and trailing whitespace.
pub open spec fn trim_spec(s: Seq<char>) -> Seq<char> {
    let a = lead_space(s);
    if a == s.len() {
        Seq::empty()
    } else {
        s.subrange(a as int, s.len() - trail_space(s))
    }
}

/// `s` starts with `p`.
pub open spec fn has_prefix(s: Seq<char>, p: Seq<char>) -> bool {
    p.len() <= s.len() && s.subrange(0, p.len() as int) == p
}

/// `s` contains the character `c`.
pub open spec fn has_char(s: Seq<char>, c: char) -> bool {
    exists|i: int| 0 <= i < s.len() && s[i] == c
}

/// `s` contains `p` as a contiguous piece.
pub open spec fn has_infix(s: Seq<char>, p: Seq<char>) -> bool {
    exists|i: int| 0 <= i && i + p.len() <= s.len() && #[trigger] s.subrange(i, i + p.len()) == p
}

// ---------------------------------------------------------------------------
// Conversions with std
// ---------------------------------------------------------------------------

/// The characters of a string slice (`str::chars` collected).
#[verifier::external_body]
pub(crate) fn chars_of(s: &str) -> (v: Vec<char>)
    ensures
        v@ == s@,
{
    s.chars().collect()
}

/// A `String` holding exactly the given characters (`FromIterator<char>`).
#[verifier::external_body]
pub(crate) fn string_of(v: &[char]) -> (s: String)
    ensures
        s@ == v@,
{
    v.iter().collect()
}

// ---------------------------------------------------------------------------
// Basic executable helpers
// ---------------------------------------------------------------------------

/// A fresh copy of a string slice.
pub fn owned(s: &str) -> (r: String)
    ensures
        r@ == s@,
{
    String::from_str(s)
}

/// Concatenate two strings.
pub fn cat(a: &str, b: &str) -> (r: String)
    ensures
        r@ == a@ + b@,
{
    String::from_str(a).concat(b)
}

/// Concatenate three strings.
pub fn cat3(a: &str, b: &str, c: &str) -> (r: String)
    ensures
        r@ == a@ + b@ + c@,
{
    String::from_str(a).concat(b).concat(c)
}

/// Equality of two string slices.
pub fn same(a: &str, b: &str) -> (r: bool)
    ensures
        r == (a@ == b@),
{
    String::from_str(a) == String::from_str(b)
}

pub fn is_digit_exec(c: char) -> (r: bool)
    ensures
        r == is_digit(c),
{
    '0' <= c && c <= '9'
}

pub fn is_alnum_exec(c: char) -> (r: bool)
    ensures
        r == is_alnum(c),
{
    ('0' <= c && c <= '9') || ('a' <= c && c <= 'z') || ('A' <= c && c <= 'Z')
}

pub fn is_space_exec(c: char) -> (r: bool)
    ensures
        r == is_space(c),
{
    c == ' ' || c == '\t' || c == '\n' || c == '\r' || c == '\x0b' || c == '\x0c'
        || c == '\u{85}' || c == '\u{a0}' || c == '\u{1680}' || ('\u{2000}' <= c && c
        <= '\u{200a}') || c == '\u{2028}' || c == '\u{2029}' || c == '\u{202f}' || c
        == '\u{205f}' || c == '\u{3000}'
}

pub fn lower_char_exec(c: char) -> (r: char)
    ensures
        r == lower_char(c),
{
    if 'A' <= c && c <= 'Z' {
        let u: u32 = c as u32;
        let l: u32 = u + 32;
        assert(0x61 <= l <= 0x7a);
        char_from_ascii(l)
    } else {
        c
    }
}

/// The ASCII character with code `u`.
fn char_from_ascii(u: u32) -> (c: char)
    requires
        u < 128,
    ensures
        c == u as char,
{
    let b: u8 = u as u8;
    b as char
}

/// `str::to_ascii_lowercase`.
pub fn lower(s: &str) -> (r: String)
    ensures
        r@ == lower_seq(s@),
{
    let cs = chars_of(s);
    let mut out: Vec<char> = Vec::new();
    let mut i: usize = 0;
    while i < cs.len()
        invariant
            cs@ == s@,
            i <= cs.len(),
            out@ == lower_seq(s@.subrange(0, i as int)),
        decreases cs.len() - i,
    {
        out.push(lower_char_exec(cs[i]));
        assert(lower_seq(s@.subrange(0, i + 1)) =~= lower_seq(s@.subrange(0, i as int)).push(
            lower_char(s@[i as int]),
        ));
        i = i + 1;
    }
    assert(s@.subrange(0, i as int) =~= s@);
    string_of(out.as_slice())
}

// ---------------------------------------------------------------------------
// Decimal numbers
// ---------------------------------------------------------------------------

pub proof fn lemma_decimal_digits(n: nat)
    ensures
        all_digits(decimal(n)),
        decimal(n).len() > 0,
    decreases n,
{
    if n >= 10 {
        lemma_decimal_digits(n / 10);
    }
}

/// Reading back the decimal spelling of `n` gives `n`.
pub proof fn lemma_decimal_value(n: nat)
    ensures
        digits_value(decimal(n)) == n,
    decreases n,
{
    let d = (n % 10) as nat;
    assert(digit_value(digit_char(d)) == d);
    if n < 10 {
        assert(decimal(n).drop_last() =~= Seq::<char>::empty());
        assert(decimal(n).last() == digit_char(d));
        assert(digits_value(decimal(n)) == digits_value(decimal(n).drop_last()) * 10 + digit_value(decimal(n).last()));
    } else {
        lemma_decimal_value(n / 10);
        assert(decimal(n).drop_last() =~= decimal(n / 10));
        assert(decimal(n).last() == digit_char(d));
        assert(digits_value(decimal(n)) == digits_value(decimal(n).drop_last()) * 10 + digit_value(decimal(n).last()));
        assert(n == (n / 10) * 10 + n % 10);
    }
}

/// Different numbers have different decimal spellings.
pub proof fn lemma_decimal_injective(a: nat, b: nat)
    requires
        decimal(a) == decimal(b),
    ensures
        a == b,
{
    lemma_decimal_value(a);
    lemma_decimal_value(b);
}

fn push_decimal(n: u64, out: &mut Vec<char>)
    ensures
        final(out)@ == old(out)@ + decimal(n as nat),
    decreases n,
{
    if n >= 10 {
        push_decimal(n / 10, out);
    }
    let d: u64 = n % 10;
    let u: u32 = 48 + (d as u32);
    out.push(char_from_ascii(u));
    assert(old(out)@ + decimal(n as nat) =~= (if n >= 10 {
        old(out)@ + decimal((n / 10) as nat)
    } else {
        old(out)@
    }).push(digit_char((n % 10) as nat)));
}

/// The decimal spelling of `n` (`n.to_string()`).
pub fn decimal_string(n: u64) -> (s: String)
    ensures
        s@ == decimal(n as nat),
{
    let mut v: Vec<char> = Vec::new();
    push_decimal(n, &mut v);
    assert(v@ =~= decimal(n as nat));
    string_of(v.as_slice())
}

/// `prefix` followed by the decimal spelling of `n` (`format!("{prefix}{n}")`).
pub fn with_number(prefix: &str, n: u64) -> (s: String)
    ensures
        s@ == prefix@ + decimal(n as nat),
{
    let d = decimal_string(n);
    cat(prefix, d.as_str())
}

/// `str::parse::<u64>`: an optional `+`, then ASCII digits, the value fitting
/// in a `u64`; `None` otherwise.
pub fn parse_u64(s: &str) -> (r: Option<u64>)
    ensures
        r == parse_u64_spec(s@),
{
    let cs = chars_of(s);
    let start: usize = if cs.len() > 0 && cs[0] == '+' {
        1
    } else {
        0
    };
    let ghost digits = if s@.len() > 0 && s@[0] == '+' {
        s@.drop_first()
    } else {
        s@
    };
    assert(digits =~= cs@.subrange(start as int, cs.len() as int));
    assert(parse_u64_spec(s@) == (if digits.len() > 0 && all_digits(digits) && digits_value(
        digits,
    ) <= u64::MAX {
        Some(digits_value(digits) as u64)
    } else {
        None
    }));
    if start == cs.len() {
        return None;
    }
    let mut acc: u64 = 0;
    let mut i: usize = start;
    while i < cs.len()
        invariant
            cs@ == s@,
            start <= i <= cs.len(),
            digits == cs@.subrange(start as int, cs.len() as int),
            parse_u64_spec(s@) == (if digits.len() > 0 && all_digits(digits) && digits_value(
                digits,
            ) <= u64::MAX {
                Some(digits_value(digits) as u64)
            } else {
                None
            }),
            all_digits(cs@.subrange(start as int, i as int)),
            acc as nat == digits_value(cs@.subrange(start as int, i as int)),
        decreases cs.len() - i,
    {
        let c = cs[i];
        let ghost pre = cs@.subrange(start as int, i as int);
        let ghost nxt = cs@.subrange(start as int, i + 1);
        assert(nxt.drop_last() =~= pre);
        if !is_digit_exec(c) {
            assert(digits[i - start] == c);
            assert(!all_digits(digits));
            return None;
        }
        let d: u64 = (c as u32 - 48) as u64;
        assert(nxt.last() == c);
        assert(digits_value(nxt) == acc * 10 + d);
        assert(all_digits(nxt));
        if acc > (u64::MAX - d) / 10 {
            proof {
                assert(acc * 10 + d > u64::MAX) by (nonlinear_arith)
                    requires
                        acc > (u64::MAX - d) / 10,
                        d < 10,
                ;
                assert(digits.subrange(0, (i - start) as int + 1) =~= nxt);
                lemma_digits_value_grows(digits, (i - start) as nat);
            }
            return None;
        }
        acc = acc * 10 + d;
        i = i + 1;
    }
    Some(acc)
}

/// Once a digit prefix's value exceeds the bound, the whole run's value does too.
proof fn lemma_digits_value_grows(s: Seq<char>, k: nat)
    requires
        k < s.len(),
        digits_value(s.subrange(0, k as int + 1)) > u64::MAX,
    ensures
        all_digits(s) ==> digits_value(s) > u64::MAX,
    decreases s.len() - k,
{
    if all_digits(s) {
        if k + 1 < s.len() {
            let a = s.subrange(0, k as int + 1);
            let b = s.subrange(0, k as int + 2);
            assert(b.drop_last() =~= a);
            assert(digits_value(b) >= digits_value(a));
            lemma_digits_value_grows(s, k + 1);
        } else {
            assert(s.subrange(0, k as int + 1) =~= s);
        }
    }
}

// ---------------------------------------------------------------------------
// Searching and slicing
// ---------------------------------------------------------------------------

/// Whether `s` starts with `p`.
pub fn starts_with(s: &str, p: &str) -> (r: bool)
    ensures
        r == has_prefix(s@, p@),
{
    let a = chars_of(s);
    let b = chars_of(p);
    if b.len() > a.len() {
        return false;
    }
    let mut i: usize = 0;
    while i < b.len()
        invariant
            a@ == s@,
            b@ == p@,
            b.len() <= a.len(),
            i <= b.len(),
            forall|j: int| 0 <= j < i ==> a@[j] == b@[j],
        decreases b.len() - i,
    {
        if a[i] != b[i] {
            assert(s@.subrange(0, p@.len() as int)[i as int] != p@[i as int]);
            return false;
        }
        i = i + 1;
    }
    assert(s@.subrange(0, p@.len() as int) =~= p@);
    true
}

/// Whether `s` contains the character `c`.
pub fn contains_char(s: &str, c: char) -> (r: bool)
    ensures
        r == has_char(s@, c),
{
    let a = chars_of(s);
    let mut i: usize = 0;
    while i < a.len()
        invariant
            a@ == s@,
            i <= a.len(),
            forall|j: int| 0 <= j < i ==> a@[j] != c,
        decreases a.len() - i,
    {
        if a[i] == c {
            return true;
        }
        i = i + 1;
    }
    false
}

/// `s` without its first `n` characters.
pub fn skip_chars(s: &str, n: usize) -> (r: String)
    requires
        n <= s@.len(),
    ensures
        r@ == s@.subrange(n as int, s@.len() as int),
{
    let a = chars_of(s);
    let v = slice_of(&a, n, a.len());
    string_of(v.as_slice())
}

/// The characters `v[from..to]` as a new vector.
pub fn slice_of(v: &Vec<char>, from: usize, to: usize) -> (r: Vec<char>)
    requires
        from <= to <= v.len(),
    ensures
        r@ == v@.subrange(from as int, to as int),
{
    let mut out: Vec<char> = Vec::new();
    let mut i: usize = from;
    while i < to
        invariant
            from <= i <= to <= v.len(),
            out@ == v@.subrange(from as int, i as int),
        decreases to - i,
    {
        out.push(v[i]);
        assert(v@.subrange(from as int, i + 1) =~= v@.subrange(from as int, i as int).push(
            v@[i as int],
        ));
        i = i + 1;
    }
    out
}

/// `str::trim`.
pub fn trim(s: &str) -> (r: String)
    ensures
        r@ == trim_spec(s@),
{
    let a = chars_of(s);
    let mut lo: usize = 0;
    assert(s@.subrange(0, s@.len() as int) =~= s@);
    while lo < a.len() && is_space_exec(a[lo])
        invariant
            a@ == s@,
            lo <= a.len(),
            lead_space(s@) == lo + lead_space(s@.subrange(lo as int, s@.len() as int)),
        decreases a.len() - lo,
    {
        let ghost rest = s@.subrange(lo as int, s@.len() as int);
        assert(rest.drop_first() =~= s@.subrange(lo + 1, s@.len() as int));
        lo = lo + 1;
    }
    proof {
        let rest = s@.subrange(lo as int, s@.len() as int);
        if lo < a.len() {
            assert(rest[0] == s@[lo as int]);
        }
    }
    if lo == a.len() {
        return String::new();
    }
    let mut hi: usize = a.len();
    while hi > lo && is_space_exec(a[hi - 1])
        invariant
            a@ == s@,
            lo < a.len(),
            !is_space(a@[lo as int]),
            lo < hi <= a.len(),
            trail_space(s@) == (a.len() - hi) + trail_space(s@.subrange(0, hi as int)),
        decreases hi,
    {
        let ghost pre = s@.subrange(0, hi as int);
        assert(pre.drop_last() =~= s@.subrange(0, hi - 1));
        hi = hi - 1;
    }
    proof {
        let pre = s@.subrange(0, hi as int);
        if hi > 0 {
            assert(pre.last() == s@[hi - 1]);
        }
    }
    let v = slice_of(&a, lo, hi);
    string_of(v.as_slice())
}

/// `str::trim_matches(c)` for one character `c`.
pub fn trim_matches(s: &str, c: char) -> (r: String)
    ensures
        r@ == trim_char(s@, c),
{
    let a = chars_of(s);
    let mut lo: usize = 0;
    assert(s@.subrange(0, s@.len() as int) =~= s@);
    while lo < a.len() && a[lo] == c
        invariant
            a@ == s@,
            lo <= a.len(),
            lead_count(s@, c) == lo + lead_count(s@.subrange(lo as int, s@.len() as int), c),
        decreases a.len() - lo,
    {
        let ghost rest = s@.subrange(lo as int, s@.len() as int);
        assert(rest.drop_first() =~= s@.subrange(lo + 1, s@.len() as int));
        lo = lo + 1;
    }
    proof {
        let rest = s@.subrange(lo as int, s@.len() as int);
        if lo < a.len() {
            assert(rest[0] == s@[lo as int]);
        }
    }
    if lo == a.len() {
        return String::new();
    }
    let mut hi: usize = a.len();
    while hi > lo && a[hi - 1] == c
        invariant
            a@ == s@,
            lo < a.len(),
            a@[lo as int] != c,
            lo < hi <= a.len(),
            trail_count(s@, c) == (a.len() - hi) + trail_count(s@.subrange(0, hi as int), c),
        decreases hi,
    {
        let ghost pre = s@.subrange(0, hi as int);
        assert(pre.drop_last() =~= s@.subrange(0, hi - 1));
        hi = hi - 1;
    }
    proof {
        let pre = s@.subrange(0, hi as int);
        if hi > 0 {
            assert(pre.last() == s@[hi - 1]);
        }
    }
    let v = slice_of(&a, lo, hi);
    string_of(v.as_slice())
}

/// Whether a string is empty after trimming whitespace (`s.trim().is_empty()`).
pub fn is_blank(s: &str) -> (r: bool)
    ensures
        r == (trim_spec(s@).len() == 0),
{
    let t = trim(s);
    t.as_str().is_empty()
}

/// Lowercase as `str::to_lowercase` does it (full Unicode case mapping).
pub uninterp spec fn unicode_lower(s: Seq<char>) -> Seq<char>;

/// `str::to_lowercase`.
#[verifier::external_body]
pub(crate) fn to_lower(s: &str) -> (r: String)
    ensures
        r@ == unicode_lower(s@),
{
    s.to_lowercase()
}

fn matches_at(cs: &Vec<char>, ps: &Vec<char>, i: usize) -> (r: bool)
    requires
        i + ps@.len() <= cs@.len(),
    ensures
        r == (cs@.subrange(i as int, i + ps@.len()) == ps@),
{
    let n = cs.len();
    let mut k: usize = 0;
    while k < ps.len()
        invariant
            n == cs@.len(),
            i + ps@.len() <= cs@.len(),
            k <= ps@.len(),
            forall|m: int| 0 <= m < k ==> cs@[i + m] == ps@[m],
        decreases ps@.len() - k,
    {
        if cs[i + k] != ps[k] {
            assert(cs@.subrange(i as int, i + ps@.len())[k as int] != ps@[k as int]);
            return false;
        }
        k = k + 1;
    }
    assert(cs@.subrange(i as int, i + ps@.len()) =~= ps@);
    true
}

/// Whether `p` occurs in `s` (`str::contains`).
pub fn contains_sub(s: &str, p: &str) -> (r: bool)
    ensures
        r == has_infix(s@, p@),
{
    let cs = chars_of(s);
    let ps = chars_of(p);
    if ps.len() > cs.len() {
        return false;
    }
    let last = cs.len() - ps.len();
    let mut i: usize = 0;
    loop
        invariant
            cs@ == s@,
            ps@ == p@,
            last == cs@.len() - ps@.len(),
            ps@.len() <= cs@.len(),
            i <= last,
            forall|j: int| 0 <= j < i ==> #[trigger] s@.subrange(j, j + p@.len()) != p@,
        ensures
            forall|j: int| 0 <= j <= last ==> #[trigger] s@.subrange(j, j + p@.len()) != p@,
        decreases last - i,
    {
        if matches_at(&cs, &ps, i) {
            return true;
        }
        if i == last {
            break;
        }
        i = i + 1;
    }
    assert forall|j: int| 0 <= j && j + p@.len() <= s@.len() implies #[trigger] s@.subrange(j, j + p@.len()) != p@ by {
        assert(j <= last);
    }
    false
}

} // verus!
