//! Reading and writing configuration by dotted key: a board's own settings
//! (`daemon.port`, `board.name`, ...) and the user-global defaults
//! (`default.port`, `ui.theme`, `scan.roots`, ...). Values are parsed and
//! checked here; loading and saving the files is the caller's.

use vstd::prelude::*;

use crate::config::{GlobalConfig, GlobalConfigV};
use crate::error::Error;
use crate::model::{opt_text, texts, BoardV, Exposure, SettingsV, Starter, Timestamp};
use crate::store::{with_board, Store, StoreV};
use crate::text::{
    cat, cat3, chars_of, digit_value, is_digit, lower, lower_seq, owned, same, string_of, trim,
    trim_spec,
};

verus! {

// ---------------------------------------------------------------------------
// Numbers
// ---------------------------------------------------------------------------

/// Why a number did not parse.
#[derive(Debug, Clone, Copy, PartialEq, Eq, Structural)]
pub enum NumError {
    /// Nothing to parse.
    Empty,
    /// A character that is not a digit.
    Invalid,
    /// More than the type holds.
    Overflow,
}

/// Reading the digits `d` on from the value `acc`, with `max` the largest value
/// allowed: the value, or the first problem met from the left.
pub open spec fn scan_digits(d: Seq<char>, acc: nat, max: nat) -> Result<nat, NumError>
    decreases d.len(),
{
    if d.len() == 0 {
        Ok(acc)
    } else if !is_digit(d[0]) {
        Err(NumError::Invalid)
    } else if acc * 10 + digit_value(d[0]) > max {
        Err(NumError::Overflow)
    } else {
        scan_digits(d.drop_first(), acc * 10 + digit_value(d[0]), max)
    }
}

/// An unsigned decimal number of at most `max`, with an optional leading `+`
/// (`str::parse` for an unsigned integer type).
pub open spec fn parse_uint_spec(s: Seq<char>, max: nat) -> Result<nat, NumError> {
    if s.len() == 0 {
        Err(NumError::Empty)
    } else if (s[0] == '+' || s[0] == '-') && s.len() == 1 {
        Err(NumError::Invalid)
    } else if s[0] == '+' {
        scan_digits(s.drop_first(), 0, max)
    } else {
        scan_digits(s, 0, max)
    }
}

/// How a number error reads.
pub open spec fn num_error_text(e: NumError) -> Seq<char> {
    match e {
        NumError::Empty => "cannot parse integer from empty string"@,
        NumError::Invalid => "invalid digit found in string"@,
        NumError::Overflow => "number too large to fit in target type"@,
    }
}

/// How a number error reads.
pub fn num_error_message(e: NumError) -> (r: String)
    ensures
        r@ == num_error_text(e),
{
    match e {
        NumError::Empty => owned("cannot parse integer from empty string"),
        NumError::Invalid => owned("invalid digit found in string"),
        NumError::Overflow => owned("number too large to fit in target type"),
    }
}

/// Parse an unsigned decimal number of at most `max`.
pub fn parse_uint(s: &str, max: u64) -> (r: Result<u64, NumError>)
    ensures
        match r {
            Ok(n) => parse_uint_spec(s@, max as nat) == Ok::<nat, NumError>(n as nat),
            Err(e) => parse_uint_spec(s@, max as nat) == Err::<nat, NumError>(e),
        },
{
    let cs = chars_of(s);
    if cs.len() == 0 {
        return Err(NumError::Empty);
    }
    if (cs[0] == '+' || cs[0] == '-') && cs.len() == 1 {
        return Err(NumError::Invalid);
    }
    let start: usize = if cs[0] == '+' {
        1
    } else {
        0
    };
    let ghost d = if s@[0] == '+' {
        s@.drop_first()
    } else {
        s@
    };
    assert(d =~= cs@.subrange(start as int, cs@.len() as int));
    assert(parse_uint_spec(s@, max as nat) == scan_digits(d, 0, max as nat));
    let mut acc: u64 = 0;
    let mut i: usize = start;
    while i < cs.len()
        invariant
            cs@ == s@,
            start <= i <= cs@.len(),
            acc <= max,
            parse_uint_spec(s@, max as nat) == scan_digits(d, 0, max as nat),
            scan_digits(d, 0, max as nat) == scan_digits(cs@.subrange(i as int, cs@.len() as int), acc as nat, max as nat),
        decreases cs@.len() - i,
    {
        let ghost rest = cs@.subrange(i as int, cs@.len() as int);
        assert(rest[0] == cs@[i as int]);
        assert(rest.drop_first() =~= cs@.subrange(i + 1, cs@.len() as int));
        let c = cs[i];
        if !('0' <= c && c <= '9') {
            return Err(NumError::Invalid);
        }
        let dv: u64 = ((c as u32) - ('0' as u32)) as u64;
        assert(dv == digit_value(c));
        let v: u128 = (acc as u128) * 10 + (dv as u128);
        if v > (max as u128) {
            return Err(NumError::Overflow);
        }
        acc = v as u64;
        i = i + 1;
    }
    Ok(acc)
}

// ---------------------------------------------------------------------------
// Values
// ---------------------------------------------------------------------------

/// A configuration value as it is shown: nothing, a flag, a number, a word, or a
/// list of words.
#[derive(Debug)]
pub enum ConfigValue {
    Null,
    Bool(bool),
    Number(u64),
    Text(String),
    List(Vec<String>),
}

/// The value of a [`ConfigValue`].
pub enum ConfigValueV {
    Null,
    Bool(bool),
    Number(u64),
    Text(Seq<char>),
    List(Seq<Seq<char>>),
}

impl View for ConfigValue {
    type V = ConfigValueV;

    open spec fn view(&self) -> ConfigValueV {
        match self {
            ConfigValue::Null => ConfigValueV::Null,
            ConfigValue::Bool(b) => ConfigValueV::Bool(*b),
            ConfigValue::Number(n) => ConfigValueV::Number(*n),
            ConfigValue::Text(t) => ConfigValueV::Text(t@),
            ConfigValue::List(v) => ConfigValueV::List(texts(v@)),
        }
    }
}

/// An optional number as a value.
pub open spec fn number_or_null(o: Option<u64>) -> ConfigValueV {
    match o {
        Some(n) => ConfigValueV::Number(n),
        None => ConfigValueV::Null,
    }
}

/// An optional flag as a value.
pub open spec fn bool_or_null(o: Option<bool>) -> ConfigValueV {
    match o {
        Some(b) => ConfigValueV::Bool(b),
        None => ConfigValueV::Null,
    }
}

/// An optional word as a value.
pub open spec fn text_or_null(o: Option<Seq<char>>) -> ConfigValueV {
    match o {
        Some(t) => ConfigValueV::Text(t),
        None => ConfigValueV::Null,
    }
}

fn num_value(o: Option<u64>) -> (r: ConfigValue)
    ensures
        r@ == number_or_null(o),
{
    match o {
        Some(n) => ConfigValue::Number(n),
        None => ConfigValue::Null,
    }
}

fn bool_value(o: Option<bool>) -> (r: ConfigValue)
    ensures
        r@ == bool_or_null(o),
{
    match o {
        Some(b) => ConfigValue::Bool(b),
        None => ConfigValue::Null,
    }
}

fn text_value(o: &Option<String>) -> (r: ConfigValue)
    ensures
        r@ == text_or_null(opt_text(*o)),
{
    match o {
        Some(t) => ConfigValue::Text(t.clone()),
        None => ConfigValue::Null,
    }
}

// ---------------------------------------------------------------------------
// Words
// ---------------------------------------------------------------------------

/// The flag a word names: `true`/`yes`/`on`/`1` or `false`/`no`/`off`/`0`.
pub open spec fn bool_word(t: Seq<char>) -> Option<bool> {
    if t == "true"@ || t == "yes"@ || t == "on"@ || t == "1"@ {
        Some(true)
    } else if t == "false"@ || t == "no"@ || t == "off"@ || t == "0"@ {
        Some(false)
    } else {
        None
    }
}

/// `s` trimmed and in ASCII lowercase.
pub open spec fn folded(s: Seq<char>) -> Seq<char> {
    lower_seq(trim_spec(s))
}

/// "expected true/false, got '<word>'".
pub open spec fn bool_error(s: Seq<char>) -> Seq<char> {
    "expected true/false, got '"@ + folded(s) + "'"@
}

/// `s` trimmed and lowercased.
pub(crate) fn fold(s: &str) -> (r: String)
    ensures
        r@ == folded(s@),
{
    let t = trim(s);
    lower(t.as_str())
}

/// Parse a flag, case-insensitively and ignoring surrounding whitespace.
pub fn parse_bool(s: &str) -> (r: Result<bool, Error>)
    ensures
        match bool_word(folded(s@)) {
            Some(b) => r matches Ok(x) && x == b,
            None => r matches Err(Error::Message(m)) && m@ == bool_error(s@),
        },
{
    let t = fold(s);
    let w = t.as_str();
    if same(w, "true") || same(w, "yes") || same(w, "on") || same(w, "1") {
        Ok(true)
    } else if same(w, "false") || same(w, "no") || same(w, "off") || same(w, "0") {
        Ok(false)
    } else {
        Err(Error::Message(cat3("expected true/false, got '", w, "'")))
    }
}

/// The slug of an exposure.
pub open spec fn expose_name(e: Exposure) -> Seq<char> {
    match e {
        Exposure::Local => "none"@,
        Exposure::Tailscale => "tailscale"@,
        Exposure::Proxy => "proxy"@,
    }
}

/// The slug of an exposure: `none`, `tailscale` or `proxy`.
pub fn expose_slug(e: Exposure) -> (r: String)
    ensures
        r@ == expose_name(e),
{
    match e {
        Exposure::Local => owned("none"),
        Exposure::Tailscale => owned("tailscale"),
        Exposure::Proxy => owned("proxy"),
    }
}

/// The exposure a slug names.
pub open spec fn expose_of(s: Seq<char>) -> Option<Exposure> {
    if s == "none"@ {
        Some(Exposure::Local)
    } else if s == "tailscale"@ {
        Some(Exposure::Tailscale)
    } else if s == "proxy"@ {
        Some(Exposure::Proxy)
    } else {
        None
    }
}

/// "expose must be none|tailscale|proxy, got '<s>'".
pub open spec fn expose_error(s: Seq<char>) -> Seq<char> {
    "expose must be none|tailscale|proxy, got '"@ + s + "'"@
}

/// Parse an exposure slug (exactly `none`, `tailscale` or `proxy`).
pub fn parse_expose(s: &str) -> (r: Result<Exposure, Error>)
    ensures
        match expose_of(s@) {
            Some(e) => r matches Ok(x) && x == e,
            None => r matches Err(Error::Message(m)) && m@ == expose_error(s@),
        },
{
    if same(s, "none") {
        Ok(Exposure::Local)
    } else if same(s, "tailscale") {
        Ok(Exposure::Tailscale)
    } else if same(s, "proxy") {
        Ok(Exposure::Proxy)
    } else {
        Err(Error::Message(cat3("expose must be none|tailscale|proxy, got '", s, "'")))
    }
}

/// The slug of a starter.
pub open spec fn starter_name(s: Starter) -> Seq<char> {
    match s {
        Starter::Standard => "standard"@,
        Starter::ListsOnly => "lists"@,
        Starter::Empty => "empty"@,
    }
}

/// The slug of a starter: `standard`, `lists` or `empty`.
pub fn starter_slug(s: Starter) -> (r: String)
    ensures
        r@ == starter_name(s),
{
    match s {
        Starter::Standard => owned("standard"),
        Starter::ListsOnly => owned("lists"),
        Starter::Empty => owned("empty"),
    }
}

/// The starter a (folded) word names.
pub open spec fn starter_of(t: Seq<char>) -> Option<Starter> {
    if t == "standard"@ || t == "default"@ {
        Some(Starter::Standard)
    } else if t == "lists"@ || t == "lists-only"@ {
        Some(Starter::ListsOnly)
    } else if t == "empty"@ || t == "blank"@ || t == "none"@ {
        Some(Starter::Empty)
    } else {
        None
    }
}

/// "unknown starter '<word>' (use standard|lists|empty)".
pub open spec fn starter_error(s: Seq<char>) -> Seq<char> {
    "unknown starter '"@ + folded(s) + "' (use standard|lists|empty)"@
}

/// Parse a `--starter` value, case-insensitively and ignoring surrounding
/// whitespace.
pub fn parse_starter(s: &str) -> (r: Result<Starter, Error>)
    ensures
        match starter_of(folded(s@)) {
            Some(st) => r matches Ok(x) && x == st,
            None => r matches Err(Error::Message(m)) && m@ == starter_error(s@),
        },
{
    let t = fold(s);
    let w = t.as_str();
    if same(w, "standard") || same(w, "default") {
        Ok(Starter::Standard)
    } else if same(w, "lists") || same(w, "lists-only") {
        Ok(Starter::ListsOnly)
    } else if same(w, "empty") || same(w, "blank") || same(w, "none") {
        Ok(Starter::Empty)
    } else {
        Err(Error::Message(cat3("unknown starter '", w, "' (use standard|lists|empty)")))
    }
}

// ---------------------------------------------------------------------------
// A board's settings
// ---------------------------------------------------------------------------

/// "unknown config key '<key>'".
pub open spec fn unknown_key(key: Seq<char>) -> Seq<char> {
    "unknown config key '"@ + key + "'"@
}

/// The value of the board setting `key`, or `None` for an unknown key.
pub open spec fn setting_of(s: SettingsV, board_name: Seq<char>, key: Seq<char>) -> Option<ConfigValueV> {
    if key == "daemon.port"@ {
        Some(ConfigValueV::Number(s.daemon.port as u64))
    } else if key == "daemon.expose"@ {
        Some(ConfigValueV::Text(expose_name(s.daemon.expose)))
    } else if key == "daemon.autoserve"@ {
        Some(ConfigValueV::Bool(s.daemon.autoserve))
    } else if key == "daemon.idle_timeout"@ {
        Some(ConfigValueV::Number(s.daemon.idle_timeout_secs))
    } else if key == "board.name"@ {
        Some(ConfigValueV::Text(board_name))
    } else {
        None
    }
}

/// Read the board setting `key` (`daemon.port`, `daemon.expose`,
/// `daemon.autoserve`, `daemon.idle_timeout`, `board.name`).
pub fn config_get(store: &Store, key: &str) -> (r: Result<ConfigValue, Error>)
    ensures
        match setting_of(store@.settings, store@.board.name, key@) {
            Some(v) => r matches Ok(x) && x@ == v,
            None => r matches Err(Error::Message(m)) && m@ == unknown_key(key@),
        },
{
    let settings = store.load_settings();
    if same(key, "daemon.port") {
        Ok(ConfigValue::Number(settings.daemon.port as u64))
    } else if same(key, "daemon.expose") {
        Ok(ConfigValue::Text(expose_slug(settings.daemon.expose)))
    } else if same(key, "daemon.autoserve") {
        Ok(ConfigValue::Bool(settings.daemon.autoserve))
    } else if same(key, "daemon.idle_timeout") {
        Ok(ConfigValue::Number(settings.daemon.idle_timeout_secs))
    } else if same(key, "board.name") {
        Ok(ConfigValue::Text(store.board().name.clone()))
    } else {
        Err(Error::Message(cat3("unknown config key '", key, "'")))
    }
}

/// "port must be a number 0-65535: <why>".
pub open spec fn port_error(e: NumError) -> Seq<char> {
    "port must be a number 0-65535: "@ + num_error_text(e)
}

/// "idle_timeout must be seconds (a number): <why>".
pub open spec fn idle_error(e: NumError) -> Seq<char> {
    "idle_timeout must be seconds (a number): "@ + num_error_text(e)
}

/// The store with its daemon settings replaced by `d`.
pub open spec fn with_daemon(s: StoreV, d: crate::model::DaemonSettings) -> StoreV {
    StoreV { settings: SettingsV { daemon: d, ..s.settings }, ..s }
}

/// What setting the board setting `key` to `value` at `now` does: the new store,
/// or the error message.
pub open spec fn config_set_spec(s: StoreV, key: Seq<char>, value: Seq<char>, now: Timestamp) -> Result<StoreV, Seq<char>> {
    let d = s.settings.daemon;
    if key == "daemon.port"@ {
        match parse_uint_spec(value, 65535) {
            Ok(n) => Ok(with_daemon(s, crate::model::DaemonSettings { port: n as u16, ..d })),
            Err(e) => Err(port_error(e)),
        }
    } else if key == "daemon.expose"@ {
        match expose_of(value) {
            Some(e) => Ok(with_daemon(s, crate::model::DaemonSettings { expose: e, ..d })),
            None => Err(expose_error(value)),
        }
    } else if key == "daemon.autoserve"@ {
        match bool_word(folded(value)) {
            Some(b) => Ok(with_daemon(s, crate::model::DaemonSettings { autoserve: b, ..d })),
            None => Err(bool_error(value)),
        }
    } else if key == "daemon.idle_timeout"@ {
        match parse_uint_spec(value, u64::MAX as nat) {
            Ok(n) => Ok(with_daemon(s, crate::model::DaemonSettings { idle_timeout_secs: n as u64, ..d })),
            Err(e) => Err(idle_error(e)),
        }
    } else if key == "board.name"@ {
        Ok(with_board(s, BoardV { name: value, updated: now, ..s.board }))
    } else {
        Err(unknown_key(key))
    }
}

/// Write the board setting `key` (see [`config_get`]); renaming the board
/// stamps it with `now`.
pub fn config_set(store: &mut Store, key: &str, value: &str, now: Timestamp) -> (r: Result<(), Error>)
    requires
        old(store).wf(),
    ensures
        final(store).wf(),
        match config_set_spec(old(store)@, key@, value@, now) {
            Ok(s) => r is Ok && final(store)@ == s,
            Err(m) => (r matches Err(Error::Message(x)) && x@ == m) && final(store)@ == old(store)@,
        },
{
    let mut settings = store.load_settings();
    if same(key, "daemon.port") {
        match parse_uint(value, 65535) {
            Ok(n) => {
                settings.daemon.port = n as u16;
            },
            Err(e) => {
                return Err(Error::Message(cat("port must be a number 0-65535: ", num_error_message(e).as_str())));
            },
        }
    } else if same(key, "daemon.expose") {
        match parse_expose(value) {
            Ok(e) => {
                settings.daemon.expose = e;
            },
            Err(e) => {
                return Err(e);
            },
        }
    } else if same(key, "daemon.autoserve") {
        match parse_bool(value) {
            Ok(b) => {
                settings.daemon.autoserve = b;
            },
            Err(e) => {
                return Err(e);
            },
        }
    } else if same(key, "daemon.idle_timeout") {
        match parse_uint(value, u64::MAX) {
            Ok(n) => {
                settings.daemon.idle_timeout_secs = n;
            },
            Err(e) => {
                return Err(Error::Message(cat("idle_timeout must be seconds (a number): ", num_error_message(e).as_str())));
            },
        }
    } else if same(key, "board.name") {
        let mut b = store.load_board();
        b.name = owned(value);
        b.updated = now;
        store.save_board(&b);
        return Ok(());
    } else {
        return Err(Error::Message(cat3("unknown config key '", key, "'")));
    }
    store.save_settings(&settings);
    Ok(())
}

// ---------------------------------------------------------------------------
// The user-global defaults
// ---------------------------------------------------------------------------

/// "unknown global key '<key>'".
pub open spec fn unknown_global(key: Seq<char>) -> Seq<char> {
    "unknown global key '"@ + key + "'"@
}

/// The value of the global default `key`, or `None` for an unknown key.
pub open spec fn global_of(g: GlobalConfigV, key: Seq<char>) -> Option<ConfigValueV> {
    if key == "default.port"@ {
        Some(number_or_null(match g.default_port { Some(p) => Some(p as u64), None => None }))
    } else if key == "default.expose"@ {
        Some(text_or_null(match g.default_expose { Some(e) => Some(expose_name(e)), None => None }))
    } else if key == "autoserve"@ {
        Some(bool_or_null(g.autoserve))
    } else if key == "idle"@ {
        Some(number_or_null(g.idle_timeout_secs))
    } else if key == "autostart"@ {
        Some(bool_or_null(g.autostart))
    } else if key == "starter"@ {
        Some(text_or_null(match g.starter { Some(s) => Some(starter_name(s)), None => None }))
    } else if key == "skill.target"@ {
        Some(text_or_null(g.skill_target))
    } else if key == "skill.global"@ {
        Some(bool_or_null(g.skill_global))
    } else if key == "ui.accent"@ {
        Some(text_or_null(g.ui_accent))
    } else if key == "ui.theme"@ {
        Some(text_or_null(g.ui_theme))
    } else if key == "identity.default"@ {
        Some(text_or_null(g.default_identity))
    } else if key == "identity.prefer"@ {
        Some(bool_or_null(g.prefer_default_identity))
    } else if key == "scan.roots"@ {
        Some(match g.scan_roots { Some(r) => ConfigValueV::List(r), None => ConfigValueV::Null })
    } else {
        None
    }
}

/// Read the global default `key`.
pub fn global_get(g: &GlobalConfig, key: &str) -> (r: Result<ConfigValue, Error>)
    ensures
        match global_of(g@, key@) {
            Some(v) => r matches Ok(x) && x@ == v,
            None => r matches Err(Error::Message(m)) && m@ == unknown_global(key@),
        },
{
    if same(key, "default.port") {
        Ok(num_value(match g.default_port { Some(p) => Some(p as u64), None => None }))
    } else if same(key, "default.expose") {
        Ok(match g.default_expose { Some(e) => ConfigValue::Text(expose_slug(e)), None => ConfigValue::Null })
    } else if same(key, "autoserve") {
        Ok(bool_value(g.autoserve))
    } else if same(key, "idle") {
        Ok(num_value(g.idle_timeout_secs))
    } else if same(key, "autostart") {
        Ok(bool_value(g.autostart))
    } else if same(key, "starter") {
        Ok(match g.starter { Some(s) => ConfigValue::Text(starter_slug(s)), None => ConfigValue::Null })
    } else if same(key, "skill.target") {
        Ok(text_value(&g.skill_target))
    } else if same(key, "skill.global") {
        Ok(bool_value(g.skill_global))
    } else if same(key, "ui.accent") {
        Ok(text_value(&g.ui_accent))
    } else if same(key, "ui.theme") {
        Ok(text_value(&g.ui_theme))
    } else if same(key, "identity.default") {
        Ok(text_value(&g.default_identity))
    } else if same(key, "identity.prefer") {
        Ok(bool_value(g.prefer_default_identity))
    } else if same(key, "scan.roots") {
        Ok(match &g.scan_roots {
            Some(r) => ConfigValue::List(crate::model::clone_strings(r)),
            None => ConfigValue::Null,
        })
    } else {
        Err(Error::Message(cat3("unknown global key '", key, "'")))
    }
}

/// `ws` joined with `sep` between neighbours.
pub open spec fn joined(ws: Seq<Seq<char>>, sep: char) -> Seq<char>
    decreases ws.len(),
{
    if ws.len() == 0 {
        Seq::empty()
    } else if ws.len() == 1 {
        ws[0]
    } else {
        joined(ws.drop_last(), sep) + seq![sep] + ws.last()
    }
}

/// Join `ws` with `sep` between neighbours.
pub fn join_with(ws: &Vec<String>, sep: char) -> (r: String)
    ensures
        r@ == joined(texts(ws@), sep),
{
    let mut cs: Vec<char> = Vec::new();
    let mut i: usize = 0;
    while i < ws.len()
        invariant
            i <= ws@.len(),
            cs@ == joined(texts(ws@).subrange(0, i as int), sep),
        decreases ws@.len() - i,
    {
        let ghost before = cs@;
        let ghost next = texts(ws@).subrange(0, i + 1);
        assert(next.drop_last() =~= texts(ws@).subrange(0, i as int));
        if i > 0 {
            cs.push(sep);
        }
        let w = chars_of(ws[i].as_str());
        let ghost mid = cs@;
        let mut k: usize = 0;
        while k < w.len()
            invariant
                k <= w@.len(),
                cs@ == mid + w@.subrange(0, k as int),
            decreases w@.len() - k,
        {
            cs.push(w[k]);
            assert(cs@ =~= mid + w@.subrange(0, k + 1));
            k = k + 1;
        }
        assert(w@.subrange(0, w@.len() as int) =~= w@);
        proof {
            if i == 0 {
                assert(cs@ =~= next[0]);
            } else {
                assert(cs@ =~= before + seq![sep] + next.last());
            }
        }
        i = i + 1;
    }
    assert(texts(ws@).subrange(0, ws@.len() as int) =~= texts(ws@));
    string_of(cs.as_slice())
}

/// `s` with every `;` read as `,`.
pub open spec fn commas(s: Seq<char>) -> Seq<char> {
    s.map_values(|c: char| if c == ';' { ',' } else { c })
}

/// The directories a `scan.roots` value lists: split on `,` or `;`, trimmed,
/// blanks dropped.
pub open spec fn roots_of(value: Seq<char>) -> Seq<Seq<char>> {
    crate::parse::nonblank_trimmed(crate::parse::split_spec(commas(value), ','))
}

fn split_roots(value: &str) -> (r: Vec<String>)
    ensures
        texts(r@) == roots_of(value@),
{
    let cs = chars_of(value);
    let mut out: Vec<char> = Vec::new();
    let mut i: usize = 0;
    while i < cs.len()
        invariant
            cs@ == value@,
            i <= cs@.len(),
            out@ == commas(value@.subrange(0, i as int)),
        decreases cs@.len() - i,
    {
        out.push(if cs[i] == ';' { ',' } else { cs[i] });
        assert(out@ =~= commas(value@.subrange(0, i + 1)));
        i = i + 1;
    }
    assert(value@.subrange(0, i as int) =~= value@);
    let s = string_of(out.as_slice());
    let pieces = crate::parse::split_char(s.as_str(), ',');
    crate::parse::trimmed_nonblank(&pieces)
}

/// "skill.target must be <a>|<b>|...".
pub open spec fn target_error(targets: Seq<Seq<char>>) -> Seq<char> {
    "skill.target must be "@ + joined(targets, '|')
}

/// The accent colours the UI knows.
pub open spec fn accent_ok(v: Seq<char>) -> bool {
    v == "book-cloth"@ || v == "kraft"@ || v == "focus"@ || v == "sage"@
}

/// The themes the UI knows.
pub open spec fn theme_ok(v: Seq<char>) -> bool {
    v == "light"@ || v == "dark"@ || v == "system"@
}

/// What setting the global default `key` to `value` does: the new defaults, or
/// the error message. `targets` are the names of the skill install targets.
pub open spec fn global_set_spec(g: GlobalConfigV, key: Seq<char>, value: Seq<char>, targets: Seq<Seq<char>>) -> Result<GlobalConfigV, Seq<char>> {
    if key == "default.port"@ {
        match parse_uint_spec(value, 65535) {
            Ok(n) => Ok(GlobalConfigV { default_port: Some(n as u16), ..g }),
            Err(e) => Err("port must be 0-65535: "@ + num_error_text(e)),
        }
    } else if key == "default.expose"@ {
        match expose_of(value) {
            Some(e) => Ok(GlobalConfigV { default_expose: Some(e), ..g }),
            None => Err(expose_error(value)),
        }
    } else if key == "autoserve"@ {
        match bool_word(folded(value)) {
            Some(b) => Ok(GlobalConfigV { autoserve: Some(b), ..g }),
            None => Err(bool_error(value)),
        }
    } else if key == "idle"@ {
        match parse_uint_spec(value, u64::MAX as nat) {
            Ok(n) => Ok(GlobalConfigV { idle_timeout_secs: Some(n as u64), ..g }),
            Err(e) => Err("idle must be seconds: "@ + num_error_text(e)),
        }
    } else if key == "autostart"@ {
        match bool_word(folded(value)) {
            Some(b) => Ok(GlobalConfigV { autostart: Some(b), ..g }),
            None => Err(bool_error(value)),
        }
    } else if key == "starter"@ {
        match starter_of(folded(value)) {
            Some(s) => Ok(GlobalConfigV { starter: Some(s), ..g }),
            None => Err(starter_error(value)),
        }
    } else if key == "skill.target"@ {
        if targets.contains(value) {
            Ok(GlobalConfigV { skill_target: Some(value), ..g })
        } else {
            Err(target_error(targets))
        }
    } else if key == "skill.global"@ {
        match bool_word(folded(value)) {
            Some(b) => Ok(GlobalConfigV { skill_global: Some(b), ..g }),
            None => Err(bool_error(value)),
        }
    } else if key == "ui.accent"@ {
        if accent_ok(value) {
            Ok(GlobalConfigV { ui_accent: Some(value), ..g })
        } else {
            Err("ui.accent must be book-cloth|kraft|focus|sage"@)
        }
    } else if key == "ui.theme"@ {
        if theme_ok(value) {
            Ok(GlobalConfigV { ui_theme: Some(value), ..g })
        } else {
            Err("ui.theme must be light|dark|system"@)
        }
    } else if key == "identity.default"@ {
        if trim_spec(value).len() == 0 {
            Err("identity.default cannot be empty (use e.g. 'human')"@)
        } else {
            Ok(GlobalConfigV { default_identity: Some(value), ..g })
        }
    } else if key == "identity.prefer"@ {
        match bool_word(folded(value)) {
            Some(b) => Ok(GlobalConfigV { prefer_default_identity: Some(b), ..g }),
            None => Err(bool_error(value)),
        }
    } else if key == "scan.roots"@ {
        if roots_of(value).len() == 0 {
            Ok(GlobalConfigV { scan_roots: None, ..g })
        } else {
            Ok(GlobalConfigV { scan_roots: Some(roots_of(value)), ..g })
        }
    } else {
        Err(unknown_global(key))
    }
}

/// Set the global default `key` to `value`. `targets` are the names of the
/// skill install targets, which `skill.target` must be one of.
pub fn global_set(g: &mut GlobalConfig, key: &str, value: &str, targets: &Vec<String>) -> (r: Result<(), Error>)
    ensures
        match global_set_spec(old(g)@, key@, value@, texts(targets@)) {
            Ok(n) => r is Ok && final(g)@ == n,
            Err(m) => (r matches Err(Error::Message(x)) && x@ == m) && final(g)@ == old(g)@,
        },
{
    if same(key, "default.port") {
        match parse_uint(value, 65535) {
            Ok(n) => {
                g.default_port = Some(n as u16);
            },
            Err(e) => {
                return Err(Error::Message(cat("port must be 0-65535: ", num_error_message(e).as_str())));
            },
        }
    } else if same(key, "default.expose") {
        match parse_expose(value) {
            Ok(e) => {
                g.default_expose = Some(e);
            },
            Err(e) => {
                return Err(e);
            },
        }
    } else if same(key, "autoserve") {
        match parse_bool(value) {
            Ok(b) => {
                g.autoserve = Some(b);
            },
            Err(e) => {
                return Err(e);
            },
        }
    } else if same(key, "idle") {
        match parse_uint(value, u64::MAX) {
            Ok(n) => {
                g.idle_timeout_secs = Some(n);
            },
            Err(e) => {
                return Err(Error::Message(cat("idle must be seconds: ", num_error_message(e).as_str())));
            },
        }
    } else if same(key, "autostart") {
        match parse_bool(value) {
            Ok(b) => {
                g.autostart = Some(b);
            },
            Err(e) => {
                return Err(e);
            },
        }
    } else if same(key, "starter") {
        match parse_starter(value) {
            Ok(s) => {
                g.starter = Some(s);
            },
            Err(e) => {
                return Err(e);
            },
        }
    } else if same(key, "skill.target") {
        if crate::inbox::has_ref(targets, value) {
            g.skill_target = Some(owned(value));
        } else {
            return Err(Error::Message(cat("skill.target must be ", join_with(targets, '|').as_str())));
        }
    } else if same(key, "skill.global") {
        match parse_bool(value) {
            Ok(b) => {
                g.skill_global = Some(b);
            },
            Err(e) => {
                return Err(e);
            },
        }
    } else if same(key, "ui.accent") {
        if same(value, "book-cloth") || same(value, "kraft") || same(value, "focus") || same(value, "sage") {
            g.ui_accent = Some(owned(value));
        } else {
            return Err(Error::Message(owned("ui.accent must be book-cloth|kraft|focus|sage")));
        }
    } else if same(key, "ui.theme") {
        if same(value, "light") || same(value, "dark") || same(value, "system") {
            g.ui_theme = Some(owned(value));
        } else {
            return Err(Error::Message(owned("ui.theme must be light|dark|system")));
        }
    } else if same(key, "identity.default") {
        if crate::text::is_blank(value) {
            return Err(Error::Message(owned("identity.default cannot be empty (use e.g. 'human')")));
        }
        g.default_identity = Some(owned(value));
    } else if same(key, "identity.prefer") {
        match parse_bool(value) {
            Ok(b) => {
                g.prefer_default_identity = Some(b);
            },
            Err(e) => {
                return Err(e);
            },
        }
    } else if same(key, "scan.roots") {
        let roots = split_roots(value);
        if roots.len() == 0 {
            g.scan_roots = None;
        } else {
            g.scan_roots = Some(roots);
        }
    } else {
        return Err(Error::Message(cat3("unknown global key '", key, "'")));
    }
    Ok(())
}

} // verus!
