//! The decisions of the command line: durations and dates as the flags give
//! them, the execution mode, the ranking window and its hints, and the
//! wording of errors.
//!
//! Times are instants: seconds since the Unix epoch and nanoseconds.

use vstd::prelude::*;
use crate::text::{
    char_is_digit, char_is_hex, chars_of, decimal, decimal_string, duration_capture_pattern,
    is_ascii_duration, is_digit_char, is_hex_char, regex_is_match, regex_matches,
};
use crate::signals::{elapsed_seconds, parse_rfc3339, rfc3339_instant, whole_seconds_between};
use crate::time_window::iso_date_midnight;

verus! {

/// Custom duration type for parsing time spans
#[derive(Debug, Clone, Copy, PartialEq, Eq, Structural)]
pub enum Duration {
    Hours(u64),
    Days(u64),
    Weeks(u64),
}

/// The length of a duration in seconds.
pub open spec fn duration_seconds(d: Duration) -> int {
    match d {
        Duration::Hours(h) => h * 3600,
        Duration::Days(n) => n * 24 * 3600,
        Duration::Weeks(w) => w * 7 * 24 * 3600,
    }
}

/// The `std::time::Duration` of a number of whole seconds.
pub uninterp spec fn std_duration_of_secs(secs: u64) -> std::time::Duration;

/// Runs `std::time::Duration::from_secs`.
///
/// Claims only that the result is that of `from_secs` on this number.
#[verifier::external_body]
fn std_duration_from_secs(secs: u64) -> (r: std::time::Duration)
    ensures
        r == std_duration_of_secs(secs),
{
    std::time::Duration::from_secs(secs)
}

impl Duration {
    /// The length in seconds, when it fits in 64 bits.
    pub fn total_seconds(&self) -> (r: Option<u64>)
        ensures
            r matches Some(s) ==> s == duration_seconds(*self),
            r is None <==> duration_seconds(*self) > u64::MAX,
    {
        match self {
            Duration::Hours(h) => {
                let h: u64 = *h;
                if h <= u64::MAX / 3600 { Some(h * 3600) } else { None }
            },
            Duration::Days(d) => {
                let d: u64 = *d;
                if d <= u64::MAX / 86400 { Some(d * 86400) } else { None }
            },
            Duration::Weeks(w) => {
                let w: u64 = *w;
                if w <= u64::MAX / 604800 { Some(w * 604800) } else { None }
            },
        }
    }

    /// Convert to standard duration for internal use
    pub fn to_std_duration(&self) -> (r: std::time::Duration)
        requires
            duration_seconds(*self) <= u64::MAX,
        ensures
            r == std_duration_of_secs(duration_seconds(*self) as u64),
    {
        let secs = match self {
            Duration::Hours(h) => h * 3600,
            Duration::Days(d) => d * 24 * 3600,
            Duration::Weeks(w) => w * 7 * 24 * 3600,
        };
        std_duration_from_secs(secs)
    }
}

/// A date given on the command line.
#[derive(Debug, Clone, PartialEq, Eq)]
pub enum DateSpec {
    /// A calendar date, `YYYY-MM-DD`, kept as written.
    Iso8601(String),
    /// An RFC 3339 time, as seconds since the epoch and nanoseconds.
    Rfc3339 { secs: i64, nanos: u32 },
}

/// Execution mode with precedence order
#[derive(Debug, Clone, PartialEq, Eq)]
pub enum Mode {
    /// --init: install templates/snippets (highest precedence)
    Init,
    /// --doctor: read-only diagnostics
    Doctor,
    /// --scan: scan-only, no rankings
    Scan,
    /// sha:<sha>: explain mode for specific culprit
    Explain(String),
    /// default: incremental scan + ranking (lowest precedence)
    Default,
}

/// Why a command-line value was refused.
#[derive(Debug, Clone, PartialEq, Eq)]
pub enum CliError {
    /// Not digits followed by `h`, `d` or `w`.
    InvalidDuration(String),
    /// The digits of a duration are no 64-bit number.
    InvalidNumber,
    /// The unit of a duration is not `h`, `d` or `w`.
    InvalidUnit,
    /// A duration in the configuration file, with its field.
    ConfigDuration { field: String, value: String },
    /// Neither `YYYY-MM-DD` nor RFC 3339.
    InvalidDate(String),
    /// `sha:` is followed by other than 4 to 40 hexadecimal digits.
    InvalidSha(String),
    /// The argument does not start with `sha:`.
    MissingShaPrefix(String),
    /// A pattern of this crate could not be compiled.
    PatternUnavailable,
}

/// The message of a command-line error.
pub open spec fn cli_error_text(e: CliError) -> Seq<char> {
    match e {
        CliError::InvalidDuration(s) => "Invalid duration format: '"@ + s@
            + "'. Expected format like '30d', '2w', '12h'"@,
        CliError::InvalidNumber => "Invalid number in duration"@,
        CliError::InvalidUnit => "Invalid duration unit: expected 'h', 'd', or 'w'"@,
        CliError::ConfigDuration { field, .. } => "Invalid config duration for "@ + field@,
        CliError::InvalidDate(s) => "Invalid date format: '"@ + s@
            + "'. Expected YYYY-MM-DD or RFC3339 format"@,
        CliError::InvalidSha(s) => "Invalid SHA format: '"@ + s@
            + "'. Expected 4-40 hex characters after 'sha:'"@,
        CliError::MissingShaPrefix(s) => "Invalid SHA argument: '"@ + s@
            + "'. Expected format 'sha:<sha>'"@,
        CliError::PatternUnavailable => "regex pattern failed to compile"@,
    }
}

impl CliError {
    /// The message the tool prints for the error.
    pub fn message(&self) -> (r: String)
        ensures
            r@ == cli_error_text(*self),
    {
        match self {
            CliError::InvalidDuration(s) => {
                let mut m = "Invalid duration format: '".to_string();
                m.append(s.as_str());
                m.append("'. Expected format like '30d', '2w', '12h'");
                m
            },
            CliError::InvalidNumber => "Invalid number in duration".to_string(),
            CliError::InvalidUnit => "Invalid duration unit: expected 'h', 'd', or 'w'".to_string(),
            CliError::ConfigDuration { field, .. } => {
                let mut m = "Invalid config duration for ".to_string();
                m.append(field.as_str());
                m
            },
            CliError::InvalidDate(s) => {
                let mut m = "Invalid date format: '".to_string();
                m.append(s.as_str());
                m.append("'. Expected YYYY-MM-DD or RFC3339 format");
                m
            },
            CliError::InvalidSha(s) => {
                let mut m = "Invalid SHA format: '".to_string();
                m.append(s.as_str());
                m.append("'. Expected 4-40 hex characters after 'sha:'");
                m
            },
            CliError::MissingShaPrefix(s) => {
                let mut m = "Invalid SHA argument: '".to_string();
                m.append(s.as_str());
                m.append("'. Expected format 'sha:<sha>'");
                m
            },
            CliError::PatternUnavailable => "regex pattern failed to compile".to_string(),
        }
    }
}

// ---------------------------------------------------------------------------
// Durations
// ---------------------------------------------------------------------------

/// The number that a string of ASCII digits writes.
pub open spec fn digits_value(s: Seq<char>) -> nat
    decreases s.len(),
{
    if s.len() == 0 {
        0
    } else {
        digits_value(s.drop_last()) * 10 + ((s.last() as u32) - 48) as nat
    }
}

/// The duration that a text writes: ASCII digits, a 64-bit number, then
/// `h`, `d` or `w`.
pub open spec fn duration_value(s: Seq<char>) -> Option<Duration> {
    if s.len() >= 2 && (forall|i: int| 0 <= i < s.len() - 1 ==> is_digit_char(#[trigger] s[i]))
        && digits_value(s.drop_last()) <= u64::MAX {
        let n = digits_value(s.drop_last()) as u64;
        if s.last() == 'h' {
            Some(Duration::Hours(n))
        } else if s.last() == 'd' {
            Some(Duration::Days(n))
        } else if s.last() == 'w' {
            Some(Duration::Weeks(n))
        } else {
            None
        }
    } else {
        None
    }
}

/// Reads the ASCII digits of `cs[..end]` as a 64-bit number.
fn parse_digits(cs: &Vec<char>, end: usize) -> (r: Option<u64>)
    requires
        end <= cs@.len(),
    ensures
        r matches Some(n) ==> (forall|i: int| 0 <= i < end ==> is_digit_char(#[trigger] cs@[i]))
            && n == digits_value(cs@.take(end as int)),
        r is None ==> !(forall|i: int| 0 <= i < end ==> is_digit_char(#[trigger] cs@[i]))
            || digits_value(cs@.take(end as int)) > u64::MAX,
{
    let mut v: u64 = 0;
    let mut k: usize = 0;
    assert(cs@.take(0) == Seq::<char>::empty());
    while k < end
        invariant
            k <= end <= cs@.len(),
            forall|i: int| 0 <= i < k ==> is_digit_char(#[trigger] cs@[i]),
            v == digits_value(cs@.take(k as int)),
        decreases end - k,
    {
        let c = cs[k];
        if !char_is_digit(c) {
            return None;
        }
        let d = (c as u32 - 48) as u64;
        assert(cs@.take(k as int + 1).drop_last() == cs@.take(k as int));
        let next = match v.checked_mul(10) {
            Some(x) => x.checked_add(d),
            None => None,
        };
        match next {
            Some(x) => {
                v = x;
            },
            None => {
                proof {
                    if forall|i: int| 0 <= i < end ==> is_digit_char(#[trigger] cs@[i]) {
                        lemma_digits_value_grows(cs@, k as int + 1, end as int);
                    }
                }
                return None;
            },
        }
        k = k + 1;
    }
    Some(v)
}

proof fn lemma_digits_value_grows(s: Seq<char>, k: int, end: int)
    requires
        0 <= k <= end <= s.len(),
        forall|i: int| 0 <= i < end ==> is_digit_char(#[trigger] s[i]),
    ensures
        digits_value(s.take(k)) <= digits_value(s.take(end)),
    decreases end - k,
{
    if k < end {
        lemma_digits_value_grows(s, k + 1, end);
        assert(s.take(k + 1).drop_last() == s.take(k));
    }
}

/// Parse duration strings like "30d", "2w", "12h".
///
/// The text must match `^(\d+)([hdw])$`; its digits must then be ASCII and
/// make a 64-bit number.
pub fn parse_duration(s: &str) -> (r: Result<Duration, CliError>)
    ensures
        r matches Ok(d) ==> regex_matches(duration_capture_pattern(), s@) && duration_value(s@)
            == Some(d),
        r matches Err(CliError::InvalidDuration(t)) ==> t@ == s@ && !regex_matches(
            duration_capture_pattern(),
            s@,
        ),
        r matches Err(CliError::InvalidNumber) ==> regex_matches(duration_capture_pattern(), s@)
            && duration_value(s@) is None,
        r is Err ==> (r matches Err(CliError::InvalidDuration(_))) || (r matches Err(
            CliError::InvalidNumber,
        )) || (r matches Err(CliError::InvalidUnit)) || (r matches Err(
            CliError::PatternUnavailable,
        )),
        !(r matches Err(CliError::PatternUnavailable)),
        vstd::utf8::is_ascii_chars(s@) && !(r matches Err(CliError::PatternUnavailable)) ==> (
        r is Ok <==> duration_value(s@) is Some),
{
    let matched = match regex_is_match("^(\\d+)([hdw])$", s) {
        Some(b) => b,
        None => return Err(CliError::PatternUnavailable),
    };
    if !matched {
        return Err(CliError::InvalidDuration(s.to_string()));
    }
    let cs = chars_of(s);
    if cs.len() < 2 {
        return Err(CliError::InvalidNumber);
    }
    let last = cs.len() - 1;
    let n = match parse_digits(&cs, last) {
        Some(n) => n,
        None => return Err(CliError::InvalidNumber),
    };
    assert(cs@.take(last as int) == s@.drop_last());
    let unit = cs[last];
    if unit == 'h' {
        Ok(Duration::Hours(n))
    } else if unit == 'd' {
        Ok(Duration::Days(n))
    } else if unit == 'w' {
        Ok(Duration::Weeks(n))
    } else {
        Err(CliError::InvalidUnit)
    }
}

/// Parse a duration of the configuration file, naming the field on failure.
pub fn parse_duration_config(value: &str, field: &str) -> (r: Result<Duration, CliError>)
    ensures
        r matches Ok(d) ==> regex_matches(duration_capture_pattern(), value@) && duration_value(
            value@,
        ) == Some(d),
        r matches Err(CliError::ConfigDuration { field: f, value: v }) ==> f@ == field@ && v@
            == value@,
        r is Err ==> (r matches Err(CliError::ConfigDuration { .. })) || (r matches Err(
            CliError::PatternUnavailable,
        )),
        !(r matches Err(CliError::PatternUnavailable)) ==> (r is Ok <==> regex_matches(
            duration_capture_pattern(),
            value@,
        ) && duration_value(value@) is Some),
        !(r matches Err(CliError::PatternUnavailable)),
{
    match parse_duration(value) {
        Ok(d) => Ok(d),
        Err(CliError::PatternUnavailable) => Err(CliError::PatternUnavailable),
        Err(_) => Err(CliError::ConfigDuration { field: field.to_string(), value: value.to_string() }),
    }
}

// ---------------------------------------------------------------------------
// Dates
// ---------------------------------------------------------------------------

/// Whether chrono's `NaiveDate::parse_from_str(s, "%Y-%m-%d")` accepts a text.
pub uninterp spec fn iso_date_parses(s: Seq<char>) -> bool;

/// Runs `chrono::NaiveDate::parse_from_str(text, "%Y-%m-%d")`.
///
/// Claims that the answer is chrono's on this text, and that an accepted
/// date has a midnight instant (`and_hms_opt(0, 0, 0)` is never `None`).
#[verifier::external_body]
fn iso_date_accepted(text: &str) -> (r: bool)
    ensures
        r == iso_date_parses(text@),
        r ==> iso_date_midnight(text@) is Some,
{
    chrono::NaiveDate::parse_from_str(text, "%Y-%m-%d").is_ok()
}

/// Parse date strings in RFC 3339 (tried first) or `YYYY-MM-DD` format.
pub fn parse_date(s: &str) -> (r: Result<DateSpec, CliError>)
    ensures
        rfc3339_instant(s@) matches Some(t) ==> (r matches Ok(DateSpec::Rfc3339 { secs, nanos })
            && secs == t.0 && nanos == t.1),
        rfc3339_instant(s@) is None && iso_date_parses(s@) ==> (r matches Ok(DateSpec::Iso8601(d))
            && d@ == s@ && iso_date_midnight(d@) is Some),
        rfc3339_instant(s@) is None && !iso_date_parses(s@) ==> (r matches Err(
            CliError::InvalidDate(t),
        ) && t@ == s@),
{
    if let Some((secs, nanos)) = parse_rfc3339(s) {
        return Ok(DateSpec::Rfc3339 { secs, nanos });
    }
    if iso_date_accepted(s) {
        return Ok(DateSpec::Iso8601(s.to_string()));
    }
    Err(CliError::InvalidDate(s.to_string()))
}

// ---------------------------------------------------------------------------
// SHA argument
// ---------------------------------------------------------------------------

/// The SHA of an argument `sha:<sha>`: 4 to 40 hexadecimal digits.
pub open spec fn sha_arg_value(s: Seq<char>) -> Option<Seq<char>> {
    let rest = s.skip(4);
    if s.len() >= 4 && s.take(4) == "sha:"@ && 4 <= rest.len() <= 40 && (forall|i: int|
        0 <= i < rest.len() ==> is_hex_char(#[trigger] rest[i])) {
        Some(rest)
    } else {
        None
    }
}

/// Parse SHA format (sha:<sha>).
pub fn parse_sha_arg(s: &str) -> (r: Result<String, CliError>)
    ensures
        sha_arg_value(s@) matches Some(v) ==> (r matches Ok(t) && t@ == v),
        sha_arg_value(s@) is None && s@.len() >= 4 && s@.take(4) == "sha:"@ ==> (r matches Err(
            CliError::InvalidSha(t),
        ) && t@ == s@),
        !(s@.len() >= 4 && s@.take(4) == "sha:"@) ==> (r matches Err(CliError::MissingShaPrefix(t))
            && t@ == s@),
{
    proof {
        reveal_strlit("sha:");
    }
    let cs = chars_of(s);
    let has_prefix = cs.len() >= 4 && cs[0] == 's' && cs[1] == 'h' && cs[2] == 'a' && cs[3] == ':';
    assert(has_prefix == (s@.len() >= 4 && s@.take(4) == "sha:"@)) by {
        if s@.len() >= 4 {
            if s@.take(4) == "sha:"@ {
                assert(s@.take(4)[0] == 's' && s@.take(4)[1] == 'h');
                assert(s@.take(4)[2] == 'a' && s@.take(4)[3] == ':');
            }
            if has_prefix {
                assert(s@.take(4) =~= "sha:"@);
            }
        }
    }
    if !has_prefix {
        return Err(CliError::MissingShaPrefix(s.to_string()));
    }
    let n = cs.len() - 4;
    let ghost rest = s@.skip(4);
    if n < 4 || n > 40 {
        return Err(CliError::InvalidSha(s.to_string()));
    }
    let mut out = String::new();
    let mut k: usize = 4;
    while k < cs.len()
        invariant
            4 <= k <= cs@.len(),
            cs@ == s@,
            s@.len() >= 4 && s@.take(4) == "sha:"@,
            rest == s@.skip(4),
            forall|i: int| 0 <= i < k - 4 ==> is_hex_char(#[trigger] rest[i]),
            out@ == rest.take(k - 4),
        decreases cs.len() - k,
    {
        let c = cs[k];
        if !char_is_hex(c) {
            assert(rest[k - 4] == c);
            return Err(CliError::InvalidSha(s.to_string()));
        }
        crate::text::push_char(&mut out, c);
        k = k + 1;
        assert(out@ =~= rest.take(k - 4));
    }
    assert(rest.take(rest.len() as int) == rest);
    Ok(out)
}

// ---------------------------------------------------------------------------
// Mode
// ---------------------------------------------------------------------------

/// Main CLI configuration
#[derive(Debug, Default)]
pub struct Config {
    // Core modes
    pub init: bool,
    pub force: bool,
    pub scan: bool,
    pub all: bool,
    pub doctor: bool,
    pub deep: bool,
    pub no_scan: bool,
    // Time filtering
    pub since: Option<Duration>,
    pub until: Option<DateSpec>,
    // Output filtering
    pub limit: Option<u32>,
    /// Minimum confidence, in basis points (10000 is 1.0)
    pub min_confidence_bp: Option<u32>,
    // Output format
    pub table: bool,
    pub ndjson: bool,
    pub debug: bool,
    // Policy gates
    pub fail_if: Option<String>,
    // Positional
    pub sha: Option<String>,
}

/// Resolve execution mode from config with precedence order
pub fn resolve_mode(config: &Config) -> (r: Mode)
    ensures
        config.init ==> r == Mode::Init,
        !config.init && config.doctor ==> r == Mode::Doctor,
        !config.init && !config.doctor && config.scan ==> r == Mode::Scan,
        !config.init && !config.doctor && !config.scan ==> match config.sha {
            Some(s) => r matches Mode::Explain(t) && t@ == s@,
            None => r == Mode::Default,
        },
{
    if config.init {
        return Mode::Init;
    }
    if config.doctor {
        return Mode::Doctor;
    }
    if config.scan {
        return Mode::Scan;
    }
    if let Some(sha) = &config.sha {
        return Mode::Explain(sha.clone());
    }
    Mode::Default
}

// ---------------------------------------------------------------------------
// Errors
// ---------------------------------------------------------------------------

/// An error message with the `error: ` prefix, added unless already there.
pub open spec fn error_text(message: Seq<char>) -> Seq<char> {
    if message.len() >= 6 && message.take(6) == "error:"@ {
        message
    } else {
        "error: "@ + message
    }
}

/// Prefixes an error message with `error: ` unless it starts with `error:`.
pub fn format_error_message(message: &str) -> (r: String)
    ensures
        r@ == error_text(message@),
{
    proof {
        reveal_strlit("error:");
    }
    let cs = chars_of(message);
    let prefixed = cs.len() >= 6 && cs[0] == 'e' && cs[1] == 'r' && cs[2] == 'r' && cs[3] == 'o'
        && cs[4] == 'r' && cs[5] == ':';
    assert(prefixed == (message@.len() >= 6 && message@.take(6) == "error:"@)) by {
        if message@.len() >= 6 {
            let t = message@.take(6);
            if t == "error:"@ {
                assert(t[0] == 'e' && t[1] == 'r' && t[2] == 'r');
                assert(t[3] == 'o' && t[4] == 'r' && t[5] == ':');
            }
            if prefixed {
                assert(t =~= "error:"@);
            }
        }
    }
    if prefixed {
        message.to_string()
    } else {
        let mut m = "error: ".to_string();
        m.append(message);
        m
    }
}

// ---------------------------------------------------------------------------
// Ranking window
// ---------------------------------------------------------------------------

/// The start of a window of length `d` that ends at `until`.
pub open spec fn since_of(until: (i64, u32), d: Duration) -> (int, int) {
    (until.0 - duration_seconds(d), until.1 as int)
}

/// The start of a window of length `d` that ends at `until`.
pub fn compute_since(until: (i64, u32), d: &Duration) -> (r: (i64, u32))
    requires
        until.0 - duration_seconds(*d) >= i64::MIN,
    ensures
        r.0 == since_of(until, *d).0,
        r.1 == until.1,
{
    let secs: i128 = match d {
        Duration::Hours(h) => *h as i128 * 3600,
        Duration::Days(n) => *n as i128 * 86400,
        Duration::Weeks(w) => *w as i128 * 604800,
    };
    ((until.0 as i128 - secs) as i64, until.1)
}

/// Whole days a window spans, never negative; none for an unbounded window.
pub open spec fn window_days_of(since: Option<(i64, u32)>, until: (i64, u32)) -> Option<int> {
    match since {
        None => None,
        Some(s) => {
            let secs = elapsed_seconds((s.0 as int, s.1 as int), (until.0 as int, until.1 as int));
            Some(if secs > 0 { secs / 86400 } else { 0 })
        },
    }
}

pub fn compute_window_days(since: Option<(i64, u32)>, until: (i64, u32)) -> (r: Option<u64>)
    ensures
        match window_days_of(since, until) {
            None => r is None,
            Some(d) => r matches Some(v) && v == d,
        },
{
    match since {
        None => None,
        Some(start) => {
            let secs = whole_seconds_between(start, until);
            if secs > 0 {
                Some((secs / 86400) as u64)
            } else {
                Some(0)
            }
        },
    }
}

/// The hint for re-running over a window: its length in whole weeks, days
/// or hours, the largest unit that divides it; none when it is shorter than
/// an hour or unbounded.
pub open spec fn window_hint_of(since: Option<(i64, u32)>, until: (i64, u32)) -> Option<Seq<char>> {
    match since {
        None => None,
        Some(s) => {
            let secs = elapsed_seconds((s.0 as int, s.1 as int), (until.0 as int, until.1 as int));
            let hours = secs / 3600;
            if secs < 3600 {
                None
            } else if hours % 168 == 0 {
                Some(decimal((hours / 168) as nat) + "w"@)
            } else if hours % 24 == 0 {
                Some(decimal((hours / 24) as nat) + "d"@)
            } else {
                Some(decimal(hours as nat) + "h"@)
            }
        },
    }
}

pub fn compute_window_hint(since: Option<(i64, u32)>, until: (i64, u32)) -> (r: Option<String>)
    ensures
        match window_hint_of(since, until) {
            None => r is None,
            Some(h) => r matches Some(t) && t@ == h,
        },
{
    let start = match since {
        None => return None,
        Some(s) => s,
    };
    let secs = whole_seconds_between(start, until);
    if secs < 3600 {
        return None;
    }
    let hours: u64 = (secs / 3600) as u64;
    if hours % 168 == 0 {
        let mut m = decimal_string(hours / 168);
        m.append("w");
        Some(m)
    } else if hours % 24 == 0 {
        let mut m = decimal_string(hours / 24);
        m.append("d");
        Some(m)
    } else {
        let mut m = decimal_string(hours);
        m.append("h");
        Some(m)
    }
}

/// The start of the ranking window: unbounded with `--all`, else the
/// explicit `--since`, else the configured default.
pub fn ranking_since(all: bool, explicit: Option<(i64, u32)>, default_since: (i64, u32)) -> (r: Option<(i64, u32)>)
    ensures
        all ==> r is None,
        !all ==> r == Some(
            match explicit {
                Some(e) => e,
                None => default_since,
            },
        ),
{
    if all {
        None
    } else if let Some(e) = explicit {
        Some(e)
    } else {
        Some(default_since)
    }
}

/// Whether history must be scanned further back: the known coverage starts
/// after the wanted start, or no coverage is known.
pub open spec fn backfill_needed(coverage_since: Option<(i64, u32)>, wanted_since: (i64, u32)) -> bool {
    match coverage_since {
        Some(c) => !(c.0 < wanted_since.0 || (c.0 == wanted_since.0 && c.1 <= wanted_since.1)),
        None => true,
    }
}

/// Whether history must be scanned further back: the known coverage starts
/// after the wanted start, or no coverage is known.
pub fn needs_backfill(coverage_since: Option<(i64, u32)>, wanted_since: (i64, u32)) -> (r: bool)
    ensures
        r == backfill_needed(coverage_since, wanted_since),
{
    match coverage_since {
        Some(c) => c.0 > wanted_since.0 || (c.0 == wanted_since.0 && c.1 > wanted_since.1),
        None => true,
    }
}

/// The first scan of a run: none, or one that walks the commits that are
/// new since the last scan (`Some(false)`) or the whole history
/// (`Some(true)`). `--scan` always scans; the default mode scans unless
/// `--no-scan` is given or, without `--all`, the fast path finds nothing new.
pub fn first_scan(mode: &Mode, no_scan: bool, all: bool, fast_path_skip: bool) -> (r: Option<bool>)
    ensures
        r == match mode {
            Mode::Scan => Some(all),
            Mode::Default => if no_scan || (!all && fast_path_skip) {
                None
            } else {
                Some(all)
            },
            _ => None,
        },
{
    match mode {
        Mode::Scan => Some(all),
        Mode::Default => {
            if no_scan || (!all && fast_path_skip) {
                None
            } else {
                Some(all)
            }
        },
        _ => None,
    }
}

/// Whether a scan of the whole history follows the first one, to reach back
/// to the wanted start: never with `--all` or after a rewrite; with `--scan`
/// when the coverage starts after `--since` (or the configured bootstrap
/// window); in the default mode, when it starts after an explicit `--since`.
pub fn backfill_after(
    mode: &Mode,
    no_scan: bool,
    all: bool,
    rewrite_detected: bool,
    coverage_since: Option<(i64, u32)>,
    explicit_since: Option<(i64, u32)>,
    default_scan_since: (i64, u32),
) -> (r: bool)
    ensures
        r == (!all && !rewrite_detected && match mode {
            Mode::Scan => backfill_needed(
                coverage_since,
                match explicit_since {
                    Some(e) => e,
                    None => default_scan_since,
                },
            ),
            Mode::Default => !no_scan && match explicit_since {
                Some(e) => backfill_needed(coverage_since, e),
                None => false,
            },
            _ => false,
        }),
{
    if all || rewrite_detected {
        return false;
    }
    match mode {
        Mode::Scan => {
            let wanted = match explicit_since {
                Some(e) => e,
                None => default_scan_since,
            };
            needs_backfill(coverage_since, wanted)
        },
        Mode::Default => {
            if no_scan {
                return false;
            }
            match explicit_since {
                Some(e) => needs_backfill(coverage_since, e),
                None => false,
            }
        },
        _ => false,
    }
}

// ---------------------------------------------------------------------------
// --init
// ---------------------------------------------------------------------------

/// What `--init` does with one of its files.
#[derive(Debug, Clone, Copy, PartialEq, Eq, Structural)]
pub enum WriteOutcome {
    Created,
    Skipped,
    Overwritten,
}

/// What `--init` does with one file: create it when absent; when present,
/// overwrite it with `--force`, else leave it; `None` for something other
/// than a file in the way.
pub open spec fn write_plan(exists: bool, is_file: bool, force: bool) -> Option<WriteOutcome> {
    if !exists {
        Some(WriteOutcome::Created)
    } else if !is_file {
        None
    } else if force {
        Some(WriteOutcome::Overwritten)
    } else {
        Some(WriteOutcome::Skipped)
    }
}

/// Number of files of an `--init` run (each: exists, is a file) that get
/// this outcome.
pub open spec fn outcome_count(files: Seq<(bool, bool)>, force: bool, o: WriteOutcome) -> nat
    decreases files.len(),
{
    if files.len() == 0 {
        0
    } else {
        outcome_count(files.drop_last(), force, o) + if write_plan(
            files.last().0,
            files.last().1,
            force,
        ) == Some(o) {
            1nat
        } else {
            0nat
        }
    }
}

/// The summary line of an `--init` run over files in these states.
pub open spec fn run_summary(files: Seq<(bool, bool)>, force: bool) -> Seq<char> {
    init_summary_text(
        outcome_count(files, force, WriteOutcome::Created) as usize,
        outcome_count(files, force, WriteOutcome::Skipped) as usize,
        outcome_count(files, force, WriteOutcome::Overwritten) as usize,
    )
}

proof fn lemma_counts_all_present(n: nat, force: bool)
    ensures
        ({
            let files = Seq::new(n, |i: int| (true, true));
            &&& outcome_count(files, force, WriteOutcome::Created) == 0
            &&& outcome_count(files, force, WriteOutcome::Skipped) == if force { 0 } else { n }
            &&& outcome_count(files, force, WriteOutcome::Overwritten) == if force { n } else { 0 }
        }),
    decreases n,
{
    if n > 0 {
        lemma_counts_all_present((n - 1) as nat, force);
        let files = Seq::new(n, |i: int| (true, true));
        assert(files.drop_last() =~= Seq::new((n - 1) as nat, |i: int| (true, true)));
    }
}

/// `--init` is idempotent: once every file exists, a second run without
/// `--force` skips all of them and reports that it is already initialized;
/// with `--force` it overwrites all of them and says how many.
pub proof fn lemma_init_repeated(n: nat, force: bool)
    requires
        n <= usize::MAX,
    ensures
        ({
            let files = Seq::new(n, |i: int| (true, true));
            &&& forall|i: int|
                0 <= i < n ==> write_plan(files[i].0, files[i].1, force) == Some(
                    if force {
                        WriteOutcome::Overwritten
                    } else {
                        WriteOutcome::Skipped
                    },
                )
            &&& !force ==> run_summary(files, force) == "Already initialized (.regret/ exists)"@
            &&& force && n > 0 ==> run_summary(files, force) == "Reinitialized .regret/ ("@
                + decimal(n) + " overwritten)"@
        }),
{
    lemma_counts_all_present(n, force);
}

/// What to do with a file of `--init`: create it when absent; when present,
/// overwrite it with `--force`, else leave it. `None` when something other
/// than a file is in the way, which is an error.
pub fn plan_write(exists: bool, is_file: bool, force: bool) -> (r: Option<WriteOutcome>)
    ensures
        r == write_plan(exists, is_file, force),
{
    if exists {
        if !is_file {
            return None;
        }
        if force {
            return Some(WriteOutcome::Overwritten);
        }
        return Some(WriteOutcome::Skipped);
    }
    Some(WriteOutcome::Created)
}

/// The summary line of `--init`.
pub open spec fn init_summary_text(created: usize, skipped: usize, overwritten: usize) -> Seq<char> {
    if created > 0 && skipped == 0 {
        "Initialized .regret/"@
    } else if created > 0 {
        "Initialized .regret/ ("@ + decimal(created as nat) + " new, "@ + decimal(skipped as nat)
            + " existing)"@
    } else if overwritten > 0 {
        "Reinitialized .regret/ ("@ + decimal(overwritten as nat) + " overwritten)"@
    } else {
        "Already initialized (.regret/ exists)"@
    }
}

/// Builds the summary line of `--init` from the counts of its outcomes.
pub fn init_summary(created: usize, skipped: usize, overwritten: usize) -> (r: String)
    ensures
        r@ == init_summary_text(created, skipped, overwritten),
{
    if created > 0 && skipped == 0 {
        "Initialized .regret/".to_string()
    } else if created > 0 {
        let mut m = "Initialized .regret/ (".to_string();
        m.append(decimal_string(created as u64).as_str());
        m.append(" new, ");
        m.append(decimal_string(skipped as u64).as_str());
        m.append(" existing)");
        m
    } else if overwritten > 0 {
        let mut m = "Reinitialized .regret/ (".to_string();
        m.append(decimal_string(overwritten as u64).as_str());
        m.append(" overwritten)");
        m
    } else {
        "Already initialized (.regret/ exists)".to_string()
    }
}

} // verus!
