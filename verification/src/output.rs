//! What the tool reports: the header, coverage and no-events lines, the
//! ranking of culprits, and the labels of evidence records.
//!
//! The lines are built here as text; writing them, and everything that
//! involves floating point (rates, medians of hours, confidences as
//! fractions), is left to the program around the library. Confidences are
//! carried in basis points (10000 is 1.0).

use vstd::prelude::*;
use vstd::utf8::decode_utf8;
use vstd::string::StringSliceAdditionalSpecFns;
use crate::text::{decimal, decimal_string, lemma_text_lt_order, str_lt, text_lt};
use crate::patch_id::{hex_chars, hex_string};
use crate::signals::{elapsed_seconds, parse_rfc3339, rfc3339_instant, whole_seconds_between};

verus! {

// ---------------------------------------------------------------------------
// Header
// ---------------------------------------------------------------------------

/// Whether scanning was skipped or ran.
#[derive(Debug, Clone, Copy, PartialEq, Eq, Structural)]
pub enum ScanStatus {
    Skipped,
    Ran,
}

pub open spec fn scan_status_name(s: ScanStatus) -> Seq<char> {
    match s {
        ScanStatus::Skipped => "skipped"@,
        ScanStatus::Ran => "ran"@,
    }
}

impl ScanStatus {
    pub fn as_str(&self) -> (r: &'static str)
        ensures
            r@ == scan_status_name(*self),
    {
        match self {
            ScanStatus::Skipped => "skipped",
            ScanStatus::Ran => "ran",
        }
    }
}

/// Summary information for the header line.
pub struct HeaderInfo {
    pub tool_version: String,
    pub repo_basename: String,
    pub selected_branch: String,
    pub scan_status: ScanStatus,
    pub new_commits: usize,
    pub scanned_commits: usize,
    pub coverage_days: Option<u64>,
}

/// A day count as the report prints it: the number, or `?` when unknown.
pub open spec fn days_text(d: Option<u64>) -> Seq<char> {
    match d {
        Some(n) => decimal(n as nat),
        None => "?"@,
    }
}

fn days_string(d: Option<u64>) -> (r: String)
    ensures
        r@ == days_text(d),
{
    match d {
        Some(n) => decimal_string(n),
        None => "?".to_string(),
    }
}

/// The header line:
/// `regret <version> repo=<name> branch=<branch> scan=<status> new_commits=<n> scanned_commits=<n> coverage_days=<n>`.
pub open spec fn header_text(info: HeaderInfo) -> Seq<char> {
    "regret "@ + info.tool_version@ + " repo="@ + info.repo_basename@ + " branch="@
        + info.selected_branch@ + " scan="@ + scan_status_name(info.scan_status) + " new_commits="@
        + decimal(info.new_commits as nat) + " scanned_commits="@ + decimal(
        info.scanned_commits as nat,
    ) + " coverage_days="@ + days_text(info.coverage_days)
}

/// Builds the header line.
pub fn header_line(info: &HeaderInfo) -> (r: String)
    ensures
        r@ == header_text(*info),
{
    let mut s = "regret ".to_string();
    s.append(info.tool_version.as_str());
    s.append(" repo=");
    s.append(info.repo_basename.as_str());
    s.append(" branch=");
    s.append(info.selected_branch.as_str());
    s.append(" scan=");
    s.append(info.scan_status.as_str());
    s.append(" new_commits=");
    s.append(decimal_string(info.new_commits as u64).as_str());
    s.append(" scanned_commits=");
    s.append(decimal_string(info.scanned_commits as u64).as_str());
    s.append(" coverage_days=");
    s.append(days_string(info.coverage_days).as_str());
    s
}

/// Truncate a subject line to `max_len` bytes: a longer subject keeps its
/// first `max_len - 3` bytes and gets `...`.
pub fn truncate_subject(subject: &str, max_len: usize) -> (r: String)
    requires
        subject.spec_bytes().len() <= max_len || (max_len >= 3 && vstd::utf8::is_char_boundary(
            subject.spec_bytes(),
            max_len - 3,
        )),
    ensures
        subject.spec_bytes().len() <= max_len ==> r@ == subject@,
        subject.spec_bytes().len() > max_len ==> r@ == decode_utf8(
            subject.spec_bytes().subrange(0, max_len - 3),
        ) + "..."@,
{
    if subject.as_bytes().len() <= max_len {
        subject.to_string()
    } else {
        let (head, _) = subject.split_at(max_len - 3);
        proof {
            vstd::utf8::encode_utf8_decode_utf8(head@);
        }
        let mut s = head.to_string();
        s.append("...");
        s
    }
}

// ---------------------------------------------------------------------------
// Coverage
// ---------------------------------------------------------------------------

/// Coverage status.
#[derive(Debug, Clone, Copy, PartialEq, Eq, Structural)]
pub enum CoverageStatus {
    Complete,
    Incomplete,
    Invalid,
}

pub open spec fn coverage_status_name(s: CoverageStatus) -> Seq<char> {
    match s {
        CoverageStatus::Complete => "complete"@,
        CoverageStatus::Incomplete => "incomplete"@,
        CoverageStatus::Invalid => "invalid"@,
    }
}

impl CoverageStatus {
    pub fn as_str(&self) -> (r: &'static str)
        ensures
            r@ == coverage_status_name(*self),
    {
        match self {
            CoverageStatus::Complete => "complete",
            CoverageStatus::Incomplete => "incomplete",
            CoverageStatus::Invalid => "invalid",
        }
    }
}

/// Info for the COVERAGE line.
pub struct CoverageInfo {
    pub status: CoverageStatus,
    pub coverage_since_utc: String,
    pub coverage_valid: bool,
}

/// `a` is not later than `b`; instants are seconds since the epoch and
/// nanoseconds.
pub open spec fn instant_le(a: (i64, u32), b: (i64, u32)) -> bool {
    a.0 < b.0 || (a.0 == b.0 && a.1 <= b.1)
}

/// The coverage status of a ranking window: invalid when the cache says so;
/// otherwise complete when the scanned history reaches back to the window's
/// start (for an unbounded window: when any coverage is known).
pub open spec fn coverage_status_of(
    coverage_valid: bool,
    coverage_since: Option<(i64, u32)>,
    window_since: Option<(i64, u32)>,
) -> CoverageStatus {
    let complete = match window_since {
        None => coverage_since is Some,
        Some(w) => match coverage_since {
            Some(c) => instant_le(c, w),
            None => false,
        },
    };
    if !coverage_valid {
        CoverageStatus::Invalid
    } else if complete {
        CoverageStatus::Complete
    } else {
        CoverageStatus::Incomplete
    }
}

/// Decides the coverage status of a ranking window.
pub fn coverage_status(
    coverage_valid: bool,
    coverage_since: Option<(i64, u32)>,
    window_since: Option<(i64, u32)>,
) -> (r: CoverageStatus)
    ensures
        r == coverage_status_of(coverage_valid, coverage_since, window_since),
        !coverage_valid <==> r == CoverageStatus::Invalid,
        coverage_valid ==> match (coverage_since, window_since) {
            (Some(c), Some(w)) => (r == CoverageStatus::Complete) == (c.0 < w.0 || (c.0 == w.0 && c.1 <= w.1)),
            (None, _) => r == CoverageStatus::Incomplete,
            (Some(_), None) => r == CoverageStatus::Complete,
        },
{
    let complete = match window_since {
        None => coverage_since.is_some(),
        Some(w) => match coverage_since {
            Some(c) => c.0 < w.0 || (c.0 == w.0 && c.1 <= w.1),
            None => false,
        },
    };
    if !coverage_valid {
        CoverageStatus::Invalid
    } else if complete {
        CoverageStatus::Complete
    } else {
        CoverageStatus::Incomplete
    }
}

/// The COVERAGE block: nothing when coverage is complete; otherwise
/// `COVERAGE status=<status> coverage_since_utc=<ts> coverage_valid=<0|1>` and
/// the command that would complete it.
pub open spec fn coverage_text(info: CoverageInfo, window_days: Option<u64>) -> Seq<Seq<char>> {
    let head = "COVERAGE status="@ + coverage_status_name(info.status) + " coverage_since_utc="@
        + info.coverage_since_utc@ + " coverage_valid="@ + if info.coverage_valid {
        "1"@
    } else {
        "0"@
    };
    match info.status {
        CoverageStatus::Complete => Seq::empty(),
        CoverageStatus::Incomplete => seq![
            head,
            "NEXT: regret --scan --since "@ + decimal(
                (match window_days {
                    Some(d) => d,
                    None => 30u64,
                }) as nat,
            ) + "d"@,
        ],
        CoverageStatus::Invalid => seq![head, "NEXT: regret --scan --all"@],
    }
}

/// Builds the COVERAGE block, one string per line.
pub fn coverage_lines(info: &CoverageInfo, window_days: Option<u64>) -> (r: Vec<String>)
    ensures
        r@.map_values(|s: String| s@) == coverage_text(*info, window_days),
{
    let mut out: Vec<String> = Vec::new();
    if info.status == CoverageStatus::Complete {
        assert(out@.map_values(|s: String| s@) =~= coverage_text(*info, window_days));
        return out;
    }
    let mut head = "COVERAGE status=".to_string();
    head.append(info.status.as_str());
    head.append(" coverage_since_utc=");
    head.append(info.coverage_since_utc.as_str());
    head.append(" coverage_valid=");
    head.append(if info.coverage_valid { "1" } else { "0" });
    out.push(head);
    match info.status {
        CoverageStatus::Incomplete => {
            let window = match window_days {
                Some(d) => d,
                None => 30,
            };
            let mut next = "NEXT: regret --scan --since ".to_string();
            next.append(decimal_string(window).as_str());
            next.append("d");
            out.push(next);
        },
        _ => {
            out.push("NEXT: regret --scan --all".to_string());
        },
    }
    assert(out@.map_values(|s: String| s@) =~= coverage_text(*info, window_days));
    out
}

// ---------------------------------------------------------------------------
// No events
// ---------------------------------------------------------------------------

/// Reason for NO_EVENTS.
#[derive(Debug, Clone, Copy, PartialEq, Eq, Structural)]
pub enum NoEventsReason {
    CoverageIncomplete,
    NoSignalsDetected,
    SignalsOutsideWindow,
}

pub open spec fn no_events_reason_name(r: NoEventsReason) -> Seq<char> {
    match r {
        NoEventsReason::CoverageIncomplete => "coverage_incomplete"@,
        NoEventsReason::NoSignalsDetected => "no_signals_detected"@,
        NoEventsReason::SignalsOutsideWindow => "signals_outside_window_or_threshold"@,
    }
}

impl NoEventsReason {
    pub fn as_str(&self) -> (r: &'static str)
        ensures
            r@ == no_events_reason_name(*self),
    {
        match self {
            NoEventsReason::CoverageIncomplete => "coverage_incomplete",
            NoEventsReason::NoSignalsDetected => "no_signals_detected",
            NoEventsReason::SignalsOutsideWindow => "signals_outside_window_or_threshold",
        }
    }
}

/// Why a ranking has no events: coverage first, then whether any signal was
/// ever detected.
pub open spec fn no_events_reason_of(
    status: CoverageStatus,
    reverts_detected: usize,
    linked_fix_detected: usize,
) -> NoEventsReason {
    if status != CoverageStatus::Complete {
        NoEventsReason::CoverageIncomplete
    } else if reverts_detected == 0 && linked_fix_detected == 0 {
        NoEventsReason::NoSignalsDetected
    } else {
        NoEventsReason::SignalsOutsideWindow
    }
}

/// Decides why a ranking has no events.
pub fn no_events_reason(
    status: CoverageStatus,
    reverts_detected: usize,
    linked_fix_detected: usize,
) -> (r: NoEventsReason)
    ensures
        r == no_events_reason_of(status, reverts_detected, linked_fix_detected),
        (status == CoverageStatus::Incomplete || status == CoverageStatus::Invalid) ==> r
            == NoEventsReason::CoverageIncomplete,
        status == CoverageStatus::Complete ==> (r == NoEventsReason::NoSignalsDetected) == (reverts_detected
            == 0 && linked_fix_detected == 0),
        status == CoverageStatus::Complete ==> r != NoEventsReason::CoverageIncomplete,
{
    if status == CoverageStatus::Incomplete || status == CoverageStatus::Invalid {
        NoEventsReason::CoverageIncomplete
    } else if reverts_detected == 0 && linked_fix_detected == 0 {
        NoEventsReason::NoSignalsDetected
    } else {
        NoEventsReason::SignalsOutsideWindow
    }
}

/// Coverage is complete exactly when the scanned history starts no later
/// than the window: for valid coverage starting at `c` and a window starting
/// at `w`, complete iff `c` is at or before `w` (seconds, then nanoseconds).
/// Invalid coverage is reported invalid whatever the times.
pub proof fn lemma_coverage_complete_exactly(valid: bool, c: (i64, u32), w: (i64, u32))
    ensures
        valid ==> ((coverage_status_of(valid, Some(c), Some(w)) == CoverageStatus::Complete) <==> (c.0 < w.0
            || (c.0 == w.0 && c.1 <= w.1))),
        valid ==> (coverage_status_of(valid, Some(c), Some(w)) == CoverageStatus::Incomplete <==> (c.0 > w.0
            || (c.0 == w.0 && c.1 > w.1))),
        !valid ==> coverage_status_of(valid, Some(c), Some(w)) == CoverageStatus::Invalid,
{
}

/// An earlier coverage start, or a later window start, never turns a
/// complete coverage incomplete.
pub proof fn lemma_coverage_monotone(
    valid: bool,
    c1: (i64, u32),
    c2: (i64, u32),
    w1: (i64, u32),
    w2: (i64, u32),
)
    requires
        c1.0 < c2.0 || (c1.0 == c2.0 && c1.1 <= c2.1),
        w2.0 > w1.0 || (w2.0 == w1.0 && w2.1 >= w1.1),
        coverage_status_of(valid, Some(c2), Some(w1)) == CoverageStatus::Complete,
    ensures
        coverage_status_of(valid, Some(c1), Some(w2)) == CoverageStatus::Complete,
{
}

/// An empty ranking is blamed on the coverage whenever the coverage is not
/// complete; with complete coverage, on the lack of any signal exactly when
/// none was detected, and otherwise on the window or threshold.
pub proof fn lemma_no_events_reason_coverage_first(status: CoverageStatus, reverts: usize, fixes: usize)
    ensures
        status == CoverageStatus::Incomplete ==> no_events_reason_of(status, reverts, fixes)
            == NoEventsReason::CoverageIncomplete,
        status == CoverageStatus::Invalid ==> no_events_reason_of(status, reverts, fixes)
            == NoEventsReason::CoverageIncomplete,
        status == CoverageStatus::Complete && reverts == 0 && fixes == 0 ==> no_events_reason_of(
            status,
            reverts,
            fixes,
        ) == NoEventsReason::NoSignalsDetected,
        status == CoverageStatus::Complete && (reverts > 0 || fixes > 0) ==> no_events_reason_of(
            status,
            reverts,
            fixes,
        ) == NoEventsReason::SignalsOutsideWindow,
{
}

/// Info for the NO_EVENTS block.
pub struct NoEventsInfo {
    pub reverts_detected: usize,
    pub linked_fix_trailers: usize,
    pub coverage_days: Option<u64>,
    pub reason: NoEventsReason,
}

pub open spec fn no_events_next(r: NoEventsReason) -> Seq<char> {
    match r {
        NoEventsReason::CoverageIncomplete => "NEXT: regret --scan --all"@,
        NoEventsReason::NoSignalsDetected => "NEXT: git log --oneline | head -20 # verify recent commit activity"@,
        NoEventsReason::SignalsOutsideWindow => "NEXT: regret --since 90d # widen ranking window"@,
    }
}

/// The NO_EVENTS block: the counts, the reason and the suggested command.
pub open spec fn no_events_text(info: NoEventsInfo) -> Seq<Seq<char>> {
    seq![
        "NO_EVENTS reverts_detected="@ + decimal(info.reverts_detected as nat)
            + " linked_fix_trailers="@ + decimal(info.linked_fix_trailers as nat)
            + " coverage_days="@ + days_text(info.coverage_days),
        "REASON: "@ + no_events_reason_name(info.reason),
        no_events_next(info.reason),
    ]
}

/// Builds the NO_EVENTS block, one string per line.
pub fn no_events_lines(info: &NoEventsInfo) -> (r: Vec<String>)
    ensures
        r@.map_values(|s: String| s@) == no_events_text(*info),
{
    let mut first = "NO_EVENTS reverts_detected=".to_string();
    first.append(decimal_string(info.reverts_detected as u64).as_str());
    first.append(" linked_fix_trailers=");
    first.append(decimal_string(info.linked_fix_trailers as u64).as_str());
    first.append(" coverage_days=");
    first.append(days_string(info.coverage_days).as_str());
    let mut second = "REASON: ".to_string();
    second.append(info.reason.as_str());
    let third = match info.reason {
        NoEventsReason::CoverageIncomplete => "NEXT: regret --scan --all".to_string(),
        NoEventsReason::NoSignalsDetected => "NEXT: git log --oneline | head -20 # verify recent commit activity".to_string(),
        NoEventsReason::SignalsOutsideWindow => "NEXT: regret --since 90d # widen ranking window".to_string(),
    };
    let mut out: Vec<String> = Vec::new();
    out.push(first);
    out.push(second);
    out.push(third);
    assert(out@.map_values(|s: String| s@) =~= no_events_text(*info));
    out
}

/// The line for a SHA that is no culprit: `NO_SIGNALS culprit=sha:<sha>`.
pub fn no_signals_line(sha: &str) -> (r: String)
    ensures
        r@ == "NO_SIGNALS culprit=sha:"@ + sha@,
{
    let mut s = "NO_SIGNALS culprit=sha:".to_string();
    s.append(sha);
    s
}

// ---------------------------------------------------------------------------
// Rate
// ---------------------------------------------------------------------------

/// Info for the RATE line.
pub struct RateInfo {
    pub events: usize,
    pub commits: usize,
}

// ---------------------------------------------------------------------------
// Evidence labels
// ---------------------------------------------------------------------------

pub open spec fn signal_type_label(weight: i64) -> Seq<char> {
    if weight == 10 {
        "revert"@
    } else if weight == 8 {
        "linked_fix"@
    } else {
        "unknown"@
    }
}

/// Derive signal type from weight.
pub fn signal_type_from_weight(weight: i64) -> (r: String)
    ensures
        r@ == signal_type_label(weight),
{
    match weight {
        10 => "revert".to_string(),
        8 => "linked_fix".to_string(),
        _ => "unknown".to_string(),
    }
}

pub open spec fn confidence_reason_label(weight: i64, confidence_bp: u32) -> Seq<char> {
    if weight == 10 && confidence_bp >= 9500 {
        "canonical_revert_line"@
    } else if weight == 10 {
        "patch_id_equivalence"@
    } else if weight == 8 {
        "explicit_trailer"@
    } else {
        "unknown"@
    }
}

/// Derive confidence reason from weight and confidence (in basis points).
pub fn confidence_reason_from_weight_and_confidence(weight: i64, confidence_bp: u32) -> (r: String)
    ensures
        r@ == confidence_reason_label(weight, confidence_bp),
{
    if weight == 10 && confidence_bp >= 9500 {
        "canonical_revert_line".to_string()
    } else if weight == 10 {
        "patch_id_equivalence".to_string()
    } else if weight == 8 {
        "explicit_trailer".to_string()
    } else {
        "unknown".to_string()
    }
}

// ---------------------------------------------------------------------------
// NDJSON meta record
// ---------------------------------------------------------------------------

/// NDJSON meta record.
pub struct NdjsonMeta {
    pub record_type: String,
    pub schema_version: u32,
    pub tool_version: String,
    pub repo_id: String,
    pub repo_basename: String,
    pub selected_branch: String,
    pub window_since_utc: Option<String>,
    pub window_until_utc: String,
    pub window_until_source: String,
    pub coverage_since_utc: Option<String>,
    pub coverage_valid: bool,
    pub cache_valid: bool,
}

// ---------------------------------------------------------------------------
// Age
// ---------------------------------------------------------------------------

/// The age label of a span of whole seconds: whole weeks, else whole days,
/// else whole hours, else `<1h`.
pub open spec fn age_text(secs: int) -> Seq<char> {
    if secs >= 604800 {
        decimal((secs / 604800) as nat) + "w"@
    } else if secs >= 86400 {
        decimal((secs / 86400) as nat) + "d"@
    } else if secs >= 3600 {
        decimal((secs / 3600) as nat) + "h"@
    } else {
        "<1h"@
    }
}

/// Builds the age label of a span of whole seconds.
pub fn age_label(secs: i128) -> (r: String)
    requires
        secs <= 0x1_0000_0000_0000_0005,
    ensures
        r@ == age_text(secs as int),
{
    if secs >= 604800 {
        let mut s = decimal_string((secs / 604800) as u64);
        s.append("w");
        s
    } else if secs >= 86400 {
        let mut s = decimal_string((secs / 86400) as u64);
        s.append("d");
        s
    } else if secs >= 3600 {
        let mut s = decimal_string((secs / 3600) as u64);
        s.append("h");
        s
    } else {
        "<1h".to_string()
    }
}

#[verifier::external_type_specification]
#[verifier::external_body]
pub struct ExSystemTime(std::time::SystemTime);

/// Runs `std::time::SystemTime::now`. Nothing is claimed of the result: it
/// is the clock's.
#[verifier::external_body]
fn system_time_now() -> std::time::SystemTime {
    std::time::SystemTime::now()
}

/// Runs `SystemTime::duration_since(UNIX_EPOCH)` and gives the whole seconds
/// and the nanoseconds of the span, or `None` when the time is before the
/// epoch. Claims only that the nanoseconds are below one second, as
/// `Duration::subsec_nanos` documents.
#[verifier::external_body]
fn since_unix_epoch(t: &std::time::SystemTime) -> (r: Option<(u64, u32)>)
    ensures
        r matches Some(d) ==> d.1 < 1_000_000_000,
{
    match t.duration_since(std::time::UNIX_EPOCH) {
        Ok(d) => Some((d.as_secs(), d.subsec_nanos())),
        Err(_) => None,
    }
}

/// The current time as seconds since the epoch and nanoseconds, or `None`
/// when the clock reads before 1970 or beyond 64-bit seconds.
fn clock_now() -> (r: Option<(i64, u32)>)
    ensures
        r matches Some(t) ==> t.0 >= 0 && t.1 < 1_000_000_000,
{
    let t = system_time_now();
    match since_unix_epoch(&t) {
        Some((secs, nanos)) => if secs <= 0x7fff_ffff_ffff_ffff {
            Some((secs as i64, nanos))
        } else {
            None
        },
        None => None,
    }
}

/// The age label of a commit time at a moment: `?` when the text is no
/// RFC 3339 time.
pub open spec fn age_text_at(commit_time_utc: Seq<char>, now: (int, int)) -> Seq<char> {
    match rfc3339_instant(commit_time_utc) {
        None => "?"@,
        Some(t) => age_text(elapsed_seconds(t, now)),
    }
}

/// The age of a commit time at the given moment: `?` when the text is no
/// RFC 3339 time, otherwise the age label of the whole seconds elapsed.
pub fn age_at(commit_time_utc: &str, now: (i64, u32)) -> (r: String)
    ensures
        r@ == age_text_at(commit_time_utc@, (now.0 as int, now.1 as int)),
{
    let commit = match parse_rfc3339(commit_time_utc) {
        Some(t) => t,
        None => return "?".to_string(),
    };
    let secs = whole_seconds_between(commit, now);
    age_label(secs)
}

/// Compute human-readable age from a UTC timestamp: `?` when the text is no
/// RFC 3339 time, otherwise the age label of the time elapsed until now
/// (also `?` when the clock reads before 1970). `age_at` takes the moment
/// instead.
pub fn compute_age(commit_time_utc: &str) -> (r: String)
    ensures
        r@ == "?"@ || exists|now: (int, int)| r@ == age_text_at(commit_time_utc@, now),
        rfc3339_instant(commit_time_utc@) is None ==> r@ == "?"@,
{
    match clock_now() {
        Some(now) => {
            let r = age_at(commit_time_utc, now);
            assert(r@ == age_text_at(commit_time_utc@, (now.0 as int, now.1 as int)));
            r
        },
        None => "?".to_string(),
    }
}

// ---------------------------------------------------------------------------
// Repository id
// ---------------------------------------------------------------------------

/// The SHA-256 digest of a byte string.
pub uninterp spec fn sha256_of(data: Seq<u8>) -> Seq<u8>;

/// Runs `sha2::Sha256::digest` on the bytes.
///
/// Claims that the result is the digest of exactly these bytes, and that a
/// SHA-256 digest is 32 bytes long.
#[verifier::external_body]
fn sha256_digest(data: &[u8]) -> (r: Vec<u8>)
    ensures
        r@ == sha256_of(data@),
        r@.len() == 32,
{
    <sha2::Sha256 as sha2::Digest>::digest(data).to_vec()
}

/// Compute a stable repo id from the repository path's text: the first 8
/// bytes of its SHA-256 digest, as 16 lower-case hexadecimal digits.
pub fn compute_repo_id(repo_path: &str) -> (r: String)
    ensures
        r@ == hex_chars(sha256_of(repo_path.spec_bytes()).take(8)),
{
    let digest = sha256_digest(repo_path.as_bytes());
    let head = slice_prefix(digest.as_slice(), 8);
    hex_string(head.as_slice())
}

fn slice_prefix(v: &[u8], n: usize) -> (r: Vec<u8>)
    requires
        n <= v@.len(),
    ensures
        r@ == v@.take(n as int),
{
    let mut out: Vec<u8> = Vec::new();
    let mut k: usize = 0;
    while k < n
        invariant
            k <= n <= v@.len(),
            out@ == v@.take(k as int),
        decreases n - k,
    {
        out.push(v[k]);
        k = k + 1;
        assert(out@ =~= v@.take(k as int));
    }
    out
}

// ---------------------------------------------------------------------------
// Ranking of culprits
// ---------------------------------------------------------------------------

/// A signal as the ranking reads it.
#[derive(Debug, Clone)]
pub struct SignalRow {
    pub culprit_sha: String,
    pub evidence_sha: String,
    /// Time of the evidence commit, when the regret happened.
    pub evidence_time_utc: String,
    pub weight: i64,
    /// Confidence in basis points (10000 is 1.0).
    pub confidence_bp: u32,
    pub culprit_time_utc: String,
    pub culprit_subject: Option<String>,
}

/// A ranked culprit for the TOP table.
#[derive(Debug, Clone)]
pub struct RankedCulprit {
    /// Unique identifier (row number, from 1)
    pub id: usize,
    /// Aggregated score = sum of weights of its signals
    pub score: i64,
    /// Number of evidence events
    pub events: usize,
    /// Culprit commit SHA
    pub culprit_sha: String,
    /// Culprit commit time, from its first signal
    pub culprit_date_utc: String,
    /// Human-readable age (e.g., "3d", "2w")
    pub culprit_age: String,
    /// Subject line of its first signal
    pub subject_trunc: String,
    /// Minimum confidence of its signals, in basis points
    pub min_confidence_bp: u32,
    /// Positions of its signals in the input, in order; the median time to
    /// regret is taken over these.
    pub signal_rows: Vec<usize>,
}

/// A signal counts unless its confidence is below the minimum.
pub open spec fn row_counts(r: SignalRow, min_confidence_bp: u32) -> bool {
    r.confidence_bp >= min_confidence_bp
}

/// Positions of the counted signals of a culprit.
pub open spec fn culprit_rows(rows: Seq<SignalRow>, min_bp: u32, sha: Seq<char>) -> Seq<int>
    decreases rows.len(),
{
    if rows.len() == 0 {
        Seq::empty()
    } else {
        let prev = culprit_rows(rows.drop_last(), min_bp, sha);
        if row_counts(rows.last(), min_bp) && rows.last().culprit_sha@ == sha {
            prev.push(rows.len() - 1)
        } else {
            prev
        }
    }
}

/// Sum of the weights of the counted signals of a culprit.
pub open spec fn culprit_score(rows: Seq<SignalRow>, min_bp: u32, sha: Seq<char>) -> int
    decreases rows.len(),
{
    if rows.len() == 0 {
        0
    } else {
        culprit_score(rows.drop_last(), min_bp, sha) + if row_counts(rows.last(), min_bp)
            && rows.last().culprit_sha@ == sha {
            rows.last().weight as int
        } else {
            0int
        }
    }
}

/// Least confidence of the counted signals of a culprit (above any
/// confidence when there are none).
pub open spec fn culprit_min_bp(rows: Seq<SignalRow>, min_bp: u32, sha: Seq<char>) -> int
    decreases rows.len(),
{
    if rows.len() == 0 {
        0x1_0000_0000
    } else {
        let prev = culprit_min_bp(rows.drop_last(), min_bp, sha);
        if row_counts(rows.last(), min_bp) && rows.last().culprit_sha@ == sha && (
        rows.last().confidence_bp as int) < prev {
            rows.last().confidence_bp as int
        } else {
            prev
        }
    }
}

/// Sum of the absolute weights of the counted signals: a bound on every score.
pub open spec fn row_mass(rows: Seq<SignalRow>, min_bp: u32) -> int
    decreases rows.len(),
{
    if rows.len() == 0 {
        0
    } else {
        row_mass(rows.drop_last(), min_bp) + if row_counts(rows.last(), min_bp) {
            if rows.last().weight >= 0 {
                rows.last().weight as int
            } else {
                -(rows.last().weight as int)
            }
        } else {
            0int
        }
    }
}

/// `a` is ranked before `b`: a higher score, or the same score and a SHA that
/// sorts first.
pub open spec fn ranked_before(rows: Seq<SignalRow>, min_bp: u32, a: Seq<char>, b: Seq<char>) -> bool {
    culprit_score(rows, min_bp, a) > culprit_score(rows, min_bp, b) || (culprit_score(
        rows,
        min_bp,
        a,
    ) == culprit_score(rows, min_bp, b) && text_lt(a, b))
}

pub open spec fn usize_ints(v: Seq<usize>) -> Seq<int> {
    v.map_values(|x: usize| x as int)
}

/// The subject shown for a culprit.
pub open spec fn subject_text(s: Option<String>) -> Seq<char> {
    match s {
        Some(t) => t@,
        None => "(no subject)"@,
    }
}

/// The `k`-th entry of a ranking describes its culprit as the signals give it.
pub open spec fn ranked_entry(rows: Seq<SignalRow>, min_bp: u32, k: int, c: RankedCulprit) -> bool {
    let sha = c.culprit_sha@;
    let idx = culprit_rows(rows, min_bp, sha);
    &&& c.id == k + 1
    &&& idx.len() >= 1
    &&& c.events == idx.len()
    &&& c.score == culprit_score(rows, min_bp, sha)
    &&& c.min_confidence_bp == culprit_min_bp(rows, min_bp, sha)
    &&& usize_ints(c.signal_rows@) == idx
    &&& c.culprit_date_utc@ == rows[idx[0]].culprit_time_utc@
    &&& c.subject_trunc@ == subject_text(rows[idx[0]].culprit_subject)
}

/// The ranking is complete, each culprit once, in order.
pub open spec fn is_ranking(rows: Seq<SignalRow>, min_bp: u32, r: Seq<RankedCulprit>) -> bool {
    &&& forall|k: int| 0 <= k < r.len() ==> ranked_entry(rows, min_bp, k, #[trigger] r[k])
    &&& forall|a: int, b: int|
        0 <= a < b < r.len() ==> ranked_before(
            rows,
            min_bp,
            (#[trigger] r[a]).culprit_sha@,
            (#[trigger] r[b]).culprit_sha@,
        )
    &&& forall|sha: Seq<char>|
        #![trigger culprit_rows(rows, min_bp, sha)]
        culprit_rows(rows, min_bp, sha).len() >= 1 ==> exists|k: int|
            0 <= k < r.len() && r[k].culprit_sha@ == sha
}

proof fn lemma_culprit_bounds(rows: Seq<SignalRow>, min_bp: u32, sha: Seq<char>)
    ensures
        -row_mass(rows, min_bp) <= culprit_score(rows, min_bp, sha) <= row_mass(rows, min_bp),
        culprit_rows(rows, min_bp, sha).len() == 0 ==> culprit_score(rows, min_bp, sha) == 0
            && culprit_min_bp(rows, min_bp, sha) == 0x1_0000_0000,
        culprit_rows(rows, min_bp, sha).len() >= 1 ==> 0 <= culprit_min_bp(rows, min_bp, sha)
            <= u32::MAX,
        forall|j: int|
            0 <= j < culprit_rows(rows, min_bp, sha).len() ==> 0 <= #[trigger] culprit_rows(
                rows,
                min_bp,
                sha,
            )[j] < rows.len() && rows[culprit_rows(rows, min_bp, sha)[j]].culprit_sha@ == sha,
        culprit_rows(rows, min_bp, sha).len() <= rows.len(),
    decreases rows.len(),
{
    if rows.len() > 0 {
        lemma_culprit_bounds(rows.drop_last(), min_bp, sha);
        let prev = culprit_rows(rows.drop_last(), min_bp, sha);
        assert forall|j: int| 0 <= j < prev.len() implies rows[prev[j]] == rows.drop_last()[prev[j]] by {}
    }
}

proof fn lemma_mass_prefix(rows: Seq<SignalRow>, min_bp: u32, i: int)
    requires
        0 <= i <= rows.len(),
    ensures
        row_mass(rows.take(i), min_bp) <= row_mass(rows, min_bp),
    decreases rows.len(),
{
    if i < rows.len() {
        assert(rows.take(i) == rows.drop_last().take(i));
        lemma_mass_prefix(rows.drop_last(), min_bp, i);
    } else {
        assert(rows.take(i) == rows);
    }
}

/// Rows of one culprit gathered while walking the signals.
struct CulpritGroup {
    sha: String,
    rows: Vec<usize>,
    score: i64,
    min_bp: u32,
}

spec fn groups_match(tab: Seq<CulpritGroup>, rows: Seq<SignalRow>, min_bp: u32) -> bool {
    &&& forall|a: int, b: int|
        0 <= a < b < tab.len() ==> #[trigger] tab[a].sha@ != #[trigger] tab[b].sha@
    &&& forall|t: int|
        0 <= t < tab.len() ==> {
            let g = #[trigger] tab[t];
            &&& usize_ints(g.rows@) == culprit_rows(rows, min_bp, g.sha@)
            &&& g.rows@.len() >= 1
            &&& g.score == culprit_score(rows, min_bp, g.sha@)
            &&& g.min_bp == culprit_min_bp(rows, min_bp, g.sha@)
        }
    &&& forall|sha: Seq<char>|
        #![trigger culprit_rows(rows, min_bp, sha)]
        culprit_rows(rows, min_bp, sha).len() >= 1 ==> exists|t: int|
            0 <= t < tab.len() && tab[t].sha@ == sha
}

fn find_group(tab: &Vec<CulpritGroup>, sha: &String) -> (r: Option<usize>)
    ensures
        match r {
            Some(t) => t < tab@.len() && tab@[t as int].sha@ == sha@,
            None => forall|t: int| 0 <= t < tab@.len() ==> tab@[t].sha@ != sha@,
        },
{
    let mut t: usize = 0;
    while t < tab.len()
        invariant
            t <= tab@.len(),
            forall|u: int| 0 <= u < t ==> tab@[u].sha@ != sha@,
        decreases tab.len() - t,
    {
        if tab[t].sha == *sha {
            return Some(t);
        }
        t = t + 1;
    }
    None
}

/// Groups the counted signals by culprit.
fn group_by_culprit(signals: &[SignalRow], min_bp: u32) -> (tab: Vec<CulpritGroup>)
    requires
        row_mass(signals@, min_bp) <= i64::MAX,
    ensures
        groups_match(tab@, signals@, min_bp),
{
    let mut tab: Vec<CulpritGroup> = Vec::new();
    let mut i: usize = 0;
    assert(signals@.take(0) == Seq::<SignalRow>::empty());
    while i < signals.len()
        invariant
            i <= signals@.len(),
            row_mass(signals@, min_bp) <= i64::MAX,
            groups_match(tab@, signals@.take(i as int), min_bp),
        decreases signals.len() - i,
    {
        let row = &signals[i];
        let ghost pre = signals@.take(i as int);
        let ghost post = signals@.take(i as int + 1);
        proof {
            assert(post.drop_last() == pre);
            assert(post.last() == *row);
            lemma_mass_prefix(signals@, min_bp, i as int + 1);
            lemma_culprit_bounds(post, min_bp, row.culprit_sha@);
            lemma_culprit_bounds(pre, min_bp, row.culprit_sha@);
            assert forall|sha: Seq<char>| sha != row.culprit_sha@ || !row_counts(*row, min_bp) implies
                culprit_rows(post, min_bp, sha) == culprit_rows(pre, min_bp, sha)
                && culprit_score(post, min_bp, sha) == culprit_score(pre, min_bp, sha)
                && culprit_min_bp(post, min_bp, sha) == culprit_min_bp(pre, min_bp, sha) by {}
        }
        if row.confidence_bp >= min_bp {
            match find_group(&tab, &row.culprit_sha) {
                Some(t) => {
                    let ghost before = tab@;
                    let sc = tab[t].score + row.weight;
                    let mb = if row.confidence_bp < tab[t].min_bp {
                        row.confidence_bp
                    } else {
                        tab[t].min_bp
                    };
                    tab[t].score = sc;
                    tab[t].min_bp = mb;
                    tab[t].rows.push(i);
                    proof {
                        assert(usize_ints(tab@[t as int].rows@) == usize_ints(before[t as int].rows@).push(i as int));
                        assert forall|u: int| 0 <= u < tab@.len() && u != t implies tab@[u] == before[u] by {}
                        assert forall|sha: Seq<char>| #![trigger culprit_rows(post, min_bp, sha)]
                            culprit_rows(post, min_bp, sha).len() >= 1 implies exists|u: int|
                                0 <= u < tab@.len() && tab@[u].sha@ == sha by {
                            if sha == row.culprit_sha@ {
                                assert(tab@[t as int].sha@ == sha);
                            } else {
                                assert(culprit_rows(pre, min_bp, sha).len() >= 1);
                                let u = choose|u: int| 0 <= u < before.len() && before[u].sha@ == sha;
                                assert(tab@[u].sha@ == sha);
                            }
                        }
                    }
                },
                None => {
                    let mut rs: Vec<usize> = Vec::new();
                    rs.push(i);
                    let g = CulpritGroup {
                        sha: row.culprit_sha.clone(),
                        rows: rs,
                        score: row.weight,
                        min_bp: row.confidence_bp,
                    };
                    let ghost before = tab@;
                    tab.push(g);
                    proof {
                        assert(culprit_rows(pre, min_bp, row.culprit_sha@).len() == 0) by {
                            if culprit_rows(pre, min_bp, row.culprit_sha@).len() >= 1 {
                                let u = choose|u: int| 0 <= u < before.len() && before[u].sha@ == row.culprit_sha@;
                            }
                        }
                        assert(usize_ints(rs@) == seq![i as int]);
                        assert(culprit_rows(pre, min_bp, row.culprit_sha@) == Seq::<int>::empty());
                        assert forall|sha: Seq<char>| #![trigger culprit_rows(post, min_bp, sha)]
                            culprit_rows(post, min_bp, sha).len() >= 1 implies exists|u: int|
                                0 <= u < tab@.len() && tab@[u].sha@ == sha by {
                            if sha == row.culprit_sha@ {
                                assert(tab@[before.len() as int].sha@ == sha);
                            } else {
                                assert(culprit_rows(pre, min_bp, sha).len() >= 1);
                                let u = choose|u: int| 0 <= u < before.len() && before[u].sha@ == sha;
                                assert(tab@[u].sha@ == sha);
                            }
                        }
                    }
                },
            }
        } else {
            proof {
                assert forall|sha: Seq<char>| #![trigger culprit_rows(post, min_bp, sha)]
                    culprit_rows(post, min_bp, sha).len() >= 1 implies exists|u: int|
                        0 <= u < tab@.len() && tab@[u].sha@ == sha by {
                    assert(culprit_rows(pre, min_bp, sha).len() >= 1);
                }
            }
        }
        i = i + 1;
    }
    assert(signals@.take(signals@.len() as int) == signals@);
    tab
}

spec fn group_before(tab: Seq<CulpritGroup>, a: int, b: int) -> bool {
    tab[a].score > tab[b].score || (tab[a].score == tab[b].score && text_lt(tab[a].sha@, tab[b].sha@))
}

proof fn lemma_group_order(tab: Seq<CulpritGroup>, x: int, y: int, z: int)
    ensures
        group_before(tab, x, y) && group_before(tab, y, z) ==> group_before(tab, x, z),
        tab[x].sha@ != tab[y].sha@ && !group_before(tab, x, y) ==> group_before(tab, y, x),
        !group_before(tab, x, x),
{
    lemma_text_lt_order(tab[x].sha@, tab[y].sha@, tab[z].sha@);
    lemma_text_lt_order(tab[y].sha@, tab[x].sha@, tab[z].sha@);
    lemma_text_lt_order(tab[x].sha@, tab[x].sha@, tab[x].sha@);
}

fn groups_in_order(tab: &Vec<CulpritGroup>, a: usize, b: usize) -> (r: bool)
    requires
        a < tab@.len(),
        b < tab@.len(),
    ensures
        r == group_before(tab@, a as int, b as int),
{
    tab[a].score > tab[b].score || (tab[a].score == tab[b].score && str_lt(
        tab[a].sha.as_str(),
        tab[b].sha.as_str(),
    ))
}

/// The group positions, ordered by score descending, then SHA ascending.
fn rank_groups(tab: &Vec<CulpritGroup>) -> (order: Vec<usize>)
    requires
        forall|a: int, b: int|
            0 <= a < b < tab@.len() ==> #[trigger] tab@[a].sha@ != #[trigger] tab@[b].sha@,
    ensures
        order@.len() == tab@.len(),
        forall|k: int| 0 <= k < order@.len() ==> #[trigger] order@[k] < tab@.len(),
        forall|u: int| 0 <= u < tab@.len() ==> #[trigger] order@.contains(u as usize),
        forall|a: int, b: int|
            0 <= a < b < order@.len() ==> group_before(
                tab@,
                #[trigger] order@[a] as int,
                #[trigger] order@[b] as int,
            ),
{
    let mut order: Vec<usize> = Vec::new();
    let mut g: usize = 0;
    while g < tab.len()
        invariant
            g <= tab@.len(),
            forall|a: int, b: int|
                0 <= a < b < tab@.len() ==> #[trigger] tab@[a].sha@ != #[trigger] tab@[b].sha@,
            order@.len() == g,
            forall|k: int| 0 <= k < order@.len() ==> #[trigger] order@[k] < g,
            forall|u: int| 0 <= u < g ==> #[trigger] order@.contains(u as usize),
            forall|a: int, b: int|
                0 <= a < b < order@.len() ==> group_before(
                    tab@,
                    #[trigger] order@[a] as int,
                    #[trigger] order@[b] as int,
                ),
        decreases tab.len() - g,
    {
        let mut pos: usize = 0;
        while pos < order.len() && groups_in_order(tab, order[pos], g)
            invariant
                g < tab@.len(),
                pos <= order@.len(),
                order@.len() == g,
                forall|k: int| 0 <= k < order@.len() ==> #[trigger] order@[k] < g,
                forall|a: int| 0 <= a < pos ==> group_before(tab@, #[trigger] order@[a] as int, g as int),
            decreases order.len() - pos,
        {
            pos = pos + 1;
        }
        let ghost old_order = order@;
        proof {
            if pos < old_order.len() {
                let p = old_order[pos as int] as int;
                assert(tab@[p].sha@ != tab@[g as int].sha@);
                lemma_group_order(tab@, p, g as int, p);
            }
        }
        order.insert(pos, g);
        proof {
            let n = order@;
            assert(n == old_order.insert(pos as int, g));
            assert forall|a: int, b: int|
                0 <= a < b < n.len() implies group_before(tab@, #[trigger] n[a] as int, #[trigger] n[b] as int) by {
                if b < pos {
                } else if b == pos {
                    assert(n[a] == old_order[a]);
                } else if a < pos {
                    assert(n[a] == old_order[a]);
                    assert(n[b] == old_order[b - 1]);
                } else if a == pos {
                    assert(n[b] == old_order[b - 1]);
                    let p = old_order[pos as int] as int;
                    if b - 1 > pos {
                        lemma_group_order(tab@, g as int, p, old_order[b - 1] as int);
                    }
                } else {
                    assert(n[a] == old_order[a - 1]);
                    assert(n[b] == old_order[b - 1]);
                }
            }
            assert forall|u: int| 0 <= u < g + 1 implies #[trigger] n.contains(u as usize) by {
                if u == g {
                    assert(n[pos as int] == g);
                } else {
                    assert(old_order.contains(u as usize));
                    let k = choose|k: int| 0 <= k < old_order.len() && old_order[k] == u as usize;
                    if k < pos {
                        assert(n[k] == u as usize);
                    } else {
                        assert(n[k + 1] == u as usize);
                    }
                }
            }
            assert forall|k: int| 0 <= k < n.len() implies #[trigger] n[k] < g + 1 by {
                if k < pos {
                    assert(n[k] == old_order[k]);
                } else if k > pos {
                    assert(n[k] == old_order[k - 1]);
                }
            }
        }
        g = g + 1;
    }
    order
}

/// The inputs on which the ranking's scores fit in 64 bits.
pub open spec fn ranking_input_fits(signals: Seq<SignalRow>, min_confidence_bp: u32) -> bool {
    row_mass(signals, min_confidence_bp) <= i64::MAX
}

/// The ages of a ranking are those of its culprits' dates at one moment.
pub open spec fn ages_at(r: Seq<RankedCulprit>, now: (int, int)) -> bool {
    forall|k: int|
        0 <= k < r.len() ==> (#[trigger] r[k]).culprit_age@ == age_text_at(
            r[k].culprit_date_utc@,
            now,
        )
}

/// Every age of a ranking is unknown (`?`).
pub open spec fn ages_unknown(r: Seq<RankedCulprit>) -> bool {
    forall|k: int| 0 <= k < r.len() ==> (#[trigger] r[k]).culprit_age@ == "?"@
}

/// The ages at a moment, or unknown without one.
pub open spec fn ages_opt(r: Seq<RankedCulprit>, now: Option<(i64, u32)>) -> bool {
    match now {
        Some(t) => ages_at(r, (t.0 as int, t.1 as int)),
        None => ages_unknown(r),
    }
}

/// Aggregate signals into ranked culprits, with ages taken at the current
/// time (all `?` when the clock reads before 1970; `aggregate_culprits_at`
/// takes the moment instead).
///
/// Score = sum of weights of a culprit's signals with confidence at least
/// `min_confidence_bp`; the ranking is by score descending, then culprit SHA
/// ascending, with ids from 1. Date and subject come from a culprit's first
/// signal.
pub fn aggregate_culprits(signals: &[SignalRow], min_confidence_bp: u32) -> (r: Vec<RankedCulprit>)
    requires
        ranking_input_fits(signals@, min_confidence_bp),
    ensures
        is_ranking(signals@, min_confidence_bp, r@),
        ages_unknown(r@) || exists|now: (int, int)| ages_at(r@, now),
{
    let now = clock_now();
    let r = rank_culprits(signals, min_confidence_bp, now);
    match now {
        Some(t) => {
            assert(ages_at(r@, (t.0 as int, t.1 as int)));
        },
        None => {},
    }
    r
}

/// Aggregate signals into ranked culprits, as `aggregate_culprits` does, with
/// ages taken at the given moment.
pub fn aggregate_culprits_at(signals: &[SignalRow], min_confidence_bp: u32, now: (i64, u32)) -> (r:
    Vec<RankedCulprit>)
    requires
        ranking_input_fits(signals@, min_confidence_bp),
    ensures
        is_ranking(signals@, min_confidence_bp, r@),
        ages_at(r@, (now.0 as int, now.1 as int)),
{
    rank_culprits(signals, min_confidence_bp, Some(now))
}

fn rank_culprits(signals: &[SignalRow], min_confidence_bp: u32, now: Option<(i64, u32)>) -> (r:
    Vec<RankedCulprit>)
    requires
        ranking_input_fits(signals@, min_confidence_bp),
    ensures
        is_ranking(signals@, min_confidence_bp, r@),
        ages_opt(r@, now),
{
    let tab = group_by_culprit(signals, min_confidence_bp);
    let order = rank_groups(&tab);
    let ghost rows = signals@;
    let mut out: Vec<RankedCulprit> = Vec::new();
    let mut k: usize = 0;
    while k < order.len()
        invariant
            k <= order@.len(),
            order@.len() == tab@.len(),
            rows == signals@,
            groups_match(tab@, rows, min_confidence_bp),
            forall|j: int| 0 <= j < order@.len() ==> #[trigger] order@[j] < tab@.len(),
            out@.len() == k,
            forall|j: int|
                0 <= j < k ==> ranked_entry(rows, min_confidence_bp, j, #[trigger] out@[j])
                    && out@[j].culprit_sha@ == tab@[order@[j] as int].sha@,
            ages_opt(out@, now),
        decreases order.len() - k,
    {
        let gi = order[k];
        let grp = &tab[gi];
        proof {
            lemma_culprit_bounds(rows, min_confidence_bp, grp.sha@);
            assert(usize_ints(grp.rows@)[0] == grp.rows@[0] as int);
        }
        let first = grp.rows[0];
        let row = &signals[first];
        let date = row.culprit_time_utc.clone();
        let subject = match &row.culprit_subject {
            Some(s) => s.clone(),
            None => "(no subject)".to_string(),
        };
        let age = match now {
            Some(t) => age_at(date.as_str(), t),
            None => "?".to_string(),
        };
        let mut idx: Vec<usize> = Vec::new();
        let mut m: usize = 0;
        while m < grp.rows.len()
            invariant
                m <= grp.rows@.len(),
                idx@ == grp.rows@.take(m as int),
            decreases grp.rows.len() - m,
        {
            idx.push(grp.rows[m]);
            m = m + 1;
            assert(idx@ =~= grp.rows@.take(m as int));
        }
        assert(grp.rows@.take(grp.rows@.len() as int) == grp.rows@);
        let c = RankedCulprit {
            id: k + 1,
            score: grp.score,
            events: grp.rows.len(),
            culprit_sha: grp.sha.clone(),
            culprit_date_utc: date,
            culprit_age: age,
            subject_trunc: subject,
            min_confidence_bp: grp.min_bp,
            signal_rows: idx,
        };
        proof {
            assert(usize_ints(c.signal_rows@) == culprit_rows(rows, min_confidence_bp, c.culprit_sha@));
            assert(c.events == culprit_rows(rows, min_confidence_bp, c.culprit_sha@).len());
        }
        out.push(c);
        k = k + 1;
    }
    proof {
        assert forall|a: int, b: int|
            0 <= a < b < out@.len() implies ranked_before(
                rows,
                min_confidence_bp,
                (#[trigger] out@[a]).culprit_sha@,
                (#[trigger] out@[b]).culprit_sha@,
            ) by {
            assert(group_before(tab@, order@[a] as int, order@[b] as int));
        }
        assert forall|sha: Seq<char>|
            #![trigger culprit_rows(rows, min_confidence_bp, sha)]
            culprit_rows(rows, min_confidence_bp, sha).len() >= 1 implies exists|j: int|
                0 <= j < out@.len() && out@[j].culprit_sha@ == sha by {
            let t = choose|t: int| 0 <= t < tab@.len() && tab@[t].sha@ == sha;
            assert(order@.contains(t as usize));
            let j = choose|j: int| 0 <= j < order@.len() && order@[j] == t as usize;
            assert(out@[j].culprit_sha@ == sha);
        }
    }
    out
}

/// The culprit SHAs of a ranking, in order.
pub open spec fn ranked_shas(r: Seq<RankedCulprit>) -> Seq<Seq<char>> {
    r.map_values(|c: RankedCulprit| c.culprit_sha@)
}

/// Ranking before is a strict order: never both ways, never of a culprit
/// and itself.
pub proof fn lemma_ranked_before_asym(rows: Seq<SignalRow>, min_bp: u32, a: Seq<char>, b: Seq<char>)
    ensures
        ranked_before(rows, min_bp, a, b) ==> !ranked_before(rows, min_bp, b, a),
        !ranked_before(rows, min_bp, a, a),
{
    lemma_text_lt_order(a, b, a);
}

proof fn lemma_sorted_same_contents(
    rows: Seq<SignalRow>,
    min_bp: u32,
    s1: Seq<Seq<char>>,
    s2: Seq<Seq<char>>,
)
    requires
        forall|a: int, b: int|
            0 <= a < b < s1.len() ==> ranked_before(rows, min_bp, #[trigger] s1[a], #[trigger] s1[b]),
        forall|a: int, b: int|
            0 <= a < b < s2.len() ==> ranked_before(rows, min_bp, #[trigger] s2[a], #[trigger] s2[b]),
        forall|x: Seq<char>| s1.contains(x) <==> s2.contains(x),
    ensures
        s1 == s2,
    decreases s1.len(),
{
    if s1.len() == 0 {
        if s2.len() > 0 {
            assert(s2.contains(s2[0]));
        }
        assert(s2.len() == 0);
    } else {
        assert(s1.contains(s1[0]));
        assert(s2.len() > 0) by {
            if s2.len() == 0 {
                assert(s2.contains(s1[0]));
            }
        }
        assert(s2.contains(s2[0]));
        let x = s1[0];
        let y = s2[0];
        if x != y {
            let k1 = choose|k: int| 0 <= k < s1.len() && s1[k] == y;
            let k2 = choose|k: int| 0 <= k < s2.len() && s2[k] == x;
            assert(k1 != 0 && k2 != 0);
            assert(ranked_before(rows, min_bp, s1[0], s1[k1]));
            assert(ranked_before(rows, min_bp, s2[0], s2[k2]));
            lemma_ranked_before_asym(rows, min_bp, x, y);
            assert(false);
        }
        let t1 = s1.drop_first();
        let t2 = s2.drop_first();
        assert forall|x2: Seq<char>| t1.contains(x2) <==> t2.contains(x2) by {
            if t1.contains(x2) {
                let k = choose|k: int| 0 <= k < t1.len() && t1[k] == x2;
                assert(s1[k + 1] == x2);
                assert(ranked_before(rows, min_bp, s1[0], s1[k + 1]));
                lemma_ranked_before_asym(rows, min_bp, x2, x2);
                assert(x2 != x);
                assert(s1.contains(x2));
                let j = choose|j: int| 0 <= j < s2.len() && s2[j] == x2;
                assert(j != 0);
                assert(t2[j - 1] == x2);
            }
            if t2.contains(x2) {
                let k = choose|k: int| 0 <= k < t2.len() && t2[k] == x2;
                assert(s2[k + 1] == x2);
                assert(ranked_before(rows, min_bp, s2[0], s2[k + 1]));
                lemma_ranked_before_asym(rows, min_bp, x2, x2);
                assert(x2 != y);
                assert(s2.contains(x2));
                let j = choose|j: int| 0 <= j < s1.len() && s1[j] == x2;
                assert(j != 0);
                assert(t1[j - 1] == x2);
            }
        }
        assert forall|a: int, b: int| 0 <= a < b < t1.len() implies ranked_before(
            rows,
            min_bp,
            #[trigger] t1[a],
            #[trigger] t1[b],
        ) by {
            assert(t1[a] == s1[a + 1] && t1[b] == s1[b + 1]);
        }
        assert forall|a: int, b: int| 0 <= a < b < t2.len() implies ranked_before(
            rows,
            min_bp,
            #[trigger] t2[a],
            #[trigger] t2[b],
        ) by {
            assert(t2[a] == s2[a + 1] && t2[b] == s2[b + 1]);
        }
        lemma_sorted_same_contents(rows, min_bp, t1, t2);
        assert(s1 == seq![x] + t1);
        assert(s2 == seq![y] + t2);
    }
}

/// The ranking of a set of signals is unique: any two rankings of the same
/// signals list the same culprits in the same order.
pub proof fn lemma_ranking_unique(
    rows: Seq<SignalRow>,
    min_bp: u32,
    r1: Seq<RankedCulprit>,
    r2: Seq<RankedCulprit>,
)
    requires
        is_ranking(rows, min_bp, r1),
        is_ranking(rows, min_bp, r2),
    ensures
        ranked_shas(r1) == ranked_shas(r2),
{
    let s1 = ranked_shas(r1);
    let s2 = ranked_shas(r2);
    assert forall|a: int, b: int| 0 <= a < b < s1.len() implies ranked_before(
        rows,
        min_bp,
        #[trigger] s1[a],
        #[trigger] s1[b],
    ) by {
        assert(ranked_before(rows, min_bp, r1[a].culprit_sha@, r1[b].culprit_sha@));
    }
    assert forall|a: int, b: int| 0 <= a < b < s2.len() implies ranked_before(
        rows,
        min_bp,
        #[trigger] s2[a],
        #[trigger] s2[b],
    ) by {
        assert(ranked_before(rows, min_bp, r2[a].culprit_sha@, r2[b].culprit_sha@));
    }
    assert forall|x: Seq<char>| s1.contains(x) <==> s2.contains(x) by {
        if s1.contains(x) {
            let k = choose|k: int| 0 <= k < s1.len() && s1[k] == x;
            assert(ranked_entry(rows, min_bp, k, r1[k]));
            assert(culprit_rows(rows, min_bp, x).len() >= 1);
            let j = choose|j: int| 0 <= j < r2.len() && r2[j].culprit_sha@ == x;
            assert(s2[j] == x);
        }
        if s2.contains(x) {
            let k = choose|k: int| 0 <= k < s2.len() && s2[k] == x;
            assert(ranked_entry(rows, min_bp, k, r2[k]));
            assert(culprit_rows(rows, min_bp, x).len() >= 1);
            let j = choose|j: int| 0 <= j < r1.len() && r1[j].culprit_sha@ == x;
            assert(s1[j] == x);
        }
    }
    lemma_sorted_same_contents(rows, min_bp, s1, s2);
}

// ---------------------------------------------------------------------------
// Order of evidence records
// ---------------------------------------------------------------------------

/// Evidence `i` is listed before evidence `j`: by evidence time (ascending,
/// or descending when `desc`), then evidence SHA, then position (the sort is
/// stable).
pub open spec fn evidence_before(signals: Seq<SignalRow>, desc: bool, i: int, j: int) -> bool {
    let ti = signals[i].evidence_time_utc@;
    let tj = signals[j].evidence_time_utc@;
    let ei = signals[i].evidence_sha@;
    let ej = signals[j].evidence_sha@;
    (if desc { text_lt(tj, ti) } else { text_lt(ti, tj) }) || (ti == tj && (text_lt(ei, ej) || (ei
        == ej && i < j)))
}

/// A signal is picked: any signal, or one of the given culprit.
pub open spec fn picks(sha: Option<Seq<char>>, r: SignalRow) -> bool {
    match sha {
        None => true,
        Some(s) => r.culprit_sha@ == s,
    }
}

/// Number of picked signals.
pub open spec fn pick_count(signals: Seq<SignalRow>, sha: Option<Seq<char>>) -> int
    decreases signals.len(),
{
    if signals.len() == 0 {
        0
    } else {
        pick_count(signals.drop_last(), sha) + if picks(sha, signals.last()) {
            1int
        } else {
            0int
        }
    }
}

/// Number of signals of a culprit, whatever their confidence.
pub open spec fn sha_count(signals: Seq<SignalRow>, sha: Seq<char>) -> int {
    pick_count(signals, Some(sha))
}

/// Where the evidence of the `k`-th ranked culprit starts.
pub open spec fn evidence_offset(shas: Seq<Seq<char>>, signals: Seq<SignalRow>, k: int) -> int
    decreases k,
{
    if k <= 0 {
        0
    } else {
        evidence_offset(shas, signals, k - 1) + sha_count(signals, shas[k - 1])
    }
}

/// The evidence order of a ranking: for each ranked culprit in turn, all its
/// signals (by position), ordered by `evidence_before`.
pub open spec fn is_evidence_order(shas: Seq<Seq<char>>, signals: Seq<SignalRow>, r: Seq<usize>) -> bool {
    &&& r.len() == evidence_offset(shas, signals, shas.len() as int)
    &&& forall|k: int, p: int|
        #![trigger evidence_offset(shas, signals, k), r[p]]
        0 <= k < shas.len() && evidence_offset(shas, signals, k) <= p < evidence_offset(
            shas,
            signals,
            k + 1,
        ) ==> r[p] < signals.len() && signals[r[p] as int].culprit_sha@ == shas[k]
    &&& forall|k: int, p: int, q: int|
        #![trigger evidence_offset(shas, signals, k), r[p], r[q]]
        0 <= k < shas.len() && evidence_offset(shas, signals, k) <= p < q < evidence_offset(
            shas,
            signals,
            k + 1,
        ) ==> evidence_before(signals, false, r[p] as int, r[q] as int)
}

proof fn lemma_evidence_order(signals: Seq<SignalRow>, desc: bool, i: int, j: int, k: int)
    requires
        0 <= i < signals.len(),
        0 <= j < signals.len(),
        0 <= k < signals.len(),
    ensures
        evidence_before(signals, desc, i, j) && evidence_before(signals, desc, j, k)
            ==> evidence_before(signals, desc, i, k),
        i != j && !evidence_before(signals, desc, i, j) ==> evidence_before(signals, desc, j, i),
        !evidence_before(signals, desc, i, i),
{
    let (ti, tj, tk) = (
        signals[i].evidence_time_utc@,
        signals[j].evidence_time_utc@,
        signals[k].evidence_time_utc@,
    );
    let (ei, ej, ek) = (signals[i].evidence_sha@, signals[j].evidence_sha@, signals[k].evidence_sha@);
    lemma_text_lt_order(ti, tj, tk);
    lemma_text_lt_order(tj, ti, tk);
    lemma_text_lt_order(ti, tk, tj);
    lemma_text_lt_order(tk, tj, ti);
    lemma_text_lt_order(tj, tk, ti);
    lemma_text_lt_order(tk, ti, tj);
    lemma_text_lt_order(ei, ej, ek);
    lemma_text_lt_order(ej, ei, ek);
    lemma_text_lt_order(ei, ek, ej);
    lemma_text_lt_order(ti, ti, ti);
    lemma_text_lt_order(ei, ei, ei);
}

fn signals_in_order(signals: &[SignalRow], desc: bool, i: usize, j: usize) -> (r: bool)
    requires
        i < signals@.len(),
        j < signals@.len(),
    ensures
        r == evidence_before(signals@, desc, i as int, j as int),
{
    let ti = &signals[i].evidence_time_utc;
    let tj = &signals[j].evidence_time_utc;
    let earlier = if desc {
        str_lt(tj.as_str(), ti.as_str())
    } else {
        str_lt(ti.as_str(), tj.as_str())
    };
    if earlier {
        return true;
    }
    if *ti != *tj {
        return false;
    }
    let ei = &signals[i].evidence_sha;
    let ej = &signals[j].evidence_sha;
    if str_lt(ei.as_str(), ej.as_str()) {
        return true;
    }
    *ei == *ej && i < j
}

/// The text of an optional string.
pub open spec fn opt_sha(sha: Option<&String>) -> Option<Seq<char>> {
    match sha {
        Some(s) => Some(s@),
        None => None,
    }
}

/// The positions of the picked signals (all, or those of one culprit),
/// ordered by `evidence_before`.
pub fn picked_evidence(signals: &[SignalRow], sha: Option<&String>, desc: bool) -> (seg: Vec<usize>)
    ensures
        seg@.len() == pick_count(signals@, opt_sha(sha)),
        forall|p: int| 0 <= p < seg@.len() ==> #[trigger] seg@[p] < signals@.len()
            && picks(opt_sha(sha), signals@[seg@[p] as int]),
        forall|p: int, q: int|
            0 <= p < q < seg@.len() ==> evidence_before(
                signals@,
                desc,
                #[trigger] seg@[p] as int,
                #[trigger] seg@[q] as int,
            ),
{
    let mut seg: Vec<usize> = Vec::new();
    let mut i: usize = 0;
    assert(signals@.take(0) == Seq::<SignalRow>::empty());
    while i < signals.len()
        invariant
            i <= signals@.len(),
            seg@.len() == pick_count(signals@.take(i as int), opt_sha(sha)),
            forall|p: int| 0 <= p < seg@.len() ==> #[trigger] seg@[p] < i
                && picks(opt_sha(sha), signals@[seg@[p] as int]),
            forall|p: int, q: int|
                0 <= p < q < seg@.len() ==> evidence_before(
                    signals@,
                    desc,
                    #[trigger] seg@[p] as int,
                    #[trigger] seg@[q] as int,
                ),
        decreases signals.len() - i,
    {
        assert(signals@.take(i as int + 1).drop_last() == signals@.take(i as int));
        let take = match sha {
            None => true,
            Some(s) => signals[i].culprit_sha == *s,
        };
        if take {
            let mut pos: usize = 0;
            while pos < seg.len() && signals_in_order(signals, desc, seg[pos], i)
                invariant
                    i < signals@.len(),
                    pos <= seg@.len(),
                    forall|p: int| 0 <= p < seg@.len() ==> #[trigger] seg@[p] < i,
                    forall|p: int| 0 <= p < pos ==> evidence_before(signals@, desc, #[trigger] seg@[p] as int, i as int),
                decreases seg.len() - pos,
            {
                pos = pos + 1;
            }
            let ghost old_seg = seg@;
            proof {
                if pos < old_seg.len() {
                    lemma_evidence_order(signals@, desc, old_seg[pos as int] as int, i as int, i as int);
                }
            }
            seg.insert(pos, i);
            proof {
                let n = seg@;
                assert(n == old_seg.insert(pos as int, i));
                assert forall|a: int, b: int| 0 <= a < b < n.len() implies evidence_before(
                    signals@,
                    desc,
                    #[trigger] n[a] as int,
                    #[trigger] n[b] as int,
                ) by {
                    if b < pos {
                    } else if b == pos {
                        assert(n[a] == old_seg[a]);
                    } else if a < pos {
                        assert(n[a] == old_seg[a]);
                        assert(n[b] == old_seg[b - 1]);
                    } else if a == pos {
                        assert(n[b] == old_seg[b - 1]);
                        let p0 = old_seg[pos as int] as int;
                        if b - 1 > pos {
                            lemma_evidence_order(signals@, desc, i as int, p0, old_seg[b - 1] as int);
                        }
                    } else {
                        assert(n[a] == old_seg[a - 1]);
                        assert(n[b] == old_seg[b - 1]);
                    }
                }
                assert forall|p: int| 0 <= p < n.len() implies #[trigger] n[p] < i + 1
                    && picks(opt_sha(sha), signals@[n[p] as int]) by {
                    if p < pos {
                        assert(n[p] == old_seg[p]);
                    } else if p > pos {
                        assert(n[p] == old_seg[p - 1]);
                    }
                }
            }
        }
        i = i + 1;
    }
    assert(signals@.take(signals@.len() as int) == signals@);
    seg
}

/// The order of the evidence records of a ranking: for each ranked culprit
/// in turn, the positions of all its signals, by evidence time, then
/// evidence SHA, then position.
pub fn evidence_order(ranked: &[RankedCulprit], signals: &[SignalRow]) -> (r: Vec<usize>)
    ensures
        is_evidence_order(ranked_shas(ranked@), signals@, r@),
{
    let ghost shas = ranked_shas(ranked@);
    let mut out: Vec<usize> = Vec::new();
    let mut k: usize = 0;
    while k < ranked.len()
        invariant
            k <= ranked@.len(),
            shas == ranked_shas(ranked@),
            out@.len() == evidence_offset(shas, signals@, k as int),
            forall|k2: int, p: int|
                #![trigger evidence_offset(shas, signals@, k2), out@[p]]
                0 <= k2 < k && evidence_offset(shas, signals@, k2) <= p < evidence_offset(
                    shas,
                    signals@,
                    k2 + 1,
                ) ==> out@[p] < signals@.len() && signals@[out@[p] as int].culprit_sha@
                    == shas[k2],
            forall|k2: int, p: int, q: int|
                #![trigger evidence_offset(shas, signals@, k2), out@[p], out@[q]]
                0 <= k2 < k && evidence_offset(shas, signals@, k2) <= p < q < evidence_offset(
                    shas,
                    signals@,
                    k2 + 1,
                ) ==> evidence_before(signals@, false, out@[p] as int, out@[q] as int),
        decreases ranked.len() - k,
    {
        let seg = picked_evidence(signals, Some(&ranked[k].culprit_sha), false);
        let ghost before = out@;
        let mut m: usize = 0;
        while m < seg.len()
            invariant
                m <= seg@.len(),
                out@ == before + seg@.take(m as int),
            decreases seg.len() - m,
        {
            out.push(seg[m]);
            m = m + 1;
            assert(out@ =~= before + seg@.take(m as int));
        }
        proof {
            assert(seg@.take(seg@.len() as int) == seg@);
            assert(shas[k as int] == ranked@[k as int].culprit_sha@);
            let off = evidence_offset(shas, signals@, k as int);
            assert forall|k2: int, p: int|
                #![trigger evidence_offset(shas, signals@, k2), out@[p]]
                0 <= k2 < k + 1 && evidence_offset(shas, signals@, k2) <= p < evidence_offset(
                    shas,
                    signals@,
                    k2 + 1,
                ) implies out@[p] < signals@.len() && signals@[out@[p] as int].culprit_sha@
                    == shas[k2] by {
                lemma_offset_mono(shas, signals@, 0, k2);
                if k2 < k {
                    lemma_offset_mono(shas, signals@, k2 + 1, k as int);
                    assert(out@[p] == before[p]);
                } else {
                    assert(out@[p] == seg@[p - off]);
                }
            }
            assert forall|k2: int, p: int, q: int|
                #![trigger evidence_offset(shas, signals@, k2), out@[p], out@[q]]
                0 <= k2 < k + 1 && evidence_offset(shas, signals@, k2) <= p < q < evidence_offset(
                    shas,
                    signals@,
                    k2 + 1,
                ) implies evidence_before(signals@, false, out@[p] as int, out@[q] as int) by {
                lemma_offset_mono(shas, signals@, 0, k2);
                if k2 < k {
                    lemma_offset_mono(shas, signals@, k2 + 1, k as int);
                    assert(out@[p] == before[p]);
                    assert(out@[q] == before[q]);
                } else {
                    assert(out@[p] == seg@[p - off]);
                    assert(out@[q] == seg@[q - off]);
                }
            }
        }
        k = k + 1;
    }
    out
}

proof fn lemma_sha_count_nonneg(signals: Seq<SignalRow>, sha: Seq<char>)
    ensures
        sha_count(signals, sha) >= 0,
{
    lemma_pick_count_bounds(signals, Some(sha));
}

/// At most all signals are picked, and all of them when no culprit is named.
pub proof fn lemma_pick_count_bounds(signals: Seq<SignalRow>, sha: Option<Seq<char>>)
    ensures
        0 <= pick_count(signals, sha) <= signals.len(),
        sha is None ==> pick_count(signals, sha) == signals.len(),
    decreases signals.len(),
{
    if signals.len() > 0 {
        lemma_pick_count_bounds(signals.drop_last(), sha);
    }
}

proof fn lemma_offset_mono(shas: Seq<Seq<char>>, signals: Seq<SignalRow>, a: int, b: int)
    requires
        0 <= a <= b,
    ensures
        evidence_offset(shas, signals, a) <= evidence_offset(shas, signals, b),
    decreases b - a,
{
    if a < b {
        lemma_offset_mono(shas, signals, a, b - 1);
        lemma_sha_count_nonneg(signals, shas[b - 1]);
    }
}

} // verus!
