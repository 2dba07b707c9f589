//! Detection of regret signals in commit messages.
//!
//! Two kinds of message evidence are recognised:
//! - the canonical revert line that `git revert` writes,
//!   `This reverts commit <40 hex digits>.`, anywhere in the body;
//! - linked-fix trailers, `Fixes-Commit: <sha>` or `Fixes-SHA: <sha>` on a line
//!   of their own, with a 7 to 40 digit hexadecimal SHA prefix.
//!
//! The grammar of both is stated over the bytes of the message by the spec
//! functions below; whitespace is the Unicode `White_Space` property.

use vstd::prelude::*;
use crate::text::{
    ascii_lower_byte, byte_char, bytes_at, count_hex_run, hex_run_len, is_hex_byte,
    is_hex_digit, lemma_hex_run_nonneg, lower_chars, lower_hex_string, match_bytes_at,
    skip_line_ws, ws_len, ws_len_at, line_ws_run_end,
};

verus! {

/// Confidence of a canonical revert line, in basis points (0.95).
pub const CONFIDENCE_CANONICAL_REVERT_BP: u32 = 9500;

/// Confidence of a patch-ID equivalence, in basis points (0.90).
pub const CONFIDENCE_PATCH_ID_BP: u32 = 9000;

/// Confidence of an explicit trailer, in basis points (0.92).
pub const CONFIDENCE_LINKED_FIX_BP: u32 = 9200;

/// Default weight for revert signals
pub const WEIGHT_REVERT: i64 = 10;

/// Default weight for linked_fix signals
pub const WEIGHT_LINKED_FIX: i64 = 8;

/// Type of signal detected
#[derive(Debug, Clone, Copy, PartialEq, Eq, Structural)]
pub enum SignalType {
    Revert,
    LinkedFix,
}

pub open spec fn signal_type_name(t: SignalType) -> Seq<char> {
    match t {
        SignalType::Revert => "revert"@,
        SignalType::LinkedFix => "linked_fix"@,
    }
}

impl SignalType {
    pub fn as_str(&self) -> (r: &'static str)
        ensures
            r@ == signal_type_name(*self),
    {
        match self {
            SignalType::Revert => "revert",
            SignalType::LinkedFix => "linked_fix",
        }
    }
}

/// Reason for confidence assignment
#[derive(Debug, Clone, Copy, PartialEq, Eq, Structural)]
pub enum ConfidenceReason {
    CanonicalRevertLine,
    PatchIdEquivalence,
    ExplicitTrailer,
}

pub open spec fn confidence_reason_name(r: ConfidenceReason) -> Seq<char> {
    match r {
        ConfidenceReason::CanonicalRevertLine => "canonical_revert_line"@,
        ConfidenceReason::PatchIdEquivalence => "patch_id_equivalence"@,
        ConfidenceReason::ExplicitTrailer => "explicit_trailer"@,
    }
}

impl ConfidenceReason {
    pub fn as_str(&self) -> (r: &'static str)
        ensures
            r@ == confidence_reason_name(*self),
    {
        match self {
            ConfidenceReason::CanonicalRevertLine => "canonical_revert_line",
            ConfidenceReason::PatchIdEquivalence => "patch_id_equivalence",
            ConfidenceReason::ExplicitTrailer => "explicit_trailer",
        }
    }
}

// ---------------------------------------------------------------------------
// Canonical revert lines
// ---------------------------------------------------------------------------

/// The bytes of `This reverts commit `.
pub open spec fn revert_prefix() -> Seq<u8> {
    seq![84u8, 104, 105, 115, 32, 114, 101, 118, 101, 114, 116, 115, 32, 99, 111, 109, 109, 105, 116, 32]
}

/// A canonical revert line starts at `i`: the prefix, 40 hexadecimal digits, a period.
pub open spec fn revert_match_at(s: Seq<u8>, i: int) -> bool {
    &&& bytes_at(s, i, revert_prefix())
    &&& i + 61 <= s.len()
    &&& forall|k: int| i + 20 <= k < i + 60 ==> is_hex_byte(#[trigger] s[k])
    &&& s[i + 60] == 46
}

/// The culprit SHA of the revert line at `i`, lower-cased.
pub open spec fn revert_sha_at(s: Seq<u8>, i: int) -> Seq<char> {
    lower_chars(s, i + 20, 40)
}

/// The SHAs of the revert lines that start before position `n`, in order.
pub open spec fn reverts_before(s: Seq<u8>, n: int) -> Seq<Seq<char>>
    decreases n,
{
    if n <= 0 {
        seq![]
    } else if revert_match_at(s, n - 1) {
        reverts_before(s, n - 1).push(revert_sha_at(s, n - 1))
    } else {
        reverts_before(s, n - 1)
    }
}

/// The SHAs of all canonical revert lines of a message, in order.
pub open spec fn canonical_reverts(s: Seq<u8>) -> Seq<Seq<char>> {
    reverts_before(s, s.len() as int)
}

fn revert_prefix_bytes() -> (r: Vec<u8>)
    ensures
        r@ == revert_prefix(),
{
    let r = vec![84u8, 104, 105, 115, 32, 114, 101, 118, 101, 114, 116, 115, 32, 99, 111, 109, 109, 105, 116, 32];
    assert(r@ =~= revert_prefix());
    r
}

fn revert_at(body: &[u8], i: usize, prefix: &Vec<u8>) -> (r: bool)
    requires
        prefix@ == revert_prefix(),
    ensures
        r == revert_match_at(body@, i as int),
{
    if !match_bytes_at(body, i, prefix.as_slice()) {
        return false;
    }
    if body.len() - i < 61 {
        return false;
    }
    let mut k: usize = i + 20;
    while k < i + 60
        invariant
            i + 61 <= body.len(),
            i + 20 <= k <= i + 60,
            forall|j: int| i + 20 <= j < k ==> is_hex_byte(#[trigger] body@[j]),
        decreases i + 60 - k,
    {
        if !is_hex_digit(body[k]) {
            return false;
        }
        k = k + 1;
    }
    body[i + 60] == 46
}

/// Detect canonical revert lines in a commit body.
///
/// Every occurrence of `This reverts commit <40 hex digits>.` counts, in the
/// order of the body; the SHAs come back lower-cased.
pub fn detect_canonical_reverts(body: &[u8]) -> (culprits: Vec<String>)
    ensures
        culprits.deep_view() == canonical_reverts(body@),
{
    let prefix = revert_prefix_bytes();
    let mut culprits: Vec<String> = Vec::new();
    let mut i: usize = 0;
    while i < body.len()
        invariant
            i <= body.len(),
            prefix@ == revert_prefix(),
            culprits.deep_view() == reverts_before(body@, i as int),
        decreases body.len() - i,
    {
        if revert_at(body, i, &prefix) {
            let sha = lower_hex_string(body, i + 20, 40);
            culprits.push(sha);
            assert(culprits.deep_view() =~= reverts_before(body@, i + 1));
        } else {
            assert(culprits.deep_view() =~= reverts_before(body@, i + 1));
        }
        i = i + 1;
    }
    culprits
}

// ---------------------------------------------------------------------------
// Linked-fix trailers
// ---------------------------------------------------------------------------

/// The bytes of `Fixes-Commit:`.
pub open spec fn fixes_commit_key() -> Seq<u8> {
    seq![70u8, 105, 120, 101, 115, 45, 67, 111, 109, 109, 105, 116, 58]
}

/// The bytes of `Fixes-SHA:`.
pub open spec fn fixes_sha_key() -> Seq<u8> {
    seq![70u8, 105, 120, 101, 115, 45, 83, 72, 65, 58]
}

/// A line starts at `i`.
pub open spec fn line_start(s: Seq<u8>, i: int) -> bool {
    i == 0 || (0 < i <= s.len() && s[i - 1] == 10)
}

/// A line ends at `t`.
pub open spec fn line_end(s: Seq<u8>, t: int) -> bool {
    t == s.len() || (0 <= t < s.len() && s[t] == 10)
}

/// Whitespace from `r` on leads to the end of the line.
pub open spec fn ws_reaches_line_end(s: Seq<u8>, r: int) -> bool
    decreases s.len() - r,
{
    if line_end(s, r) {
        true
    } else if 0 <= r < s.len() && ws_len(s, r) > 0 {
        ws_reaches_line_end(s, r + ws_len(s, r))
    } else {
        false
    }
}

/// The position after the trailer key at `i`, or -1 when no key starts there.
pub open spec fn trailer_value_start(s: Seq<u8>, i: int) -> int {
    if bytes_at(s, i, fixes_commit_key()) {
        i + 13
    } else if bytes_at(s, i, fixes_sha_key()) {
        i + 10
    } else {
        -1
    }
}

/// Where the SHA of a trailer at `i` begins: after the key and any
/// whitespace on the same line.
pub open spec fn trailer_sha_start(s: Seq<u8>, i: int) -> int {
    line_ws_run_end(s, trailer_value_start(s, i))
}

/// A linked-fix trailer starts at `i`: at a line start, a key, whitespace,
/// 7 to 40 hexadecimal digits, then only whitespace up to the end of the
/// line, all on that one line.
pub open spec fn trailer_match_at(s: Seq<u8>, i: int) -> bool {
    let q = trailer_sha_start(s, i);
    let h = hex_run_len(s, q);
    &&& line_start(s, i)
    &&& trailer_value_start(s, i) >= 0
    &&& 7 <= h <= 40
    &&& ws_reaches_line_end(s, q + h)
}

/// The SHA prefix of the trailer at `i`, lower-cased.
pub open spec fn trailer_sha_at(s: Seq<u8>, i: int) -> Seq<char> {
    let q = trailer_sha_start(s, i);
    lower_chars(s, q, hex_run_len(s, q))
}

/// The SHA prefixes of the trailers that start before position `n`, in order.
pub open spec fn trailers_before(s: Seq<u8>, n: int) -> Seq<Seq<char>>
    decreases n,
{
    if n <= 0 {
        seq![]
    } else if trailer_match_at(s, n - 1) {
        trailers_before(s, n - 1).push(trailer_sha_at(s, n - 1))
    } else {
        trailers_before(s, n - 1)
    }
}

/// The SHA prefixes of all linked-fix trailers of a message, in order.
pub open spec fn linked_fix_trailers(s: Seq<u8>) -> Seq<Seq<char>> {
    trailers_before(s, s.len() as int)
}

/// A linked-fix trailer found in a commit message.
/// The SHA prefix needs to be resolved against the repository.
#[derive(Debug, Clone)]
pub struct LinkedFixTrailer {
    /// The SHA prefix (7-40 hex characters, lowercase)
    pub sha_prefix: String,
}

fn fixes_commit_bytes() -> (r: Vec<u8>)
    ensures
        r@ == fixes_commit_key(),
{
    let r = vec![70u8, 105, 120, 101, 115, 45, 67, 111, 109, 109, 105, 116, 58];
    assert(r@ =~= fixes_commit_key());
    r
}

fn fixes_sha_bytes() -> (r: Vec<u8>)
    ensures
        r@ == fixes_sha_key(),
{
    let r = vec![70u8, 105, 120, 101, 115, 45, 83, 72, 65, 58];
    assert(r@ =~= fixes_sha_key());
    r
}

fn reaches_line_end(s: &[u8], r: usize) -> (b: bool)
    requires
        r <= s.len(),
    ensures
        b == ws_reaches_line_end(s@, r as int),
{
    let mut cur = r;
    loop
        invariant
            r <= cur <= s.len(),
            ws_reaches_line_end(s@, cur as int) == ws_reaches_line_end(s@, r as int),
        decreases s.len() - cur,
    {
        if cur == s.len() || s[cur] == 10 {
            return true;
        }
        let n = ws_len_at(s, cur);
        if n == 0 {
            return false;
        }
        cur = cur + n;
    }
}

/// Checks for a trailer at `i`; on a match, gives where its SHA starts and its length.
fn trailer_at(body: &[u8], i: usize, commit_key: &Vec<u8>, sha_key: &Vec<u8>) -> (r: Option<(usize, usize)>)
    requires
        i < body.len(),
        commit_key@ == fixes_commit_key(),
        sha_key@ == fixes_sha_key(),
    ensures
        r.is_some() == trailer_match_at(body@, i as int),
        r matches Some((q, h)) ==> {
            &&& q as int == trailer_sha_start(body@, i as int)
            &&& h as int == hex_run_len(body@, q as int)
            &&& q + h <= body.len()
        },
{
    if !(i == 0 || body[i - 1] == 10) {
        return None;
    }
    let p = if match_bytes_at(body, i, commit_key.as_slice()) {
        i + 13
    } else if match_bytes_at(body, i, sha_key.as_slice()) {
        i + 10
    } else {
        return None;
    };
    let q = skip_line_ws(body, p);
    let h = count_hex_run(body, q, 40);
    proof {
        lemma_hex_run_nonneg(body@, q as int);
    }
    if h < 7 || h > 40 {
        return None;
    }
    if !reaches_line_end(body, q + h) {
        return None;
    }
    Some((q, h))
}

/// Detect linked-fix trailers in a commit body.
///
/// A trailer is one line: `Fixes-Commit:` or `Fixes-SHA:` at its start, then
/// whitespace, a SHA prefix of 7 to 40 hexadecimal digits, and only whitespace
/// up to the end of the line. The prefixes come back lower-cased, in order.
pub fn detect_linked_fix_trailers(body: &[u8]) -> (trailers: Vec<LinkedFixTrailer>)
    ensures
        trailers@.len() == linked_fix_trailers(body@).len(),
        forall|k: int|
            0 <= k < trailers@.len() ==> (#[trigger] trailers@[k]).sha_prefix@
                == linked_fix_trailers(body@)[k],
{
    let commit_key = fixes_commit_bytes();
    let sha_key = fixes_sha_bytes();
    let mut trailers: Vec<LinkedFixTrailer> = Vec::new();
    let mut i: usize = 0;
    while i < body.len()
        invariant
            i <= body.len(),
            commit_key@ == fixes_commit_key(),
            sha_key@ == fixes_sha_key(),
            trailers@.len() == trailers_before(body@, i as int).len(),
            forall|k: int|
                0 <= k < trailers@.len() ==> (#[trigger] trailers@[k]).sha_prefix@
                    == trailers_before(body@, i as int)[k],
        decreases body.len() - i,
    {
        match trailer_at(body, i, &commit_key, &sha_key) {
            Some((q, h)) => {
                proof {
                    assert forall|j: int| q <= j < q + h implies is_hex_byte(body@[j]) by {
                        lemma_hex_run_prefix(body@, q as int, j);
                    }
                }
                let sha = lower_hex_string(body, q, h);
                trailers.push(LinkedFixTrailer { sha_prefix: sha });
            },
            None => {},
        }
        i = i + 1;
    }
    trailers
}

/// Every position inside a hexadecimal run holds a hexadecimal digit.
proof fn lemma_hex_run_prefix(s: Seq<u8>, q: int, j: int)
    requires
        0 <= q <= j < q + hex_run_len(s, q),
    ensures
        is_hex_byte(s[j]),
    decreases j - q,
{
    if j > q {
        lemma_hex_run_prefix(s, q + 1, j);
    }
}

// ---------------------------------------------------------------------------
// Time to regret
// ---------------------------------------------------------------------------

/// The instant (seconds since the Unix epoch, nanoseconds) that chrono's
/// `DateTime::parse_from_rfc3339` reads from a string, or `None` when it fails.
pub uninterp spec fn rfc3339_instant(s: Seq<char>) -> Option<(int, int)>;

/// The instant that chrono's `str::parse::<DateTime<Utc>>` reads from a string,
/// or `None` when it fails.
pub uninterp spec fn utc_datetime_instant(s: Seq<char>) -> Option<(int, int)>;

/// Reads a timestamp with `chrono::DateTime::parse_from_rfc3339`.
///
/// Claims only that the result is what chrono reads from the text, as
/// seconds since the epoch and the sub-second nanoseconds.
#[verifier::external_body]
pub(crate) fn parse_rfc3339(text: &str) -> (r: Option<(i64, u32)>)
    ensures
        r.is_some() == rfc3339_instant(text@).is_some(),
        r matches Some((secs, nanos)) ==> rfc3339_instant(text@) == Some((secs as int, nanos as int)),
{
    match chrono::DateTime::parse_from_rfc3339(text) {
        Ok(dt) => Some((dt.timestamp(), dt.timestamp_subsec_nanos())),
        Err(_) => None,
    }
}

/// Reads a timestamp with chrono's `FromStr` for `DateTime<Utc>`.
///
/// Claims only that the result is what chrono reads from the text.
#[verifier::external_body]
fn parse_utc_datetime(text: &str) -> (r: Option<(i64, u32)>)
    ensures
        r.is_some() == utc_datetime_instant(text@).is_some(),
        r matches Some((secs, nanos)) ==> utc_datetime_instant(text@) == Some((secs as int, nanos as int)),
{
    match text.parse::<chrono::DateTime<chrono::Utc>>() {
        Ok(dt) => Some((dt.timestamp(), dt.timestamp_subsec_nanos())),
        Err(_) => None,
    }
}

/// The instant of a timestamp: RFC 3339 first, then chrono's general UTC form.
pub open spec fn parsed_instant(s: Seq<char>) -> Option<(int, int)> {
    match rfc3339_instant(s) {
        Some(x) => Some(x),
        None => utc_datetime_instant(s),
    }
}

/// Whole seconds from `from` to `to`, truncated toward zero.
pub open spec fn elapsed_seconds(from: (int, int), to: (int, int)) -> int {
    let ns = (to.0 - from.0) * 1_000_000_000 + (to.1 - from.1);
    if ns >= 0 {
        ns / 1_000_000_000
    } else {
        -((-ns) / 1_000_000_000)
    }
}

/// Seconds from culprit to evidence, never negative.
pub open spec fn regret_seconds(culprit: (int, int), evidence: (int, int)) -> int {
    let e = elapsed_seconds(culprit, evidence);
    if e < 0 { 0 } else { e }
}

/// Why a time to regret could not be computed.
#[derive(Debug, Clone, Copy, PartialEq, Eq, Structural)]
pub enum TimeError {
    /// One of the timestamps is not a date and time chrono can read.
    Unparseable,
    /// The span does not fit in 64 bits of seconds.
    OutOfRange,
}

fn read_instant(text: &str) -> (r: Option<(i64, u32)>)
    ensures
        r.is_some() == parsed_instant(text@).is_some(),
        r matches Some((secs, nanos)) ==> parsed_instant(text@) == Some((secs as int, nanos as int)),
{
    match parse_rfc3339(text) {
        Some(x) => Some(x),
        None => parse_utc_datetime(text),
    }
}

/// Whole seconds from `from` to `to`, truncated toward zero, as chrono's
/// `num_seconds` gives them for the difference of two times.
pub fn whole_seconds_between(from: (i64, u32), to: (i64, u32)) -> (r: i128)
    ensures
        r as int == elapsed_seconds((from.0 as int, from.1 as int), (to.0 as int, to.1 as int)),
        -0x1_0000_0000_0000_0005 <= r <= 0x1_0000_0000_0000_0005,
{
    let ds: i128 = to.0 as i128 - from.0 as i128;
    let dn: i128 = to.1 as i128 - from.1 as i128;
    assert(-0x1_0000_0000_0000_0000 <= ds <= 0x1_0000_0000_0000_0000);
    assert(ds * 1_000_000_000 <= 0x1_0000_0000_0000_0000 * 1_000_000_000) by (nonlinear_arith)
        requires ds <= 0x1_0000_0000_0000_0000;
    assert(ds * 1_000_000_000 >= -0x1_0000_0000_0000_0000 * 1_000_000_000) by (nonlinear_arith)
        requires ds >= -0x1_0000_0000_0000_0000;
    let ns: i128 = ds * 1_000_000_000 + dn;
    if ns >= 0 {
        proof {
            vstd::arithmetic::div_mod::lemma_div_is_ordered(
                ns as int,
                0x1_0000_0000_0000_0005int * 1_000_000_000int,
                1_000_000_000,
            );
        }
        ns / 1_000_000_000
    } else {
        proof {
            vstd::arithmetic::div_mod::lemma_div_is_ordered(
                -ns as int,
                0x1_0000_0000_0000_0005int * 1_000_000_000int,
                1_000_000_000,
            );
        }
        -((-ns) / 1_000_000_000)
    }
}

/// Time to regret in whole seconds between a culprit and its evidence commit.
///
/// Each timestamp is read as RFC 3339, or else as chrono's general UTC form.
/// A negative span counts as zero. The hours that the tool reports are this
/// number divided by 3600.
pub fn time_to_regret_seconds(culprit_time_utc: &str, evidence_time_utc: &str) -> (r: Result<
    i64,
    TimeError,
>)
    ensures
        (parsed_instant(culprit_time_utc@).is_none() || parsed_instant(evidence_time_utc@).is_none())
            <==> r == Err::<i64, TimeError>(TimeError::Unparseable),
        r matches Ok(v) ==> v as int == regret_seconds(
            parsed_instant(culprit_time_utc@).unwrap(),
            parsed_instant(evidence_time_utc@).unwrap(),
        ),
        (parsed_instant(culprit_time_utc@).is_some() && parsed_instant(evidence_time_utc@).is_some())
            ==> (r is Ok <==> regret_seconds(
            parsed_instant(culprit_time_utc@).unwrap(),
            parsed_instant(evidence_time_utc@).unwrap(),
        ) <= i64::MAX),
{
    let c = match read_instant(culprit_time_utc) {
        Some(x) => x,
        None => return Err(TimeError::Unparseable),
    };
    let e = match read_instant(evidence_time_utc) {
        Some(x) => x,
        None => return Err(TimeError::Unparseable),
    };
    let secs = whole_seconds_between(c, e);
    if secs < 0 {
        return Ok(0);
    }
    if secs > i64::MAX as i128 {
        return Err(TimeError::OutOfRange);
    }
    Ok(secs as i64)
}

/// A detected signal before storage
#[derive(Debug, Clone)]
pub struct DetectedSignal {
    pub signal_type: SignalType,
    pub culprit_sha: String,
    pub evidence_sha: String,
    pub evidence_time_utc: String,
    /// Confidence in basis points (10000 is certainty).
    pub confidence_bp: u32,
    pub confidence_reason: ConfidenceReason,
    pub weight: i64,
    /// Whole seconds from culprit to evidence, never negative.
    pub time_to_regret_seconds: i64,
}

/// The signal a constructor builds from its arguments.
pub open spec fn signal_of(
    signal_type: SignalType,
    reason: ConfidenceReason,
    confidence_bp: u32,
    weight: i64,
    culprit_sha: Seq<char>,
    culprit_time_utc: Seq<char>,
    evidence_sha: Seq<char>,
    evidence_time_utc: Seq<char>,
    s: DetectedSignal,
) -> bool {
    &&& s.signal_type == signal_type
    &&& s.confidence_reason == reason
    &&& s.confidence_bp == confidence_bp
    &&& s.weight == weight
    &&& s.culprit_sha@ == culprit_sha
    &&& s.evidence_sha@ == evidence_sha
    &&& s.evidence_time_utc@ == evidence_time_utc
    &&& s.time_to_regret_seconds as int == regret_seconds(
        parsed_instant(culprit_time_utc).unwrap(),
        parsed_instant(evidence_time_utc).unwrap(),
    )
}

/// Create a linked-fix signal from resolved data.
pub fn create_linked_fix_signal(
    culprit_sha: String,
    culprit_time_utc: &str,
    evidence_sha: String,
    evidence_time_utc: &str,
) -> (r: Result<DetectedSignal, TimeError>)
    ensures
        r is Ok <==> time_to_regret_seconds_ok(culprit_time_utc@, evidence_time_utc@),
        r matches Ok(s) ==> signal_of(
            SignalType::LinkedFix,
            ConfidenceReason::ExplicitTrailer,
            CONFIDENCE_LINKED_FIX_BP,
            WEIGHT_LINKED_FIX,
            culprit_sha@,
            culprit_time_utc@,
            evidence_sha@,
            evidence_time_utc@,
            s,
        ),
{
    let secs = time_to_regret_seconds(culprit_time_utc, evidence_time_utc)?;
    Ok(DetectedSignal {
        signal_type: SignalType::LinkedFix,
        culprit_sha,
        evidence_sha,
        evidence_time_utc: evidence_time_utc.to_string(),
        confidence_bp: CONFIDENCE_LINKED_FIX_BP,
        confidence_reason: ConfidenceReason::ExplicitTrailer,
        weight: WEIGHT_LINKED_FIX,
        time_to_regret_seconds: secs,
    })
}

/// Both timestamps can be read and their span fits in 64 bits.
pub open spec fn time_to_regret_seconds_ok(culprit_time_utc: Seq<char>, evidence_time_utc: Seq<char>) -> bool {
    &&& parsed_instant(culprit_time_utc).is_some()
    &&& parsed_instant(evidence_time_utc).is_some()
    &&& regret_seconds(
        parsed_instant(culprit_time_utc).unwrap(),
        parsed_instant(evidence_time_utc).unwrap(),
    ) <= i64::MAX
}

/// Create a canonical revert signal from detected data.
pub fn create_canonical_revert_signal(
    culprit_sha: String,
    culprit_time_utc: &str,
    evidence_sha: String,
    evidence_time_utc: &str,
) -> (r: Result<DetectedSignal, TimeError>)
    ensures
        r is Ok <==> time_to_regret_seconds_ok(culprit_time_utc@, evidence_time_utc@),
        r matches Ok(s) ==> signal_of(
            SignalType::Revert,
            ConfidenceReason::CanonicalRevertLine,
            CONFIDENCE_CANONICAL_REVERT_BP,
            WEIGHT_REVERT,
            culprit_sha@,
            culprit_time_utc@,
            evidence_sha@,
            evidence_time_utc@,
            s,
        ),
{
    let secs = time_to_regret_seconds(culprit_time_utc, evidence_time_utc)?;
    Ok(DetectedSignal {
        signal_type: SignalType::Revert,
        culprit_sha,
        evidence_sha,
        evidence_time_utc: evidence_time_utc.to_string(),
        confidence_bp: CONFIDENCE_CANONICAL_REVERT_BP,
        confidence_reason: ConfidenceReason::CanonicalRevertLine,
        weight: WEIGHT_REVERT,
        time_to_regret_seconds: secs,
    })
}

/// Create a revert signal for a manual revert found by patch-ID equivalence.
pub fn create_patch_id_revert_signal(
    culprit_sha: String,
    culprit_time_utc: &str,
    evidence_sha: String,
    evidence_time_utc: &str,
) -> (r: Result<DetectedSignal, TimeError>)
    ensures
        r is Ok <==> time_to_regret_seconds_ok(culprit_time_utc@, evidence_time_utc@),
        r matches Ok(s) ==> signal_of(
            SignalType::Revert,
            ConfidenceReason::PatchIdEquivalence,
            CONFIDENCE_PATCH_ID_BP,
            WEIGHT_REVERT,
            culprit_sha@,
            culprit_time_utc@,
            evidence_sha@,
            evidence_time_utc@,
            s,
        ),
{
    let secs = time_to_regret_seconds(culprit_time_utc, evidence_time_utc)?;
    Ok(DetectedSignal {
        signal_type: SignalType::Revert,
        culprit_sha,
        evidence_sha,
        evidence_time_utc: evidence_time_utc.to_string(),
        confidence_bp: CONFIDENCE_PATCH_ID_BP,
        confidence_reason: ConfidenceReason::PatchIdEquivalence,
        weight: WEIGHT_REVERT,
        time_to_regret_seconds: secs,
    })
}

// ---------------------------------------------------------------------------
// Signals found while scanning
// ---------------------------------------------------------------------------

/// How an evidence commit names its culprit.
#[derive(Debug, Clone, Copy, PartialEq, Eq, Structural)]
pub enum PendingKind {
    /// A canonical `This reverts commit <sha>.` line.
    CanonicalRevert,
    /// A `Fixes-Commit:` or `Fixes-SHA:` trailer.
    LinkedFix,
}

/// The signal that a culprit named by an evidence commit makes, of its kind.
pub open spec fn pending_signal_of(
    kind: PendingKind,
    culprit_sha: Seq<char>,
    culprit_time_utc: Seq<char>,
    evidence_sha: Seq<char>,
    evidence_time_utc: Seq<char>,
    s: DetectedSignal,
) -> bool {
    match kind {
        PendingKind::CanonicalRevert => signal_of(
            SignalType::Revert,
            ConfidenceReason::CanonicalRevertLine,
            CONFIDENCE_CANONICAL_REVERT_BP,
            WEIGHT_REVERT,
            culprit_sha,
            culprit_time_utc,
            evidence_sha,
            evidence_time_utc,
            s,
        ),
        PendingKind::LinkedFix => signal_of(
            SignalType::LinkedFix,
            ConfidenceReason::ExplicitTrailer,
            CONFIDENCE_LINKED_FIX_BP,
            WEIGHT_LINKED_FIX,
            culprit_sha,
            culprit_time_utc,
            evidence_sha,
            evidence_time_utc,
            s,
        ),
    }
}

/// Decide the signal of one culprit named by an evidence commit during a
/// scan: none when that signal is already recorded, when the culprit's
/// commit time is unknown (it is not in the cache), or when the time to
/// regret cannot be computed; else the new signal.
pub fn pending_signal(
    kind: PendingKind,
    culprit_sha: String,
    evidence_sha: String,
    evidence_time_utc: &str,
    already_recorded: bool,
    culprit_time_utc: Option<&str>,
) -> (r: Option<DetectedSignal>)
    ensures
        already_recorded ==> r is None,
        culprit_time_utc is None ==> r is None,
        !already_recorded && culprit_time_utc.is_some() ==> (r is Some <==> time_to_regret_seconds_ok(
            culprit_time_utc.unwrap()@,
            evidence_time_utc@,
        )),
        r matches Some(s) ==> culprit_time_utc matches Some(ct) && pending_signal_of(
            kind,
            culprit_sha@,
            ct@,
            evidence_sha@,
            evidence_time_utc@,
            s,
        ),
{
    if already_recorded {
        return None;
    }
    let ct = match culprit_time_utc {
        Some(t) => t,
        None => return None,
    };
    let made = match kind {
        PendingKind::CanonicalRevert => create_canonical_revert_signal(
            culprit_sha,
            ct,
            evidence_sha,
            evidence_time_utc,
        ),
        PendingKind::LinkedFix => create_linked_fix_signal(
            culprit_sha,
            ct,
            evidence_sha,
            evidence_time_utc,
        ),
    };
    match made {
        Ok(s) => Some(s),
        Err(_) => None,
    }
}

} // verus!
