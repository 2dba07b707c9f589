//! The decisions of a scan: what is recorded of each commit, when the
//! history was rewritten, which shallow boundary bounds the coverage, and when
//! a scan can be skipped.
//!
//! Walking the repository and the cache is done by the caller, which hands
//! these functions what it read.

use vstd::prelude::*;
use crate::text::{
    chars_of, char_is_digit, is_digit_char, push_char, str_lt, text_lt, lemma_text_lt_order, trim_chars,
    trim_range,
};
use crate::cli::digits_value;

verus! {

/// Subjects are kept to this many characters.
pub const SUBJECT_TRUNCATE_LEN: usize = 80;

/// A commit as the cache records it.
#[derive(Debug, Clone)]
pub struct CommitRow {
    pub sha: String,
    pub time_utc: String,
    pub subject: Option<String>,
    pub pr_number: Option<i64>,
    pub pr_source: Option<String>,
}

/// The first 80 characters of a subject.
pub fn truncate_subject(subject: &str) -> (r: String)
    ensures
        r@ == subject@.take(
            if subject@.len() < SUBJECT_TRUNCATE_LEN {
                subject@.len() as int
            } else {
                SUBJECT_TRUNCATE_LEN as int
            },
        ),
{
    let cs = chars_of(subject);
    let n = if cs.len() < SUBJECT_TRUNCATE_LEN {
        cs.len()
    } else {
        SUBJECT_TRUNCATE_LEN
    };
    let mut out = String::new();
    let mut k: usize = 0;
    while k < n
        invariant
            k <= n <= cs@.len(),
            cs@ == subject@,
            out@ == subject@.take(k as int),
        decreases n - k,
    {
        push_char(&mut out, cs[k]);
        k = k + 1;
        assert(out@ =~= subject@.take(k as int));
    }
    out
}

/// Length of the run of ASCII digits at the start of a text.
pub open spec fn digit_run(s: Seq<char>) -> int
    decreases s.len(),
{
    if s.len() > 0 && is_digit_char(s[0]) {
        1 + digit_run(s.drop_first())
    } else {
        0
    }
}

/// The pull request number of a merge subject: `Merge pull request #`
/// followed by digits that make a 64-bit signed number.
pub open spec fn pr_number_of(s: Seq<char>) -> Option<i64> {
    let prefix = "Merge pull request #"@;
    let rest = s.skip(prefix.len() as int);
    let digits = rest.take(digit_run(rest));
    if s.len() >= prefix.len() && s.take(prefix.len() as int) == prefix && digits.len() > 0
        && digits_value(digits) <= i64::MAX {
        Some(digits_value(digits) as i64)
    } else {
        None
    }
}

proof fn lemma_digit_run(s: Seq<char>, i: int)
    requires
        0 <= i <= s.len(),
        forall|k: int| 0 <= k < i ==> is_digit_char(#[trigger] s[k]),
    ensures
        digit_run(s) == i + digit_run(s.skip(i)),
    decreases i,
{
    if i > 0 {
        lemma_digit_run(s.drop_first(), i - 1);
        assert(s.drop_first().skip(i - 1) == s.skip(i));
    } else {
        assert(s.skip(0) == s);
    }
}

proof fn lemma_digits_value_prefix(s: Seq<char>, k: int, end: int)
    requires
        0 <= k <= end <= s.len(),
    ensures
        digits_value(s.take(k)) <= digits_value(s.take(end)),
    decreases end - k,
{
    if k < end {
        lemma_digits_value_prefix(s, k + 1, end);
        assert(s.take(k + 1).drop_last() == s.take(k));
    }
}

/// The pull request number of a merge subject, if it is one.
pub fn parse_pr_number(subject: &str) -> (r: Option<i64>)
    ensures
        r == pr_number_of(subject@),
{
    proof {
        reveal_strlit("Merge pull request #");
    }
    let cs = chars_of(subject);
    let prefix = chars_of("Merge pull request #");
    let p = prefix.len();
    if cs.len() < p {
        return None;
    }
    let mut k: usize = 0;
    while k < p
        invariant
            k <= p == prefix@.len() <= cs@.len(),
            prefix@ == "Merge pull request #"@,
            cs@ == subject@,
            cs@.take(k as int) == prefix@.take(k as int),
        decreases p - k,
    {
        if cs[k] != prefix[k] {
            assert(cs@.take(p as int)[k as int] != prefix@[k as int]);
            return None;
        }
        k = k + 1;
        assert(cs@.take(k as int) =~= prefix@.take(k as int));
    }
    assert(prefix@.take(p as int) == prefix@);
    let ghost rest = subject@.skip(p as int);
    let mut j: usize = p;
    let mut v: u64 = 0;
    let mut fits = true;
    while j < cs.len() && char_is_digit(cs[j])
        invariant
            p <= j <= cs@.len(),
            cs@ == subject@,
            rest == subject@.skip(p as int),
            forall|i: int| 0 <= i < j - p ==> is_digit_char(#[trigger] rest[i]),
            fits ==> v == digits_value(rest.take(j - p)) && v <= i64::MAX,
            !fits ==> digits_value(rest.take(j - p)) > i64::MAX,
        decreases cs.len() - j,
    {
        let d = (cs[j] as u32 - 48) as u64;
        assert(rest.take(j - p + 1).drop_last() == rest.take(j - p));
        assert(rest[j - p] == cs@[j as int]);
        if fits {
            if v <= (i64::MAX as u64 - d) / 10 {
                v = v * 10 + d;
            } else {
                fits = false;
            }
        } else {
            proof {
                lemma_digits_value_prefix(rest, j - p, j - p + 1);
            }
        }
        j = j + 1;
    }
    proof {
        lemma_digit_run(rest, j - p);
        if j < cs.len() {
            assert(!is_digit_char(rest[j - p]));
        }
        assert(digit_run(rest.skip(j - p)) == 0);
    }
    if j == p {
        return None;
    }
    if !fits {
        return None;
    }
    Some(v as i64)
}

/// The row recorded for a commit: its subject cut to 80 characters, and a
/// pull request number when the subject is a merge of one.
pub fn commit_row(sha: String, time_utc: String, summary: Option<&str>) -> (r: CommitRow)
    ensures
        r.sha == sha,
        r.time_utc == time_utc,
        match summary {
            None => r.subject is None && r.pr_number is None && r.pr_source is None,
            Some(s) => {
                let t = s@.take(
                    if s@.len() < SUBJECT_TRUNCATE_LEN {
                        s@.len() as int
                    } else {
                        SUBJECT_TRUNCATE_LEN as int
                    },
                );
                &&& r.subject matches Some(u) && u@ == t
                &&& r.pr_number == pr_number_of(t)
                &&& (r.pr_source matches Some(src) ==> src@ == "merge_commit"@)
                &&& (r.pr_source is Some <==> pr_number_of(t) is Some)
            },
        },
{
    match summary {
        None => CommitRow { sha, time_utc, subject: None, pr_number: None, pr_source: None },
        Some(s) => {
            let subject = truncate_subject(s);
            let pr_number = parse_pr_number(subject.as_str());
            let pr_source = match pr_number {
                Some(_) => Some("merge_commit".to_string()),
                None => None,
            };
            CommitRow { sha, time_utc, subject: Some(subject), pr_number, pr_source }
        },
    }
}

// ---------------------------------------------------------------------------
// Rewrites and skipping
// ---------------------------------------------------------------------------

/// Whether the branch was rewritten since the last scan: its head moved, and
/// the last scanned head is not the merge base of the two (or they have none).
pub fn is_rewrite(last_scanned_oid: &str, current_oid: &str, merge_base: Option<&str>) -> (r: bool)
    ensures
        r == (last_scanned_oid@ != current_oid@ && match merge_base {
            Some(b) => b@ != last_scanned_oid@,
            None => true,
        }),
{
    if str_eq(last_scanned_oid, current_oid) {
        return false;
    }
    match merge_base {
        Some(b) => !str_eq(b, last_scanned_oid),
        None => true,
    }
}

fn str_eq(a: &str, b: &str) -> (r: bool)
    ensures
        r == (a@ == b@),
{
    let x = a.to_string();
    let y = b.to_string();
    x == y
}

/// Whether the scan can be skipped: the cache and its coverage are valid,
/// and the branch still points where the last scan left it.
pub fn should_skip_scan(
    cache_valid: Option<bool>,
    coverage_valid: Option<bool>,
    last_scanned_oid: Option<&str>,
    current_oid: Option<&str>,
) -> (r: bool)
    ensures
        r == (cache_valid == Some(true) && coverage_valid == Some(true) && match (
            last_scanned_oid,
            current_oid,
        ) {
            (Some(l), Some(c)) => l@ == c@,
            _ => false,
        }),
{
    let cache = match cache_valid {
        Some(b) => b,
        None => false,
    };
    let coverage = match coverage_valid {
        Some(b) => b,
        None => false,
    };
    if !cache || !coverage {
        return false;
    }
    match (last_scanned_oid, current_oid) {
        (Some(l), Some(c)) => str_eq(c, l),
        _ => false,
    }
}

// ---------------------------------------------------------------------------
// Coverage
// ---------------------------------------------------------------------------

/// A commit at the shallow boundary of a clone.
#[derive(Debug, Clone)]
pub struct Boundary {
    /// Commit time, seconds since the epoch
    pub seconds: i64,
    pub oid: String,
    pub time_utc: String,
}

/// The earliest boundary commit, as `(oid, time)`; of several equally early,
/// the first listed.
pub fn earliest_boundary(boundaries: &[Boundary]) -> (r: Option<(String, String)>)
    ensures
        boundaries@.len() == 0 <==> r is None,
        r matches Some((oid, time)) ==> exists|k: int|
            0 <= k < boundaries@.len() && oid@ == boundaries@[k].oid@ && time@
                == boundaries@[k].time_utc@ && (forall|j: int|
                0 <= j < boundaries@.len() ==> boundaries@[k].seconds <= #[trigger] boundaries@[j].seconds)
                && (forall|j: int| 0 <= j < k ==> boundaries@[k].seconds < #[trigger] boundaries@[j].seconds),
{
    if boundaries.len() == 0 {
        return None;
    }
    let mut best: usize = 0;
    let mut i: usize = 1;
    while i < boundaries.len()
        invariant
            1 <= i <= boundaries@.len(),
            best < i,
            forall|j: int| 0 <= j < i ==> boundaries@[best as int].seconds <= #[trigger] boundaries@[j].seconds,
            forall|j: int| 0 <= j < best ==> boundaries@[best as int].seconds < #[trigger] boundaries@[j].seconds,
        decreases boundaries.len() - i,
    {
        if boundaries[i].seconds < boundaries[best].seconds {
            best = i;
        }
        i = i + 1;
    }
    let b = &boundaries[best];
    Some((b.oid.clone(), b.time_utc.clone()))
}

/// Where the coverage start comes from after a scan.
#[derive(Debug, Clone, Copy, PartialEq, Eq, Structural)]
pub enum CoverageUpdate {
    /// A shallow clone: the earliest boundary commit.
    FromBoundary,
    /// Coverage unknown, or the first scan: the oldest cached commit.
    FromOldestCommit,
    /// Keep what is recorded.
    Keep,
}

/// Decides where the coverage start comes from after a scan.
pub fn coverage_update(is_shallow: bool, coverage_known: bool, had_last_tip: bool) -> (r: CoverageUpdate)
    ensures
        is_shallow ==> r == CoverageUpdate::FromBoundary,
        !is_shallow && (!coverage_known || !had_last_tip) ==> r == CoverageUpdate::FromOldestCommit,
        !is_shallow && coverage_known && had_last_tip ==> r == CoverageUpdate::Keep,
{
    if is_shallow {
        CoverageUpdate::FromBoundary
    } else if !coverage_known || !had_last_tip {
        CoverageUpdate::FromOldestCommit
    } else {
        CoverageUpdate::Keep
    }
}

/// Whether a culprit candidate matches the evidence of a manual revert: it
/// is another commit, without a signal for this pair yet, whose reversed
/// patch ID equals the evidence's patch ID.
pub fn patch_id_matches(
    evidence_sha: &str,
    candidate_sha: &str,
    signal_exists: bool,
    evidence_patch_id: &[u8; 20],
    candidate_rev_patch_id: Option<&[u8; 20]>,
) -> (r: bool)
    ensures
        r == (candidate_sha@ != evidence_sha@ && !signal_exists && match candidate_rev_patch_id {
            Some(p) => p@ == evidence_patch_id@,
            None => false,
        }),
{
    if str_eq(candidate_sha, evidence_sha) || signal_exists {
        return false;
    }
    match candidate_rev_patch_id {
        None => false,
        Some(p) => {
            let mut k: usize = 0;
            while k < 20
                invariant
                    k <= 20,
                    candidate_sha@ != evidence_sha@,
                    !signal_exists,
                    candidate_rev_patch_id == Some(p),
                    forall|j: int| 0 <= j < k ==> p@[j] == evidence_patch_id@[j],
                decreases 20 - k,
            {
                if p[k] != evidence_patch_id[k] {
                    assert(p@[k as int] != evidence_patch_id@[k as int]);
                    return false;
                }
                k = k + 1;
            }
            assert(p@ =~= evidence_patch_id@);
            true
        },
    }
}

// ---------------------------------------------------------------------------
// Validity of the cache
// ---------------------------------------------------------------------------

/// Whether the cache, and the coverage it claims, can be trusted.
#[derive(Debug, Clone, Copy, PartialEq, Eq, Structural)]
pub struct ValidityFlags {
    pub cache_valid: bool,
    pub coverage_valid: bool,
}

/// The coverage flag after one scan: false after a rewrite; true after a
/// scan that walked the whole history; else as it was.
pub open spec fn coverage_step(valid: bool, rewrite_detected: bool, whole_history: bool) -> bool {
    !rewrite_detected && (whole_history || valid)
}

/// The flags after a scan. A rewritten history invalidates both; otherwise
/// the cache is valid again, and the coverage only once a scan has walked
/// the whole history.
pub fn flags_after_scan(rewrite_detected: bool, whole_history: bool, coverage_was_valid: bool) -> (r: ValidityFlags)
    ensures
        r.cache_valid == !rewrite_detected,
        r.coverage_valid == coverage_step(coverage_was_valid, rewrite_detected, whole_history),
{
    ValidityFlags {
        cache_valid: !rewrite_detected,
        coverage_valid: !rewrite_detected && (whole_history || coverage_was_valid),
    }
}

/// The coverage flag after a run of scans, each given as
/// `(rewrite detected, whole history walked)`.
pub open spec fn coverage_after_scans(valid: bool, scans: Seq<(bool, bool)>) -> bool
    decreases scans.len(),
{
    if scans.len() == 0 {
        valid
    } else {
        coverage_step(coverage_after_scans(valid, scans.drop_last()), scans.last().0, scans.last().1)
    }
}

/// Once a scan has detected a rewrite, the coverage stays invalid until a
/// later scan walks the whole history.
pub proof fn lemma_rewrite_invalid_until_rebuild(valid: bool, scans: Seq<(bool, bool)>, k: int)
    requires
        0 <= k < scans.len(),
        scans[k].0,
        forall|j: int| k < j < scans.len() ==> !(#[trigger] scans[j]).1,
    ensures
        !coverage_after_scans(valid, scans),
    decreases scans.len(),
{
    if k < scans.len() - 1 {
        let prefix = scans.drop_last();
        assert forall|j: int| k < j < prefix.len() implies !(#[trigger] prefix[j]).1 by {
            assert(prefix[j] == scans[j]);
        }
        lemma_rewrite_invalid_until_rebuild(valid, prefix, k);
    }
}

/// A scan of the whole history without a rewrite makes the coverage valid,
/// whatever came before.
pub proof fn lemma_rebuild_restores_coverage(valid: bool, scans: Seq<(bool, bool)>)
    requires
        scans.len() > 0,
        !scans.last().0,
        scans.last().1,
    ensures
        coverage_after_scans(valid, scans),
{
}

// ---------------------------------------------------------------------------
// The culprit of a manual revert
// ---------------------------------------------------------------------------

/// A commit that may be the culprit of a manual revert, with what the cache
/// knows of it.
#[derive(Debug, Clone)]
pub struct CulpritCandidate {
    pub sha: String,
    pub time_utc: String,
    /// A signal already links this commit to the evidence.
    pub signal_exists: bool,
    /// The patch ID of the commit's reversed diff, where it has one.
    pub rev_patch_id: Option<[u8; 20]>,
}

/// The candidate matches the evidence, as `patch_id_matches` decides.
pub open spec fn candidate_matches(evidence_sha: Seq<char>, evidence_patch_id: Seq<u8>, c: CulpritCandidate) -> bool {
    c.sha@ != evidence_sha && !c.signal_exists && match c.rev_patch_id {
        Some(p) => p@ == evidence_patch_id,
        None => false,
    }
}

/// Candidate `i` is preferred to candidate `j`: it is later, or as late with
/// a smaller SHA, or the same commit listed earlier.
pub open spec fn culprit_preferred(cs: Seq<CulpritCandidate>, i: int, j: int) -> bool {
    let ti = cs[i].time_utc@;
    let tj = cs[j].time_utc@;
    let si = cs[i].sha@;
    let sj = cs[j].sha@;
    text_lt(tj, ti) || (ti == tj && (text_lt(si, sj) || (si == sj && i < j)))
}

proof fn lemma_culprit_order(cs: Seq<CulpritCandidate>, i: int, j: int, k: int)
    requires
        0 <= i < cs.len(),
        0 <= j < cs.len(),
        0 <= k < cs.len(),
    ensures
        culprit_preferred(cs, i, j) && culprit_preferred(cs, j, k) ==> culprit_preferred(cs, i, k),
        i != j && !culprit_preferred(cs, i, j) ==> culprit_preferred(cs, j, i),
{
    let (ti, tj, tk) = (cs[i].time_utc@, cs[j].time_utc@, cs[k].time_utc@);
    let (si, sj, sk) = (cs[i].sha@, cs[j].sha@, cs[k].sha@);
    lemma_text_lt_order(tk, tj, ti);
    lemma_text_lt_order(ti, tj, tk);
    lemma_text_lt_order(tj, ti, tk);
    lemma_text_lt_order(si, sj, sk);
    lemma_text_lt_order(sj, si, sk);
}

fn culprit_is_preferred(cs: &[CulpritCandidate], i: usize, j: usize) -> (r: bool)
    requires
        i < cs@.len(),
        j < cs@.len(),
    ensures
        r == culprit_preferred(cs@, i as int, j as int),
{
    let ti = cs[i].time_utc.as_str();
    let tj = cs[j].time_utc.as_str();
    if str_lt(tj, ti) {
        return true;
    }
    if !str_eq(ti, tj) {
        return false;
    }
    let si = cs[i].sha.as_str();
    let sj = cs[j].sha.as_str();
    if str_lt(si, sj) {
        return true;
    }
    str_eq(si, sj) && i < j
}

/// The culprit of a manual revert among the candidates: of those whose
/// reversed patch ID matches the evidence, the latest, ties going to the
/// smaller SHA. `None` when no candidate matches.
pub fn pick_patch_id_culprit(
    evidence_sha: &str,
    evidence_patch_id: &[u8; 20],
    candidates: &[CulpritCandidate],
) -> (r: Option<usize>)
    ensures
        r is None <==> forall|i: int|
            0 <= i < candidates@.len() ==> !candidate_matches(
                evidence_sha@,
                evidence_patch_id@,
                #[trigger] candidates@[i],
            ),
        r matches Some(k) ==> k < candidates@.len() && candidate_matches(
            evidence_sha@,
            evidence_patch_id@,
            candidates@[k as int],
        ) && forall|j: int|
            0 <= j < candidates@.len() && j != k && candidate_matches(
                evidence_sha@,
                evidence_patch_id@,
                #[trigger] candidates@[j],
            ) ==> culprit_preferred(candidates@, k as int, j),
{
    let ghost e = evidence_sha@;
    let ghost pid = evidence_patch_id@;
    let mut best: Option<usize> = None;
    let mut i: usize = 0;
    while i < candidates.len()
        invariant
            i <= candidates@.len(),
            e == evidence_sha@,
            pid == evidence_patch_id@,
            best is None <==> forall|m: int| 0 <= m < i ==> !candidate_matches(e, pid, #[trigger] candidates@[m]),
            best matches Some(k) ==> k < i && candidate_matches(e, pid, candidates@[k as int]) && forall|j: int|
                0 <= j < i && j != k && candidate_matches(e, pid, #[trigger] candidates@[j])
                    ==> culprit_preferred(candidates@, k as int, j),
        decreases candidates.len() - i,
    {
        let c = &candidates[i];
        let m = patch_id_matches(evidence_sha, c.sha.as_str(), c.signal_exists, evidence_patch_id, c.rev_patch_id.as_ref());
        assert(m == candidate_matches(e, pid, candidates@[i as int]));
        if m {
            match best {
                None => {
                    best = Some(i);
                },
                Some(k) => {
                    if culprit_is_preferred(candidates, i, k) {
                        proof {
                            assert forall|j: int|
                                0 <= j < i + 1 && j != i && candidate_matches(e, pid, #[trigger] candidates@[j])
                                implies culprit_preferred(candidates@, i as int, j) by {
                                if j != k {
                                    lemma_culprit_order(candidates@, i as int, k as int, j);
                                }
                            }
                        }
                        best = Some(i);
                    } else {
                        proof {
                            lemma_culprit_order(candidates@, i as int, k as int, k as int);
                        }
                    }
                },
            }
        }
        i = i + 1;
    }
    best
}

} // verus!
