//! Validation and normalisation of repository file paths.
//!
//! Rules: reject `..` segments, absolute paths and NUL bytes wherever they
//! stand; normalise both separators to `/` and drop empty segments; cut a
//! path longer than 4096 bytes to at most 4096 bytes, ending with
//! `<TRUNCATED>`.

use vstd::prelude::*;

verus! {

/// Maximum allowed path length before truncation
pub const MAX_PATH_LENGTH: usize = 4096;

/// Length of the marker appended to truncated paths.
pub const TRUNCATED_MARKER_LEN: usize = 11;

/// The bytes of `<TRUNCATED>`.
pub open spec fn truncated_marker() -> Seq<u8> {
    seq![60u8, 84, 82, 85, 78, 67, 65, 84, 69, 68, 62]
}

/// The marker appended to truncated paths.
pub fn truncated_marker_bytes() -> (r: Vec<u8>)
    ensures
        r@ == truncated_marker(),
{
    let r = vec![60u8, 84, 82, 85, 78, 67, 65, 84, 69, 68, 62];
    assert(r@ =~= truncated_marker());
    r
}

/// Validation error types
#[derive(Debug, Clone, Copy, PartialEq, Eq, Structural)]
pub enum PathValidationError {
    ContainsParentSegment,
    IsAbsolute,
    ContainsNulByte,
}

impl PathValidationError {
    /// The message of the error.
    pub fn message(&self) -> (r: &'static str)
        ensures
            r@ == path_error_message(*self),
    {
        match self {
            PathValidationError::ContainsParentSegment => "path contains .. segment",
            PathValidationError::IsAbsolute => "path is absolute",
            PathValidationError::ContainsNulByte => "path contains NUL byte",
        }
    }
}

pub open spec fn path_error_message(e: PathValidationError) -> Seq<char> {
    match e {
        PathValidationError::ContainsParentSegment => "path contains .. segment"@,
        PathValidationError::IsAbsolute => "path is absolute"@,
        PathValidationError::ContainsNulByte => "path contains NUL byte"@,
    }
}

/// A path separator: `/` or `\`.
pub open spec fn is_sep(b: u8) -> bool {
    b == 47 || b == 92
}

/// An ASCII letter.
pub open spec fn is_ascii_letter(b: u8) -> bool {
    (65 <= b <= 90) || (97 <= b <= 122)
}

/// A path is absolute: it starts with a separator, or with a drive letter and `:`.
pub open spec fn is_absolute(p: Seq<u8>) -> bool {
    p.len() > 0 && (is_sep(p[0]) || (p.len() >= 2 && is_ascii_letter(p[0]) && p[1] == 58))
}

/// The segment `..`.
pub open spec fn is_parent(seg: Seq<u8>) -> bool {
    seg.len() == 2 && seg[0] == 46 && seg[1] == 46
}

/// Where the scan of a path stands.
pub enum ScanState {
    /// Still scanning; the current segment starts at `seg_start`, and `norm`
    /// holds the segments before it, joined by `/`.
    Running { seg_start: int, norm: Seq<u8> },
    Failed(PathValidationError),
}

/// `norm` with a separator added when it is not empty.
pub open spec fn with_sep(norm: Seq<u8>) -> Seq<u8> {
    if norm.len() > 0 {
        norm.push(47u8)
    } else {
        norm
    }
}

/// One byte of the scan, from a running state.
pub open spec fn scan_step(p: Seq<u8>, i: int, seg_start: int, norm: Seq<u8>) -> ScanState {
    if p[i] == 0 {
        ScanState::Failed(PathValidationError::ContainsNulByte)
    } else if is_sep(p[i]) {
        let seg = p.subrange(seg_start, i);
        if is_parent(seg) {
            ScanState::Failed(PathValidationError::ContainsParentSegment)
        } else {
            let norm2 = if i > seg_start {
                with_sep(norm) + seg
            } else {
                norm
            };
            ScanState::Running { seg_start: i + 1, norm: norm2 }
        }
    } else {
        ScanState::Running { seg_start, norm }
    }
}

/// The state after the scan has looked at the first `n` bytes.
pub open spec fn scan_prefix(p: Seq<u8>, n: int) -> ScanState
    decreases n,
{
    if n <= 0 {
        ScanState::Running { seg_start: 0, norm: seq![] }
    } else {
        match scan_prefix(p, n - 1) {
            ScanState::Running { seg_start, norm } => scan_step(p, n - 1, seg_start, norm),
            other => other,
        }
    }
}

/// The normalised path: the last segment appended.
pub open spec fn finish(p: Seq<u8>, seg_start: int, norm: Seq<u8>) -> Result<Seq<u8>, PathValidationError> {
    if seg_start < p.len() {
        let fin = p.subrange(seg_start, p.len() as int);
        if is_parent(fin) {
            Err(PathValidationError::ContainsParentSegment)
        } else {
            Ok(with_sep(norm) + fin)
        }
    } else {
        Ok(norm)
    }
}

/// `s` ends with the truncation marker.
pub open spec fn ends_with_marker(s: Seq<u8>) -> bool {
    s.len() >= TRUNCATED_MARKER_LEN && s.subrange(s.len() - TRUNCATED_MARKER_LEN, s.len() as int)
        == truncated_marker()
}

/// The cut: from an input longer than the limit, the normalised path keeps
/// at most `MAX_PATH_LENGTH - 11` bytes and gets the marker, unless it
/// already fits and ends with the marker.
pub open spec fn cut_long(p: Seq<u8>, full: Seq<u8>) -> Seq<u8> {
    if p.len() > MAX_PATH_LENGTH && !(full.len() <= MAX_PATH_LENGTH && ends_with_marker(full)) {
        let keep = if full.len() > MAX_PATH_LENGTH - TRUNCATED_MARKER_LEN {
            (MAX_PATH_LENGTH - TRUNCATED_MARKER_LEN) as int
        } else {
            full.len() as int
        };
        full.subrange(0, keep) + truncated_marker()
    } else {
        full
    }
}

/// What `validate_path` gives for a path.
pub open spec fn validated(p: Seq<u8>) -> Result<Seq<u8>, PathValidationError> {
    if p.len() == 0 {
        Ok(seq![])
    } else if is_absolute(p) {
        Err(PathValidationError::IsAbsolute)
    } else {
        match scan_prefix(p, p.len() as int) {
            ScanState::Failed(e) => Err(e),
            ScanState::Running { seg_start, norm } => match finish(p, seg_start, norm) {
                Ok(full) => Ok(cut_long(p, full)),
                Err(e) => Err(e),
            },
        }
    }
}

/// A result with its byte vector seen as a sequence.
pub open spec fn result_bytes(r: Result<Vec<u8>, PathValidationError>) -> Result<Seq<u8>, PathValidationError> {
    match r {
        Ok(v) => Ok(v@),
        Err(e) => Err(e),
    }
}

/// Check if path bytes represent an absolute path
pub fn is_absolute_path(path_bytes: &[u8]) -> (r: bool)
    ensures
        r == is_absolute(path_bytes@),
{
    if path_bytes.len() == 0 {
        return false;
    }
    if path_bytes[0] == 47 {
        return true;
    }
    if path_bytes[0] == 92 {
        return true;
    }
    if path_bytes.len() >= 2 && ((65 <= path_bytes[0] && path_bytes[0] <= 90) || (97
        <= path_bytes[0] && path_bytes[0] <= 122)) && path_bytes[1] == 58 {
        return true;
    }
    false
}

/// Check if segment bytes represent a parent directory reference (..)
pub fn is_parent_segment(p: &[u8], from: usize, to: usize) -> (r: bool)
    requires
        from <= to <= p@.len(),
    ensures
        r == is_parent(p@.subrange(from as int, to as int)),
{
    to - from == 2 && p[from] == 46 && p[from + 1] == 46
}

/// Appends bytes `from..to` of `s`.
fn push_range(out: &mut Vec<u8>, s: &[u8], from: usize, to: usize)
    requires
        from <= to <= s@.len(),
    ensures
        final(out)@ == old(out)@ + s@.subrange(from as int, to as int),
{
    let ghost start = out@;
    let mut k = from;
    while k < to
        invariant
            from <= k <= to <= s@.len(),
            out@ == start + s@.subrange(from as int, k as int),
        decreases to - k,
    {
        out.push(s[k]);
        k = k + 1;
        assert(out@ =~= start + s@.subrange(from as int, k as int));
    }
}

/// Appends all bytes of `s`.
fn push_all(out: &mut Vec<u8>, s: &Vec<u8>)
    ensures
        final(out)@ == old(out)@ + s@,
{
    push_range(out, s.as_slice(), 0, s.len());
    assert(s@.subrange(0, s@.len() as int) =~= s@);
}

fn ends_with_marker_exec(out: &Vec<u8>, marker: &Vec<u8>) -> (r: bool)
    requires
        marker@ == truncated_marker(),
    ensures
        r == ends_with_marker(out@),
{
    if out.len() < 11 {
        return false;
    }
    let start = out.len() - 11;
    let mut k: usize = 0;
    while k < 11
        invariant
            start + 11 == out.len(),
            marker@ == truncated_marker(),
            k <= 11,
            forall|j: int| 0 <= j < k ==> out@[start + j] == marker@[j],
        decreases 11 - k,
    {
        if out[start + k] != marker[k] {
            assert(out@.subrange(start as int, out@.len() as int)[k as int] != truncated_marker()[k as int]);
            return false;
        }
        k = k + 1;
    }
    assert(out@.subrange(start as int, out@.len() as int) =~= truncated_marker());
    true
}

/// Fast, safe file path validation for git paths
///
/// Rules:
/// - Reject .. segments
/// - Reject absolute paths
/// - Reject NUL bytes
/// - Normalize separators to /
/// - Truncate >4096 bytes with marker
///
/// Returns normalized path bytes on success
pub fn validate_path(path_bytes: &[u8]) -> (r: Result<Vec<u8>, PathValidationError>)
    ensures
        result_bytes(r) == validated(path_bytes@),
{
    let p = path_bytes;
    if p.len() == 0 {
        return Ok(Vec::new());
    }
    if is_absolute_path(p) {
        return Err(PathValidationError::IsAbsolute);
    }
    let marker = truncated_marker_bytes();
    let mut normalized: Vec<u8> = Vec::new();
    let mut segment_start: usize = 0;
    let mut i: usize = 0;
    while i < p.len()
        invariant
            0 <= segment_start <= i <= p@.len(),
            p@ == path_bytes@,
            p@.len() > 0,
            !is_absolute(p@),
            normalized@.len() <= segment_start,
            marker@ == truncated_marker(),
            scan_prefix(p@, i as int) == (ScanState::Running {
                seg_start: segment_start as int,
                norm: normalized@,
            }),
        decreases p.len() - i,
    {
        let byte = p[i];
        if byte == 0 {
            proof {
                lemma_settled_stays(p@, i + 1, p@.len() as int);
            }
            return Err(PathValidationError::ContainsNulByte);
        }
        if byte == 47 || byte == 92 {
            if is_parent_segment(p, segment_start, i) {
                proof {
                    lemma_settled_stays(p@, i + 1, p@.len() as int);
                }
                return Err(PathValidationError::ContainsParentSegment);
            }
            if i > segment_start {
                if normalized.len() > 0 {
                    normalized.push(47);
                }
                push_range(&mut normalized, p, segment_start, i);
            }
            segment_start = i + 1;
        }
        i = i + 1;
    }
    let ghost nb = normalized@;
    if segment_start < p.len() {
        if is_parent_segment(p, segment_start, p.len()) {
            return Err(PathValidationError::ContainsParentSegment);
        }
        if normalized.len() > 0 {
            normalized.push(47);
        }
        push_range(&mut normalized, p, segment_start, p.len());
    }
    assert(finish(p@, segment_start as int, nb) == Ok::<Seq<u8>, PathValidationError>(normalized@));
    let ghost full = normalized@;
    if p.len() > MAX_PATH_LENGTH {
        let fits = normalized.len() <= MAX_PATH_LENGTH && ends_with_marker_exec(&normalized, &marker);
        if !fits {
            let keep = MAX_PATH_LENGTH - TRUNCATED_MARKER_LEN;
            if normalized.len() > keep {
                normalized.truncate(keep);
            }
            push_all(&mut normalized, &marker);
        }
    }
    assert(normalized@ =~= cut_long(p@, full));
    Ok(normalized)
}

/// Once the scan has failed, further bytes change nothing.
proof fn lemma_settled_stays(p: Seq<u8>, from: int, to: int)
    requires
        0 < from <= to,
        !(scan_prefix(p, from) is Running),
    ensures
        scan_prefix(p, to) == scan_prefix(p, from),
    decreases to - from,
{
    if to > from {
        lemma_settled_stays(p, from, to - 1);
    }
}

// ---------------------------------------------------------------------------
// Laws of validation
// ---------------------------------------------------------------------------

/// A byte that a validated path never holds: NUL or a backslash.
pub open spec fn is_forbidden_byte(b: u8) -> bool {
    b == 0 || b == 92
}

/// No NUL and no backslash.
pub open spec fn clean_bytes(s: Seq<u8>) -> bool {
    forall|k: int| 0 <= k < s.len() ==> !is_forbidden_byte(#[trigger] s[k])
}

/// The path holds a NUL byte.
pub open spec fn has_nul(p: Seq<u8>) -> bool {
    exists|k: int| 0 <= k < p.len() && #[trigger] p[k] == 0
}

/// Bytes `i..j` of the path are one of its segments: bounded by the start
/// or a separator, and by the end or a separator, with no separator inside.
pub open spec fn is_segment(p: Seq<u8>, i: int, j: int) -> bool {
    &&& 0 <= i <= j <= p.len()
    &&& (i == 0 || is_sep(p[i - 1]))
    &&& (j == p.len() || is_sep(p[j]))
    &&& forall|k: int| i <= k < j ==> !is_sep(#[trigger] p[k])
}

/// Some segment of the path is `..`.
pub open spec fn has_parent_segment(p: Seq<u8>) -> bool {
    exists|i: int, j: int| #[trigger] is_segment(p, i, j) && is_parent(p.subrange(i, j))
}

/// What the scan keeps true while it runs: the bytes seen hold no NUL and
/// end no `..` segment; the current segment starts after a separator and
/// holds none; the normalized text is clean and no longer than what it came
/// from.
spec fn scan_invariant(p: Seq<u8>, n: int, st: ScanState) -> bool {
    match st {
        ScanState::Running { seg_start, norm } => {
            &&& 0 <= seg_start <= n
            &&& forall|k: int| 0 <= k < n ==> #[trigger] p[k] != 0
            &&& forall|k: int| seg_start <= k < n ==> !is_sep(#[trigger] p[k])
            &&& (seg_start == 0 || is_sep(p[seg_start - 1]))
            &&& forall|i: int, j: int|
                #![trigger is_segment(p, i, j)]
                is_segment(p, i, j) && j < n ==> !is_parent(p.subrange(i, j))
            &&& clean_bytes(norm)
            &&& norm.len() + (if norm.len() > 0 { 1int } else { 0int }) <= seg_start
        },
        ScanState::Failed(e) => {
            ||| has_nul(p)
            ||| has_parent_segment(p)
        },
    }
}

proof fn lemma_clean_concat(a: Seq<u8>, b: Seq<u8>)
    requires
        clean_bytes(a),
        clean_bytes(b),
    ensures
        clean_bytes(a + b),
{
    assert forall|k: int| 0 <= k < (a + b).len() implies !is_forbidden_byte(#[trigger] (a + b)[k]) by {
        if k < a.len() {
            assert((a + b)[k] == a[k]);
        } else {
            assert((a + b)[k] == b[k - a.len()]);
        }
    }
}

/// The segment that ends at a separator or at the end, seen from the scan.
proof fn lemma_segment_is_current(p: Seq<u8>, seg_start: int, i: int, j: int, n: int)
    requires
        0 <= seg_start <= n <= p.len(),
        forall|k: int| seg_start <= k < n ==> !is_sep(#[trigger] p[k]),
        seg_start == 0 || is_sep(p[seg_start - 1]),
        is_segment(p, i, j),
        j == n,
    ensures
        i == seg_start,
{
    if i < seg_start {
        assert(!is_sep(p[seg_start - 1]));
    } else if i > seg_start {
        assert(is_sep(p[i - 1]));
        assert(!is_sep(p[i - 1]));
    }
}

proof fn lemma_scan_invariant(p: Seq<u8>, n: int)
    requires
        0 <= n <= p.len(),
    ensures
        scan_invariant(p, n, scan_prefix(p, n)),
    decreases n,
{
    if n > 0 {
        lemma_scan_invariant(p, n - 1);
        let i = n - 1;
        match scan_prefix(p, n - 1) {
            ScanState::Running { seg_start, norm } => {
                if p[i] == 0 {
                    assert(has_nul(p));
                } else if is_sep(p[i]) {
                    let seg = p.subrange(seg_start, i);
                    assert(is_segment(p, seg_start, i));
                    if is_parent(seg) {
                        assert(has_parent_segment(p));
                    } else {
                        assert forall|a: int, b: int|
                            #![trigger is_segment(p, a, b)]
                            is_segment(p, a, b) && b < n implies !is_parent(p.subrange(a, b)) by {
                            if b == i {
                                lemma_segment_is_current(p, seg_start, a, b, i);
                            }
                        }
                        if i > seg_start {
                            assert(clean_bytes(seg)) by {
                                assert forall|k: int| 0 <= k < seg.len() implies !is_forbidden_byte(
                                    #[trigger] seg[k],
                                ) by {
                                    assert(seg[k] == p[seg_start + k]);
                                    assert(p[seg_start + k] != 0);
                                    assert(!is_sep(p[seg_start + k]));
                                }
                            }
                            let base = with_sep(norm);
                            assert(clean_bytes(base)) by {
                                if norm.len() > 0 {
                                    lemma_clean_concat(norm, seq![47u8]);
                                    assert(norm.push(47u8) == norm + seq![47u8]);
                                }
                            }
                            lemma_clean_concat(base, seg);
                        }
                    }
                } else {
                    assert forall|a: int, b: int|
                        #![trigger is_segment(p, a, b)]
                        is_segment(p, a, b) && b < n implies !is_parent(p.subrange(a, b)) by {
                        if b == i {
                            assert(is_sep(p[b]));
                        }
                    }
                }
            },
            _ => {},
        }
    }
}

proof fn lemma_cut_clean(s: Seq<u8>, n: int)
    requires
        clean_bytes(s),
        0 <= n <= s.len(),
    ensures
        clean_bytes(s.subrange(0, n)),
{
    assert forall|k: int| 0 <= k < n implies !is_forbidden_byte(#[trigger] s.subrange(0, n)[k]) by {
        assert(s.subrange(0, n)[k] == s[k]);
    }
}

proof fn lemma_marker_clean()
    ensures
        clean_bytes(truncated_marker()),
{
    let m = truncated_marker();
    assert forall|k: int| 0 <= k < m.len() implies !is_forbidden_byte(#[trigger] m[k]) by {}
}

/// The normalised path before the cut: clean, and no longer than the input.
proof fn lemma_finish_facts(p: Seq<u8>)
    requires
        p.len() > 0,
    ensures
        scan_prefix(p, p.len() as int) matches ScanState::Running { seg_start, norm } ==> (
        finish(p, seg_start, norm) matches Ok(full) ==> clean_bytes(full) && full.len() <= p.len()),
{
    lemma_scan_invariant(p, p.len() as int);
    match scan_prefix(p, p.len() as int) {
        ScanState::Running { seg_start, norm } => {
            let base = with_sep(norm);
            assert(clean_bytes(base)) by {
                if norm.len() > 0 {
                    lemma_clean_concat(norm, seq![47u8]);
                    assert(norm.push(47u8) == norm + seq![47u8]);
                }
            }
            if seg_start < p.len() {
                let fin = p.subrange(seg_start, p.len() as int);
                assert(clean_bytes(fin)) by {
                    assert forall|k: int| 0 <= k < fin.len() implies !is_forbidden_byte(
                        #[trigger] fin[k],
                    ) by {
                        assert(fin[k] == p[seg_start + k]);
                        assert(p[seg_start + k] != 0);
                        assert(!is_sep(p[seg_start + k]));
                    }
                }
                lemma_clean_concat(base, fin);
            }
        },
        _ => {},
    }
}

/// A validated path holds no NUL and no backslash: separators come out as
/// `/`.
pub proof fn lemma_validated_path_is_clean(p: Seq<u8>)
    ensures
        validated(p) matches Ok(out) ==> clean_bytes(out),
{
    if p.len() > 0 && !is_absolute(p) {
        lemma_finish_facts(p);
        lemma_marker_clean();
        match scan_prefix(p, p.len() as int) {
            ScanState::Running { seg_start, norm } => {
                match finish(p, seg_start, norm) {
                    Ok(full) => {
                        let limit = (MAX_PATH_LENGTH - TRUNCATED_MARKER_LEN) as int;
                        if full.len() > limit {
                            lemma_cut_clean(full, limit);
                            lemma_clean_concat(full.subrange(0, limit), truncated_marker());
                        } else {
                            lemma_cut_clean(full, full.len() as int);
                            lemma_clean_concat(full.subrange(0, full.len() as int), truncated_marker());
                        }
                    },
                    Err(_) => {},
                }
            },
            _ => {},
        }
    }
}

/// A validated path is never longer than `MAX_PATH_LENGTH` bytes.
pub proof fn lemma_validated_within_limit(p: Seq<u8>)
    ensures
        validated(p) matches Ok(out) ==> out.len() <= MAX_PATH_LENGTH,
{
    if p.len() > 0 && !is_absolute(p) {
        lemma_finish_facts(p);
    }
}

/// A path of at most `MAX_PATH_LENGTH` bytes is never cut: it comes out no
/// longer than it went in.
pub proof fn lemma_short_path_not_truncated(p: Seq<u8>)
    requires
        p.len() <= MAX_PATH_LENGTH,
    ensures
        validated(p) matches Ok(out) ==> out.len() <= p.len(),
{
    if p.len() > 0 && !is_absolute(p) {
        lemma_finish_facts(p);
    }
}

/// A path longer than `MAX_PATH_LENGTH` bytes always comes out with the
/// truncation marker at its end.
pub proof fn lemma_long_path_marked(p: Seq<u8>)
    requires
        p.len() > MAX_PATH_LENGTH,
    ensures
        validated(p) matches Ok(out) ==> ends_with_marker(out),
{
    if !is_absolute(p) {
        match scan_prefix(p, p.len() as int) {
            ScanState::Running { seg_start, norm } => {
                match finish(p, seg_start, norm) {
                    Ok(full) => {
                        let r = cut_long(p, full);
                        if !(full.len() <= MAX_PATH_LENGTH && ends_with_marker(full)) {
                            assert(r.subrange(r.len() - TRUNCATED_MARKER_LEN, r.len() as int)
                                =~= truncated_marker());
                        }
                    },
                    Err(_) => {},
                }
            },
            _ => {},
        }
    }
}

/// A path is refused exactly when it is absolute, holds a NUL byte, or has
/// a `..` segment, wherever these stand.
pub proof fn lemma_validated_rejects_exactly(p: Seq<u8>)
    ensures
        validated(p) is Err <==> (is_absolute(p) || has_nul(p) || has_parent_segment(p)),
{
    if p.len() > 0 && !is_absolute(p) {
        let n = p.len() as int;
        lemma_scan_invariant(p, n);
        match scan_prefix(p, n) {
            ScanState::Running { seg_start, norm } => {
                assert(!has_nul(p)) by {
                    if has_nul(p) {
                        let k = choose|k: int| 0 <= k < p.len() && #[trigger] p[k] == 0;
                        assert(p[k] != 0);
                    }
                }
                assert(is_segment(p, seg_start, n));
                if has_parent_segment(p) {
                    let (i, j) = choose|i: int, j: int|
                        #[trigger] is_segment(p, i, j) && is_parent(p.subrange(i, j));
                    if j == n {
                        lemma_segment_is_current(p, seg_start, i, j, n);
                        assert(seg_start < p.len());
                    }
                } else {
                    if seg_start < p.len() {
                        assert(!is_parent(p.subrange(seg_start, n)));
                    }
                }
            },
            _ => {},
        }
    } else if p.len() == 0 {
        assert(!has_nul(p));
        assert(!has_parent_segment(p)) by {
            if has_parent_segment(p) {
                let (i, j) = choose|i: int, j: int|
                    #[trigger] is_segment(p, i, j) && is_parent(p.subrange(i, j));
                assert(p.subrange(i, j).len() == 0);
            }
        }
    }
}

// ---------------------------------------------------------------------------
// Path cache
// ---------------------------------------------------------------------------

/// Number of paths the cache keeps.
pub const PATH_CACHE_CAPACITY: usize = 8192;

/// Identifier given to a path.
pub type FileId = u64;

#[verifier::external_type_specification]
#[verifier::external_body]
#[verifier::reject_recursive_types(K)]
#[verifier::reject_recursive_types(V)]
#[verifier::reject_recursive_types(S)]
pub struct ExLruCache<K, V, S>(lru::LruCache<K, V, S>);

#[verifier::external_type_specification]
#[verifier::external_body]
pub struct ExLruHasher(lru::DefaultHasher);

/// The entries of an `lru::LruCache` of paths, by their bytes.
pub uninterp spec fn lru_entries(c: lru::LruCache<Vec<u8>, u64>) -> Map<Seq<u8>, u64>;

/// The capacity that an `lru::LruCache` of paths was made with.
pub uninterp spec fn lru_capacity(c: lru::LruCache<Vec<u8>, u64>) -> nat;

/// Runs `lru::LruCache::new` with a capacity of `cap`.
///
/// Claims that the new cache is empty and has that capacity.
#[verifier::external_body]
fn lru_new(cap: usize) -> (r: lru::LruCache<Vec<u8>, u64>)
    requires
        cap > 0,
    ensures
        lru_entries(r).dom().len() == 0,
        lru_entries(r).dom().finite(),
        lru_capacity(r) == cap,
{
    lru::LruCache::new(std::num::NonZeroUsize::new(cap).unwrap())
}

/// Runs `lru::LruCache::get`.
///
/// Claims that the value of the key is returned when the key is present and
/// `None` otherwise, and that the entries and the capacity stay as they are
/// (the call only makes the key the most recently used).
#[verifier::external_body]
fn lru_get(c: &mut lru::LruCache<Vec<u8>, u64>, key: &Vec<u8>) -> (r: Option<u64>)
    ensures
        lru_entries(*final(c)) == lru_entries(*old(c)),
        lru_capacity(*final(c)) == lru_capacity(*old(c)),
        r == (if lru_entries(*old(c)).dom().contains(key@) {
            Some(lru_entries(*old(c))[key@])
        } else {
            None
        }),
{
    match c.get(key) {
        Some(v) => Some(*v),
        None => None,
    }
}

/// Runs `lru::LruCache::put`.
///
/// Claims that afterwards the key holds the value and every other entry is
/// kept, except that a new key in a full cache evicts one other entry (the
/// least recently used, which is not modelled); the capacity stays, and the
/// number of entries never exceeds it.
#[verifier::external_body]
fn lru_put(c: &mut lru::LruCache<Vec<u8>, u64>, key: Vec<u8>, value: u64)
    ensures
        lru_capacity(*final(c)) == lru_capacity(*old(c)),
        lru_entries(*old(c)).dom().contains(key@) || lru_entries(*old(c)).len() < lru_capacity(
            *old(c),
        ) ==> lru_entries(*final(c)) == lru_entries(*old(c)).insert(key@, value),
        !lru_entries(*old(c)).dom().contains(key@) && lru_entries(*old(c)).len() >= lru_capacity(
            *old(c),
        ) ==> exists|gone: Seq<u8>|
            lru_entries(*old(c)).dom().contains(gone) && lru_entries(*final(c)) == lru_entries(
                *old(c),
            ).remove(gone).insert(key@, value),
        lru_entries(*final(c)).dom().finite(),
        lru_entries(*final(c)).len() <= lru_capacity(*final(c)),
{
    c.put(key, value);
}

/// An LRU cache of path identifiers. Identifiers count up from 1 and are
/// never given twice.
pub struct PathCache {
    cache: lru::LruCache<Vec<u8>, FileId>,
    next_id: FileId,
}

impl PathCache {
    /// The identifiers of the cached paths.
    pub closed spec fn entries(&self) -> Map<Seq<u8>, FileId> {
        lru_entries(self.cache)
    }

    /// The identifier the next new path gets.
    pub closed spec fn next(&self) -> FileId {
        self.next_id
    }

    /// Cached identifiers are below the next one and at least 1.
    pub closed spec fn well_formed(&self) -> bool {
        &&& self.next_id >= 1
        &&& forall|k: Seq<u8>| #[trigger] lru_entries(self.cache).dom().contains(k) ==> 1
            <= lru_entries(self.cache)[k] < self.next_id
    }

    pub fn new() -> (r: Self)
        ensures
            r.well_formed(),
            r.entries() == Map::<Seq<u8>, FileId>::empty(),
            r.next() == 1,
    {
        PathCache { cache: lru_new(PATH_CACHE_CAPACITY), next_id: 1 }
    }

    /// Whether another identifier can be given.
    pub fn can_insert(&self) -> (r: bool)
        ensures
            r == (self.next() < u64::MAX),
    {
        self.next_id < u64::MAX
    }

    /// Get or insert a file ID for the given validated path: a cached path
    /// keeps its identifier; a new one gets the next, which no cached path has.
    pub fn get_or_insert(&mut self, path_bytes: Vec<u8>) -> (id: FileId)
        requires
            old(self).well_formed(),
            old(self).next() < u64::MAX,
        ensures
            final(self).well_formed(),
            final(self).entries().dom().contains(path_bytes@),
            final(self).entries()[path_bytes@] == id,
            old(self).entries().dom().contains(path_bytes@) ==> id == old(self).entries()[path_bytes@]
                && final(self).next() == old(self).next() && final(self).entries() == old(
                self,
            ).entries(),
            !old(self).entries().dom().contains(path_bytes@) ==> id == old(self).next()
                && final(self).next() == old(self).next() + 1 && forall|k: Seq<u8>|
                #[trigger] old(self).entries().dom().contains(k) ==> old(self).entries()[k] != id,
    {
        match lru_get(&mut self.cache, &path_bytes) {
            Some(id) => id,
            None => {
                let id = self.next_id;
                self.next_id = self.next_id + 1;
                let ghost before = lru_entries(self.cache);
                lru_put(&mut self.cache, path_bytes, id);
                proof {
                    let after = lru_entries(self.cache);
                    assert forall|k: Seq<u8>| #[trigger] after.dom().contains(k) implies 1 <= after[k]
                        < self.next_id by {
                        if k != path_bytes@ {
                            assert(before.dom().contains(k));
                        }
                    }
                }
                id
            },
        }
    }
}

} // verus!
