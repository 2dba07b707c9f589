//! The records of the NDJSON output: which records come, in which order, and
//! what the meta and stat records hold. Rank and evidence records are named
//! by the position of their culprit or signal; writing them out is left to
//! the caller.

use vstd::prelude::*;
use vstd::string::StringSliceAdditionalSpecFns;
use vstd::utf8::encode_utf8;
use crate::output::{
    ages_at, ages_unknown, aggregate_culprits, compute_repo_id, evidence_before, lemma_pick_count_bounds,
    picked_evidence, culprit_rows, culprit_score, evidence_order,
    is_evidence_order, is_ranking, lemma_ranked_before_asym, ranked_before, ranked_entry,
    ranked_shas, ranking_input_fits, row_counts, sha256_of, NdjsonMeta, RankedCulprit, SignalRow,
};
use crate::patch_id::hex_chars;

verus! {

/// The text of an optional string.
pub open spec fn opt_text(o: Option<String>) -> Option<Seq<char>> {
    match o {
        Some(s) => Some(s@),
        None => None,
    }
}

/// The repo id of a repository path: the first 8 bytes of the SHA-256 digest
/// of its text, in hexadecimal.
pub open spec fn repo_id_text(path: Seq<char>) -> Seq<char> {
    hex_chars(sha256_of(encode_utf8(path)).take(8))
}

/// The meta record of a run: fixed type and schema version, the repo id of
/// the path, and the given values.
pub open spec fn meta_is(
    m: NdjsonMeta,
    tool_version: Seq<char>,
    repo_path: Seq<char>,
    repo_basename: Seq<char>,
    selected_branch: Seq<char>,
    window_since_utc: Option<Seq<char>>,
    window_until_utc: Seq<char>,
    window_until_source: Seq<char>,
    coverage_since_utc: Option<Seq<char>>,
    coverage_valid: bool,
    cache_valid: bool,
) -> bool {
    &&& m.record_type@ == "meta"@
    &&& m.schema_version == 1
    &&& m.tool_version@ == tool_version
    &&& m.repo_id@ == repo_id_text(repo_path)
    &&& m.repo_basename@ == repo_basename
    &&& m.selected_branch@ == selected_branch
    &&& opt_text(m.window_since_utc) == window_since_utc
    &&& m.window_until_utc@ == window_until_utc
    &&& m.window_until_source@ == window_until_source
    &&& opt_text(m.coverage_since_utc) == coverage_since_utc
    &&& m.coverage_valid == coverage_valid
    &&& m.cache_valid == cache_valid
}

fn clone_opt(o: &Option<String>) -> (r: Option<String>)
    ensures
        opt_text(r) == opt_text(*o),
{
    match o {
        Some(s) => Some(s.clone()),
        None => None,
    }
}

fn make_meta(
    tool_version: &str,
    repo_path: &str,
    repo_basename: &str,
    selected_branch: &str,
    window_since_utc: Option<String>,
    window_until_utc: &str,
    window_until_source: &str,
    coverage_since_utc: Option<String>,
    coverage_valid: bool,
    cache_valid: bool,
) -> (m: NdjsonMeta)
    ensures
        meta_is(
            m,
            tool_version@,
            repo_path@,
            repo_basename@,
            selected_branch@,
            opt_text(window_since_utc),
            window_until_utc@,
            window_until_source@,
            opt_text(coverage_since_utc),
            coverage_valid,
            cache_valid,
        ),
{
    let m = NdjsonMeta {
        record_type: "meta".to_string(),
        schema_version: 1,
        tool_version: tool_version.to_string(),
        repo_id: compute_repo_id(repo_path),
        repo_basename: repo_basename.to_string(),
        selected_branch: selected_branch.to_string(),
        window_since_utc,
        window_until_utc: window_until_utc.to_string(),
        window_until_source: window_until_source.to_string(),
        coverage_since_utc,
        coverage_valid,
        cache_valid,
    };
    m
}

// ---------------------------------------------------------------------------
// Stat records
// ---------------------------------------------------------------------------

/// The value of a stat record: a whole number, or the rate of events per
/// 100 commits, given by its two counts (zero when there are no commits).
#[derive(Debug, Clone, Copy, PartialEq, Eq, Structural)]
pub enum StatValue {
    Int(i64),
    Rate { events: usize, commits: usize },
}

/// An NDJSON stat record.
pub struct NdjsonStat {
    pub record_type: String,
    pub name: String,
    pub value: StatValue,
}

impl NdjsonStat {
    pub fn new(name: &str, value: StatValue) -> (r: Self)
        ensures
            r.record_type@ == "stat"@,
            r.name@ == name@,
            r.value == value,
    {
        NdjsonStat { record_type: "stat".to_string(), name: name.to_string(), value }
    }
}

/// The stat records of a ranking, in their fixed order: name and value.
/// An unknown coverage counts as -1 days.
pub open spec fn stat_table(
    events: usize,
    max_score: i64,
    commits_in_window: usize,
    coverage_days: Option<u64>,
) -> Seq<(Seq<char>, StatValue)> {
    seq![
        ("regret_events"@, StatValue::Int(events as i64)),
        ("max_score"@, StatValue::Int(max_score)),
        ("events_per_100_commits"@, StatValue::Rate { events, commits: commits_in_window }),
        ("commits_in_window"@, StatValue::Int(commits_in_window as i64)),
        ("coverage_days"@, StatValue::Int(
            match coverage_days {
                Some(d) => d as i64,
                None => -1i64,
            },
        )),
    ]
}

// ---------------------------------------------------------------------------
// The records of a ranking
// ---------------------------------------------------------------------------

/// One NDJSON record.
pub enum NdjsonRecord {
    Meta(NdjsonMeta),
    Stat(NdjsonStat),
    /// The rank record of the ranked culprit at this position.
    Rank(usize),
    /// The evidence record of the signal at this position.
    Evidence(usize),
}

/// The position that a rank or evidence record names.
pub open spec fn record_position(x: NdjsonRecord) -> usize {
    match x {
        NdjsonRecord::Rank(k) => k,
        NdjsonRecord::Evidence(k) => k,
        _ => 0,
    }
}

/// A stat record with the given name and value.
pub open spec fn stat_is(x: NdjsonRecord, entry: (Seq<char>, StatValue)) -> bool {
    x matches NdjsonRecord::Stat(s) && s.record_type@ == "stat"@ && s.name@ == entry.0 && s.value
        == entry.1
}

/// What the NDJSON output of a ranking is made from.
pub struct NdjsonInfo<'a> {
    pub tool_version: String,
    pub repo_path: String,
    pub repo_basename: String,
    pub selected_branch: String,
    pub window_since_utc: Option<String>,
    pub window_until_utc: String,
    pub window_until_source: String,
    pub coverage_since_utc: Option<String>,
    pub coverage_valid: bool,
    pub cache_valid: bool,
    pub events: usize,
    pub max_score: i64,
    pub commits_in_window: usize,
    pub coverage_days: Option<u64>,
    pub ranked_culprits: &'a [RankedCulprit],
    pub signals: &'a [SignalRow],
}

/// The meta record of a ranking.
pub open spec fn ranking_meta_is(m: NdjsonMeta, info: NdjsonInfo) -> bool {
    meta_is(
        m,
        info.tool_version@,
        info.repo_path@,
        info.repo_basename@,
        info.selected_branch@,
        opt_text(info.window_since_utc),
        info.window_until_utc@,
        info.window_until_source@,
        opt_text(info.coverage_since_utc),
        info.coverage_valid,
        info.cache_valid,
    )
}

/// The positions that a run of rank or evidence records names.
pub open spec fn record_positions(recs: Seq<NdjsonRecord>) -> Seq<usize> {
    recs.map_values(|x: NdjsonRecord| record_position(x))
}

/// The NDJSON records of a ranking, in order: one meta record; the five stat
/// records of `stat_table`; a rank record for each ranked culprit, in rank
/// order; then the evidence records of each ranked culprit in turn, in the
/// order of `evidence_order`.
pub fn ndjson_records(info: &NdjsonInfo) -> (r: Vec<NdjsonRecord>)
    ensures
        ({
            let n = info.ranked_culprits@.len() as int;
            let stats = r@.subrange(1, 6);
            let ranks = r@.subrange(6, 6 + n);
            let ev = r@.skip(6 + n);
            let table = stat_table(
                info.events,
                info.max_score,
                info.commits_in_window,
                info.coverage_days,
            );
            &&& r@.len() >= 6 + n
            &&& r@[0] matches NdjsonRecord::Meta(m) && ranking_meta_is(m, *info)
            &&& forall|j: int| 0 <= j < 5 ==> stat_is(#[trigger] stats[j], table[j])
            &&& forall|k: int| 0 <= k < n ==> #[trigger] ranks[k] == NdjsonRecord::Rank(k as usize)
            &&& forall|p: int| 0 <= p < ev.len() ==> (#[trigger] ev[p]) is Evidence
            &&& is_evidence_order(
                ranked_shas(info.ranked_culprits@),
                info.signals@,
                record_positions(ev),
            )
        }),
{
    let meta = make_meta(
        info.tool_version.as_str(),
        info.repo_path.as_str(),
        info.repo_basename.as_str(),
        info.selected_branch.as_str(),
        clone_opt(&info.window_since_utc),
        info.window_until_utc.as_str(),
        info.window_until_source.as_str(),
        clone_opt(&info.coverage_since_utc),
        info.coverage_valid,
        info.cache_valid,
    );
    let days: i64 = match info.coverage_days {
        Some(d) => d as i64,
        None => -1,
    };
    let ghost table = stat_table(
        info.events,
        info.max_score,
        info.commits_in_window,
        info.coverage_days,
    );
    let s0 = NdjsonStat::new("regret_events", StatValue::Int(info.events as i64));
    let s1 = NdjsonStat::new("max_score", StatValue::Int(info.max_score));
    let s2 = NdjsonStat::new(
        "events_per_100_commits",
        StatValue::Rate { events: info.events, commits: info.commits_in_window },
    );
    let s3 = NdjsonStat::new("commits_in_window", StatValue::Int(info.commits_in_window as i64));
    let s4 = NdjsonStat::new("coverage_days", StatValue::Int(days));
    assert(stat_is(NdjsonRecord::Stat(s0), table[0]));
    assert(stat_is(NdjsonRecord::Stat(s1), table[1]));
    assert(stat_is(NdjsonRecord::Stat(s2), table[2]));
    assert(stat_is(NdjsonRecord::Stat(s3), table[3]));
    assert(stat_is(NdjsonRecord::Stat(s4), table[4]));
    let mut out: Vec<NdjsonRecord> = Vec::new();
    out.push(NdjsonRecord::Meta(meta));
    out.push(NdjsonRecord::Stat(s0));
    out.push(NdjsonRecord::Stat(s1));
    out.push(NdjsonRecord::Stat(s2));
    out.push(NdjsonRecord::Stat(s3));
    out.push(NdjsonRecord::Stat(s4));
    assert(forall|j: int| 0 <= j < 5 ==> stat_is(#[trigger] out@.subrange(1, 6)[j], table[j]));
    let ghost head = out@;
    let n = info.ranked_culprits.len();
    let mut k: usize = 0;
    while k < n
        invariant
            k <= n == info.ranked_culprits@.len(),
            out@.len() == 6 + k,
            out@.subrange(0, 6) == head,
            forall|q: int| 6 <= q < 6 + k ==> #[trigger] out@[q] == NdjsonRecord::Rank((q - 6) as usize),
        decreases n - k,
    {
        out.push(NdjsonRecord::Rank(k));
        k = k + 1;
        assert(out@.subrange(0, 6) =~= head);
    }
    let order = evidence_order(info.ranked_culprits, info.signals);
    let ghost head2 = out@;
    let mut p: usize = 0;
    while p < order.len()
        invariant
            p <= order@.len(),
            n == info.ranked_culprits@.len(),
            out@.len() == 6 + n + p,
            out@.subrange(0, 6 + n) == head2,
            forall|q: int|
                6 + n <= q < 6 + n + p ==> #[trigger] out@[q] == NdjsonRecord::Evidence(
                    order@[q - 6 - n],
                ),
        decreases order.len() - p,
    {
        out.push(NdjsonRecord::Evidence(order[p]));
        p = p + 1;
        assert(out@.subrange(0, 6 + n) =~= head2);
    }
    proof {
        let ev = out@.skip(6 + n);
        assert(record_positions(ev) =~= order@) by {
            assert forall|q: int| 0 <= q < ev.len() implies record_positions(ev)[q] == order@[q] by {
                assert(out@[6 + n + q] == NdjsonRecord::Evidence(order@[q]));
            }
        }
        assert forall|q: int| 0 <= q < ev.len() implies (#[trigger] ev[q]) is Evidence by {
            assert(out@[6 + n + q] == NdjsonRecord::Evidence(order@[q]));
        }
        assert forall|q: int| 0 <= q < n implies #[trigger] out@.subrange(6, 6 + n)[q]
            == NdjsonRecord::Rank(q as usize) by {
            assert(head2[6 + q] == out@[6 + q]);
        }
        assert(out@[0] == head[0]);
        assert forall|j: int| 1 <= j < 6 implies out@[j] == head[j] by {
            assert(head2[j] == out@[j]);
        }
        assert(out@.subrange(1, 6) =~= head.subrange(1, 6));
    }
    out
}

// ---------------------------------------------------------------------------
// The records that explain one culprit
// ---------------------------------------------------------------------------

/// What the explanation of one culprit is made from.
pub struct ExplainInfo<'a> {
    pub culprit_sha: String,
    pub signals: &'a [SignalRow],
    pub tool_version: String,
    pub repo_path: String,
    pub repo_basename: String,
    pub selected_branch: String,
    pub window_until_utc: String,
    pub window_until_source: String,
    pub coverage_since_utc: Option<String>,
    pub coverage_valid: bool,
    pub cache_valid: bool,
}

/// The meta record of an explanation: no window start.
pub open spec fn explain_meta_is(m: NdjsonMeta, info: ExplainInfo) -> bool {
    meta_is(
        m,
        info.tool_version@,
        info.repo_path@,
        info.repo_basename@,
        info.selected_branch@,
        None,
        info.window_until_utc@,
        info.window_until_source@,
        opt_text(info.coverage_since_utc),
        info.coverage_valid,
        info.cache_valid,
    )
}

/// A signal that counts makes its culprit appear in the ranking.
proof fn lemma_counted_row_has_culprit(rows: Seq<SignalRow>, min_bp: u32, i: int)
    requires
        0 <= i < rows.len(),
        row_counts(rows[i], min_bp),
    ensures
        culprit_rows(rows, min_bp, rows[i].culprit_sha@).len() >= 1,
    decreases rows.len(),
{
    if i < rows.len() - 1 {
        lemma_counted_row_has_culprit(rows.drop_last(), min_bp, i);
        assert(rows.drop_last()[i] == rows[i]);
    }
}

/// The order of the evidence records of an explanation: every signal once,
/// by evidence time descending, then evidence SHA, then position.
pub open spec fn is_explain_order(signals: Seq<SignalRow>, r: Seq<usize>) -> bool {
    &&& r.len() == signals.len()
    &&& forall|p: int| 0 <= p < r.len() ==> #[trigger] r[p] < signals.len()
    &&& forall|p: int, q: int|
        0 <= p < q < r.len() ==> evidence_before(signals, true, #[trigger] r[p] as int, #[trigger] r[q] as int)
}

/// The NDJSON records that explain a culprit, and the ranking of its
/// signals (all of them count). With no signals there is only the meta
/// record; else the meta record, the rank record of the first ranked
/// culprit, and an evidence record for each signal, newest first.
pub fn explain_records(info: &ExplainInfo) -> (r: (Vec<NdjsonRecord>, Vec<RankedCulprit>))
    requires
        ranking_input_fits(info.signals@, 0),
    ensures
        r.0@.len() >= 1,
        r.0@[0] matches NdjsonRecord::Meta(m) && explain_meta_is(m, *info),
        info.signals@.len() == 0 ==> r.0@.len() == 1 && r.1@.len() == 0,
        info.signals@.len() > 0 ==> is_ranking(info.signals@, 0, r.1@) && r.1@.len() >= 1,
        info.signals@.len() > 0 ==> ages_unknown(r.1@) || exists|now: (int, int)| ages_at(r.1@, now),
        info.signals@.len() > 0 ==> {
            &&& r.0@.len() == 2 + info.signals@.len()
            &&& r.0@[1] == NdjsonRecord::Rank(0)
            &&& forall|p: int| 0 <= p < r.0@.skip(2).len() ==> (#[trigger] r.0@.skip(2)[p]) is Evidence
            &&& is_explain_order(info.signals@, record_positions(r.0@.skip(2)))
        },
{
    let meta = make_meta(
        info.tool_version.as_str(),
        info.repo_path.as_str(),
        info.repo_basename.as_str(),
        info.selected_branch.as_str(),
        None,
        info.window_until_utc.as_str(),
        info.window_until_source.as_str(),
        clone_opt(&info.coverage_since_utc),
        info.coverage_valid,
        info.cache_valid,
    );
    let mut out: Vec<NdjsonRecord> = Vec::new();
    out.push(NdjsonRecord::Meta(meta));
    if info.signals.len() == 0 {
        return (out, Vec::new());
    }
    let ranked = aggregate_culprits(info.signals, 0);
    proof {
        lemma_counted_row_has_culprit(info.signals@, 0, 0);
        assert(culprit_rows(info.signals@, 0, info.signals@[0].culprit_sha@).len() >= 1);
    }
    out.push(NdjsonRecord::Rank(0));
    let order = picked_evidence(info.signals, None, true);
    proof {
        lemma_pick_count_bounds(info.signals@, None);
    }
    let ghost head = out@;
    let n = order.len();
    let mut i: usize = 0;
    while i < n
        invariant
            i <= n == order@.len(),
            out@.len() == 2 + i,
            out@.subrange(0, 2) == head,
            forall|q: int| 2 <= q < 2 + i ==> #[trigger] out@[q] == NdjsonRecord::Evidence(order@[q - 2]),
        decreases n - i,
    {
        out.push(NdjsonRecord::Evidence(order[i]));
        i = i + 1;
        assert(out@.subrange(0, 2) =~= head);
    }
    proof {
        assert(out@[0] == head[0]);
        assert(out@[1] == head[1]);
        let ev = out@.skip(2);
        assert(record_positions(ev) =~= order@) by {
            assert forall|q: int| 0 <= q < ev.len() implies record_positions(ev)[q] == order@[q] by {
                assert(out@[2 + q] == NdjsonRecord::Evidence(order@[q]));
            }
        }
        assert forall|q: int| 0 <= q < ev.len() implies (#[trigger] ev[q]) is Evidence by {
            assert(out@[2 + q] == NdjsonRecord::Evidence(order@[q]));
        }
    }
    (out, ranked)
}

/// The first seven bytes of a commit SHA, or all of it when shorter.
pub open spec fn short_sha_text(sha: Seq<char>) -> Seq<char> {
    let b = encode_utf8(sha);
    if b.len() >= 7 {
        vstd::utf8::decode_utf8(b.take(7))
    } else {
        sha
    }
}

/// The short form of a commit SHA: its first seven bytes, or all of it when
/// shorter.
pub fn short_sha(sha: &str) -> (r: String)
    requires
        sha.spec_bytes().len() < 7 || vstd::utf8::is_char_boundary(sha.spec_bytes(), 7),
    ensures
        r@ == short_sha_text(sha@),
{
    if sha.as_bytes().len() >= 7 {
        let (head, _) = sha.split_at(7);
        proof {
            vstd::utf8::encode_utf8_decode_utf8(head@);
            assert(head.spec_bytes() == encode_utf8(sha@).take(7));
        }
        head.to_string()
    } else {
        sha.to_string()
    }
}

// ---------------------------------------------------------------------------
// Totals of a ranking
// ---------------------------------------------------------------------------

/// Number of signals that count.
pub open spec fn counted_rows(rows: Seq<SignalRow>, min_bp: u32) -> int
    decreases rows.len(),
{
    if rows.len() == 0 {
        0
    } else {
        counted_rows(rows.drop_last(), min_bp) + if row_counts(rows.last(), min_bp) {
            1int
        } else {
            0int
        }
    }
}

/// The events of a ranking, summed over its culprits.
pub open spec fn events_total(r: Seq<RankedCulprit>) -> int
    decreases r.len(),
{
    if r.len() == 0 {
        0
    } else {
        events_total(r.drop_last()) + r.last().events
    }
}

/// Sum, over a list of culprits, of the number of their counted signals.
spec fn group_sum(rows: Seq<SignalRow>, min_bp: u32, shas: Seq<Seq<char>>) -> int
    decreases shas.len(),
{
    if shas.len() == 0 {
        0
    } else {
        group_sum(rows, min_bp, shas.drop_last()) + culprit_rows(rows, min_bp, shas.last()).len()
    }
}

/// Number of counted signals whose culprit is in the list.
spec fn counted_in(rows: Seq<SignalRow>, min_bp: u32, shas: Seq<Seq<char>>) -> int
    decreases rows.len(),
{
    if rows.len() == 0 {
        0
    } else {
        counted_in(rows.drop_last(), min_bp, shas) + if row_counts(rows.last(), min_bp)
            && shas.contains(rows.last().culprit_sha@) {
            1int
        } else {
            0int
        }
    }
}

/// Number of entries of the list that a signal counts for.
spec fn hits(x: SignalRow, min_bp: u32, shas: Seq<Seq<char>>) -> int
    decreases shas.len(),
{
    if shas.len() == 0 {
        0
    } else {
        hits(x, min_bp, shas.drop_last()) + if row_counts(x, min_bp) && x.culprit_sha@
            == shas.last() {
            1int
        } else {
            0int
        }
    }
}

proof fn lemma_events_as_groups(rows: Seq<SignalRow>, min_bp: u32, r: Seq<RankedCulprit>)
    requires
        forall|k: int|
            0 <= k < r.len() ==> (#[trigger] r[k]).events == culprit_rows(
                rows,
                min_bp,
                r[k].culprit_sha@,
            ).len(),
    ensures
        events_total(r) == group_sum(rows, min_bp, ranked_shas(r)),
    decreases r.len(),
{
    if r.len() > 0 {
        let r0 = r.drop_last();
        assert forall|k: int| 0 <= k < r0.len() implies (#[trigger] r0[k]).events == culprit_rows(
            rows,
            min_bp,
            r0[k].culprit_sha@,
        ).len() by {
            assert(r0[k] == r[k]);
        }
        lemma_events_as_groups(rows, min_bp, r0);
        assert(ranked_shas(r0) == ranked_shas(r).drop_last());
        assert(r.last() == r[r.len() - 1]);
    }
}

proof fn lemma_group_sum_step(rows: Seq<SignalRow>, min_bp: u32, shas: Seq<Seq<char>>)
    requires
        rows.len() > 0,
    ensures
        group_sum(rows, min_bp, shas) == group_sum(rows.drop_last(), min_bp, shas) + hits(
            rows.last(),
            min_bp,
            shas,
        ),
    decreases shas.len(),
{
    if shas.len() > 0 {
        lemma_group_sum_step(rows, min_bp, shas.drop_last());
    }
}

proof fn lemma_group_sum_empty(rows: Seq<SignalRow>, min_bp: u32, shas: Seq<Seq<char>>)
    requires
        rows.len() == 0,
    ensures
        group_sum(rows, min_bp, shas) == 0,
    decreases shas.len(),
{
    if shas.len() > 0 {
        lemma_group_sum_empty(rows, min_bp, shas.drop_last());
    }
}

proof fn lemma_hits_distinct(x: SignalRow, min_bp: u32, shas: Seq<Seq<char>>)
    requires
        forall|a: int, b: int| 0 <= a < b < shas.len() ==> shas[a] != shas[b],
    ensures
        hits(x, min_bp, shas) == if row_counts(x, min_bp) && shas.contains(x.culprit_sha@) {
            1int
        } else {
            0int
        },
    decreases shas.len(),
{
    if shas.len() > 0 {
        let s0 = shas.drop_last();
        assert forall|a: int, b: int| 0 <= a < b < s0.len() implies s0[a] != s0[b] by {
            assert(s0[a] == shas[a] && s0[b] == shas[b]);
        }
        lemma_hits_distinct(x, min_bp, s0);
        if shas.contains(x.culprit_sha@) {
            let k = choose|k: int| 0 <= k < shas.len() && shas[k] == x.culprit_sha@;
            if k < shas.len() - 1 {
                assert(s0[k] == shas[k]);
                assert(shas.last() != x.culprit_sha@);
            } else {
                assert(!s0.contains(x.culprit_sha@));
            }
        } else {
            assert(!s0.contains(x.culprit_sha@)) by {
                if s0.contains(x.culprit_sha@) {
                    let k = choose|k: int| 0 <= k < s0.len() && s0[k] == x.culprit_sha@;
                    assert(shas[k] == x.culprit_sha@);
                }
            }
        }
    }
}

proof fn lemma_groups_count(rows: Seq<SignalRow>, min_bp: u32, shas: Seq<Seq<char>>)
    requires
        forall|a: int, b: int| 0 <= a < b < shas.len() ==> shas[a] != shas[b],
    ensures
        group_sum(rows, min_bp, shas) == counted_in(rows, min_bp, shas),
    decreases rows.len(),
{
    if rows.len() == 0 {
        lemma_group_sum_empty(rows, min_bp, shas);
    } else {
        lemma_groups_count(rows.drop_last(), min_bp, shas);
        lemma_group_sum_step(rows, min_bp, shas);
        lemma_hits_distinct(rows.last(), min_bp, shas);
    }
}

proof fn lemma_counted_in_all(rows: Seq<SignalRow>, min_bp: u32, shas: Seq<Seq<char>>)
    requires
        forall|i: int|
            0 <= i < rows.len() && row_counts(#[trigger] rows[i], min_bp) ==> shas.contains(
                rows[i].culprit_sha@,
            ),
    ensures
        counted_in(rows, min_bp, shas) == counted_rows(rows, min_bp),
    decreases rows.len(),
{
    if rows.len() > 0 {
        let r0 = rows.drop_last();
        assert forall|i: int| 0 <= i < r0.len() && row_counts(#[trigger] r0[i], min_bp) implies shas.contains(
            r0[i].culprit_sha@,
        ) by {
            assert(r0[i] == rows[i]);
        }
        lemma_counted_in_all(r0, min_bp, shas);
        assert(rows.last() == rows[rows.len() - 1]);
    }
}

/// Every counted signal is an event of exactly one ranked culprit: the
/// events of a ranking add up to the number of signals that count.
pub proof fn lemma_ranking_events_total(rows: Seq<SignalRow>, min_bp: u32, r: Seq<RankedCulprit>)
    requires
        is_ranking(rows, min_bp, r),
    ensures
        events_total(r) == counted_rows(rows, min_bp),
{
    let shas = ranked_shas(r);
    assert forall|k: int| 0 <= k < r.len() implies (#[trigger] r[k]).events == culprit_rows(
        rows,
        min_bp,
        r[k].culprit_sha@,
    ).len() by {
        assert(ranked_entry(rows, min_bp, k, r[k]));
    }
    lemma_events_as_groups(rows, min_bp, r);
    assert forall|a: int, b: int| 0 <= a < b < shas.len() implies shas[a] != shas[b] by {
        assert(ranked_before(rows, min_bp, r[a].culprit_sha@, r[b].culprit_sha@));
        lemma_ranked_before_asym(rows, min_bp, shas[a], shas[b]);
    }
    lemma_groups_count(rows, min_bp, shas);
    assert forall|i: int|
        0 <= i < rows.len() && row_counts(#[trigger] rows[i], min_bp) implies shas.contains(
        rows[i].culprit_sha@,
    ) by {
        lemma_counted_row_has_culprit(rows, min_bp, i);
        let sha = rows[i].culprit_sha@;
        assert(culprit_rows(rows, min_bp, sha).len() >= 1);
        let k = choose|k: int| 0 <= k < r.len() && r[k].culprit_sha@ == sha;
        assert(shas[k] == sha);
    }
    lemma_counted_in_all(rows, min_bp, shas);
}

proof fn lemma_counted_rows_bound(rows: Seq<SignalRow>, min_bp: u32)
    ensures
        0 <= counted_rows(rows, min_bp) <= rows.len(),
    decreases rows.len(),
{
    if rows.len() > 0 {
        lemma_counted_rows_bound(rows.drop_last(), min_bp);
    }
}

proof fn lemma_events_prefix(r: Seq<RankedCulprit>, k: int)
    requires
        0 <= k <= r.len(),
    ensures
        0 <= events_total(r.take(k)) <= events_total(r),
    decreases r.len(),
{
    if k < r.len() {
        lemma_events_prefix(r.drop_last(), k);
        assert(r.drop_last().take(k) == r.take(k));
    } else {
        assert(r.take(k) == r);
        if r.len() > 0 {
            lemma_events_prefix(r.drop_last(), k - 1);
            assert(r.drop_last().take(k - 1) == r.drop_last());
        }
    }
}

/// The totals of a ranking: its number of events (the signals that count)
/// and its highest score (that of its first culprit, 0 when it is empty).
pub fn ranking_totals(signals: &[SignalRow], min_confidence_bp: u32, ranked: &[RankedCulprit]) -> (r: (
    usize,
    i64,
))
    requires
        is_ranking(signals@, min_confidence_bp, ranked@),
    ensures
        r.0 == events_total(ranked@),
        r.0 == counted_rows(signals@, min_confidence_bp),
        ranked@.len() == 0 ==> r.1 == 0,
        ranked@.len() > 0 ==> r.1 == ranked@[0].score,
        forall|k: int| 0 <= k < ranked@.len() ==> r.1 >= (#[trigger] ranked@[k]).score,
{
    proof {
        lemma_ranking_events_total(signals@, min_confidence_bp, ranked@);
        lemma_counted_rows_bound(signals@, min_confidence_bp);
    }
    let n_signals = signals.len();
    let mut events: usize = 0;
    let mut k: usize = 0;
    while k < ranked.len()
        invariant
            k <= ranked@.len(),
            events == events_total(ranked@.take(k as int)),
            events_total(ranked@) <= n_signals,
        decreases ranked.len() - k,
    {
        proof {
            lemma_events_prefix(ranked@, k + 1);
            assert(ranked@.take(k + 1).drop_last() == ranked@.take(k as int));
            assert(ranked@.take(k + 1).last() == ranked@[k as int]);
        }
        events = events + ranked[k].events;
        k = k + 1;
    }
    assert(ranked@.take(ranked@.len() as int) == ranked@);
    let max_score = if ranked.len() > 0 {
        ranked[0].score
    } else {
        0
    };
    proof {
        assert forall|k: int| 0 <= k < ranked@.len() implies max_score >= (
        #[trigger] ranked@[k]).score by {
            if k > 0 {
                assert(ranked_before(
                    signals@,
                    min_confidence_bp,
                    ranked@[0].culprit_sha@,
                    ranked@[k].culprit_sha@,
                ));
                assert(ranked_entry(signals@, min_confidence_bp, 0, ranked@[0]));
                assert(ranked_entry(signals@, min_confidence_bp, k, ranked@[k]));
            }
        }
    }
    (events, max_score)
}

} // verus!
