use regret::output::{aggregate_culprits, compute_repo_id, SignalRow};
use regret::records::{
    explain_records, ndjson_records, ranking_totals, short_sha, ExplainInfo, NdjsonInfo,
    NdjsonRecord, NdjsonStat, StatValue,
};

fn row(culprit: &str, evidence: &str, weight: i64, bp: u32, time: &str) -> SignalRow {
    SignalRow {
        culprit_sha: culprit.to_string(),
        evidence_sha: evidence.to_string(),
        evidence_time_utc: time.to_string(),
        weight,
        confidence_bp: bp,
        culprit_time_utc: time.to_string(),
        culprit_subject: None,
    }
}

fn sample_signals() -> Vec<SignalRow> {
    vec![
        row("aaaa", "e2", 10, 9500, "2026-01-02T00:00:00Z"),
        row("bbbb", "e3", 8, 9000, "2026-01-03T00:00:00Z"),
        row("aaaa", "e1", 10, 9000, "2026-01-01T00:00:00Z"),
        row("cccc", "e4", 8, 5000, "2026-01-04T00:00:00Z"),
    ]
}

fn kinds(records: &[NdjsonRecord]) -> String {
    records
        .iter()
        .map(|r| match r {
            NdjsonRecord::Meta(_) => "M".to_string(),
            NdjsonRecord::Stat(_) => "S".to_string(),
            NdjsonRecord::Rank(k) => format!("R{}", k),
            NdjsonRecord::Evidence(i) => format!("E{}", i),
        })
        .collect::<Vec<_>>()
        .join(" ")
}

#[test]
fn stat_record_new() {
    let s = NdjsonStat::new("max_score", StatValue::Int(7));
    assert_eq!(s.record_type, "stat");
    assert_eq!(s.name, "max_score");
    assert_eq!(s.value, StatValue::Int(7));
}

#[test]
fn ranking_totals_count_events_and_top_score() {
    let signals = sample_signals();
    let ranked = aggregate_culprits(&signals, 6000);
    let (events, max_score) = ranking_totals(&signals, 6000, &ranked);
    // The low-confidence signal of cccc does not count.
    assert_eq!(events, 3);
    assert_eq!(max_score, 20);
    assert_eq!(ranked.iter().map(|c| c.events).sum::<usize>(), events);
}

#[test]
fn ranking_totals_of_nothing() {
    let signals: Vec<SignalRow> = Vec::new();
    let ranked = aggregate_culprits(&signals, 0);
    assert_eq!(ranking_totals(&signals, 0, &ranked), (0, 0));
}

#[test]
fn ndjson_records_order_and_values() {
    let signals = sample_signals();
    let ranked = aggregate_culprits(&signals, 0);
    let (events, max_score) = ranking_totals(&signals, 0, &ranked);
    let info = NdjsonInfo {
        tool_version: "0.1.0".to_string(),
        repo_path: "/tmp/repo".to_string(),
        repo_basename: "repo".to_string(),
        selected_branch: "refs/heads/main".to_string(),
        window_since_utc: Some("2025-12-01T00:00:00+00:00".to_string()),
        window_until_utc: "2026-02-01T00:00:00+00:00".to_string(),
        window_until_source: "now".to_string(),
        coverage_since_utc: None,
        coverage_valid: true,
        cache_valid: false,
        events,
        max_score,
        commits_in_window: 40,
        coverage_days: None,
        ranked_culprits: &ranked,
        signals: &signals,
    };
    let records = ndjson_records(&info);
    // Ranked: aaaa (20), bbbb (8), cccc (8); evidence of aaaa by time: e1 (2), e2 (0).
    assert_eq!(kinds(&records), "M S S S S S R0 R1 R2 E2 E0 E1 E3");
    match &records[0] {
        NdjsonRecord::Meta(m) => {
            assert_eq!(m.record_type, "meta");
            assert_eq!(m.schema_version, 1);
            assert_eq!(m.repo_id, compute_repo_id("/tmp/repo"));
            assert_eq!(m.window_since_utc.as_deref(), Some("2025-12-01T00:00:00+00:00"));
            assert_eq!(m.coverage_since_utc, None);
            assert!(m.coverage_valid);
            assert!(!m.cache_valid);
        }
        _ => panic!("first record is not meta"),
    }
    let stats: Vec<(String, StatValue)> = records[1..6]
        .iter()
        .map(|r| match r {
            NdjsonRecord::Stat(s) => (s.name.clone(), s.value),
            _ => panic!("not a stat record"),
        })
        .collect();
    assert_eq!(
        stats,
        vec![
            ("regret_events".to_string(), StatValue::Int(4)),
            ("max_score".to_string(), StatValue::Int(20)),
            ("events_per_100_commits".to_string(), StatValue::Rate { events: 4, commits: 40 }),
            ("commits_in_window".to_string(), StatValue::Int(40)),
            ("coverage_days".to_string(), StatValue::Int(-1)),
        ]
    );
}

#[test]
fn ndjson_records_with_no_culprits() {
    let signals: Vec<SignalRow> = Vec::new();
    let ranked = aggregate_culprits(&signals, 0);
    let info = NdjsonInfo {
        tool_version: "0.1.0".to_string(),
        repo_path: "r".to_string(),
        repo_basename: "r".to_string(),
        selected_branch: "main".to_string(),
        window_since_utc: None,
        window_until_utc: "2026-02-01T00:00:00+00:00".to_string(),
        window_until_source: "now".to_string(),
        coverage_since_utc: Some("2025-01-01T00:00:00+00:00".to_string()),
        coverage_valid: true,
        cache_valid: true,
        events: 0,
        max_score: 0,
        commits_in_window: 0,
        coverage_days: Some(396),
        ranked_culprits: &ranked,
        signals: &signals,
    };
    let records = ndjson_records(&info);
    assert_eq!(kinds(&records), "M S S S S S");
    match &records[5] {
        NdjsonRecord::Stat(s) => assert_eq!(s.value, StatValue::Int(396)),
        _ => panic!("not a stat record"),
    }
}

fn explain_info<'a>(signals: &'a [SignalRow]) -> ExplainInfo<'a> {
    ExplainInfo {
        culprit_sha: "aaaa".to_string(),
        signals,
        tool_version: "0.1.0".to_string(),
        repo_path: "/tmp/repo".to_string(),
        repo_basename: "repo".to_string(),
        selected_branch: "main".to_string(),
        window_until_utc: "2026-02-01T00:00:00+00:00".to_string(),
        window_until_source: "flag".to_string(),
        coverage_since_utc: None,
        coverage_valid: false,
        cache_valid: true,
    }
}

#[test]
fn explain_records_with_signals() {
    let signals = vec![
        row("aaaa", "e2", 10, 9500, "2026-01-02T00:00:00Z"),
        row("aaaa", "e1", 8, 3000, "2026-01-02T00:00:00Z"),
    ];
    let (records, ranked) = explain_records(&explain_info(&signals));
    // Same evidence time: by evidence SHA.
    assert_eq!(kinds(&records), "M R0 E1 E0");
    assert_eq!(ranked.len(), 1);
    assert_eq!(ranked[0].score, 18);
    assert_eq!(ranked[0].events, 2);
    match &records[0] {
        NdjsonRecord::Meta(m) => {
            assert_eq!(m.window_since_utc, None);
            assert_eq!(m.window_until_source, "flag");
        }
        _ => panic!("first record is not meta"),
    }
}

#[test]
fn explain_records_without_signals_is_meta_only() {
    let signals: Vec<SignalRow> = Vec::new();
    let (records, ranked) = explain_records(&explain_info(&signals));
    assert_eq!(kinds(&records), "M");
    assert!(ranked.is_empty());
}

#[test]
fn short_sha_takes_seven() {
    assert_eq!(short_sha("abcdef0123456789"), "abcdef0");
    assert_eq!(short_sha("abc"), "abc");
    assert_eq!(short_sha("abcdefg"), "abcdefg");
}

#[test]
fn explain_evidence_newest_first() {
    let mut signals = vec![
        row("aaaa", "e1", 10, 9500, "2026-01-01T00:00:00Z"),
        row("aaaa", "e2", 8, 9000, "2026-01-01T00:00:00Z"),
        row("aaaa", "e3", 8, 9000, "2026-01-01T00:00:00Z"),
    ];
    signals[0].evidence_time_utc = "2026-01-02T00:00:00Z".to_string();
    signals[1].evidence_time_utc = "2026-01-05T00:00:00Z".to_string();
    signals[2].evidence_time_utc = "2026-01-03T00:00:00Z".to_string();
    let (records, _) = explain_records(&explain_info(&signals));
    assert_eq!(kinds(&records), "M R0 E1 E2 E0");
}

#[test]
fn ndjson_evidence_by_evidence_time() {
    let mut signals = vec![
        row("aaaa", "e9", 10, 9500, "2026-01-01T00:00:00Z"),
        row("aaaa", "e1", 10, 9500, "2026-01-01T00:00:00Z"),
    ];
    signals[0].evidence_time_utc = "2026-01-02T00:00:00Z".to_string();
    signals[1].evidence_time_utc = "2026-01-07T00:00:00Z".to_string();
    let ranked = aggregate_culprits(&signals, 0);
    let (events, max_score) = ranking_totals(&signals, 0, &ranked);
    let info = NdjsonInfo {
        tool_version: "0.1.0".to_string(),
        repo_path: "r".to_string(),
        repo_basename: "r".to_string(),
        selected_branch: "main".to_string(),
        window_since_utc: None,
        window_until_utc: "2026-02-01T00:00:00+00:00".to_string(),
        window_until_source: "now".to_string(),
        coverage_since_utc: None,
        coverage_valid: true,
        cache_valid: true,
        events,
        max_score,
        commits_in_window: 2,
        coverage_days: None,
        ranked_culprits: &ranked,
        signals: &signals,
    };
    assert_eq!(kinds(&ndjson_records(&info)), "M S S S S S R0 E0 E1");
}
