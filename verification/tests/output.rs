use sha2::Digest;
use regret::output::{age_at, aggregate_culprits_at, evidence_order};
use regret::output::{
    age_label, aggregate_culprits, compute_age, compute_repo_id, confidence_reason_from_weight_and_confidence,
    coverage_lines, coverage_status, header_line, no_events_lines, no_events_reason, no_signals_line,
    signal_type_from_weight, truncate_subject, CoverageInfo, CoverageStatus, HeaderInfo, NoEventsInfo,
    NoEventsReason, ScanStatus, SignalRow,
};

fn row(culprit: &str, evidence: &str, weight: i64, bp: u32, time: &str, subject: Option<&str>) -> SignalRow {
    SignalRow {
        culprit_sha: culprit.to_string(),
        evidence_sha: evidence.to_string(),
        evidence_time_utc: time.to_string(),
        weight,
        confidence_bp: bp,
        culprit_time_utc: time.to_string(),
        culprit_subject: subject.map(|s| s.to_string()),
    }
}

#[test]
fn test_truncate_subject() {
    assert_eq!(truncate_subject("short", 80), "short");
    assert_eq!(truncate_subject("a".repeat(80).as_str(), 80), "a".repeat(80));

    let long = "a".repeat(100);
    let truncated = truncate_subject(&long, 80);
    assert_eq!(truncated.len(), 80);
    assert!(truncated.ends_with("..."));
}

#[test]
fn test_aggregate_culprits_sorting() {
    let signals = vec![
        row("aaaa", "bbbb", 10, 9500, "2026-01-27T10:00:00Z", Some("commit A")),
        row("cccc", "dddd", 20, 9000, "2026-01-26T10:00:00Z", Some("commit C")),
    ];

    let ranked = aggregate_culprits(&signals, 0);

    assert_eq!(ranked[0].culprit_sha, "cccc");
    assert_eq!(ranked[0].score, 20);
    assert_eq!(ranked[0].id, 1);

    assert_eq!(ranked[1].culprit_sha, "aaaa");
    assert_eq!(ranked[1].score, 10);
    assert_eq!(ranked[1].id, 2);
}

#[test]
fn test_aggregate_filters_by_confidence() {
    let signals = vec![row("aaaa", "bbbb", 10, 8500, "2026-01-27T10:00:00Z", Some("commit A"))];

    let ranked = aggregate_culprits(&signals, 9000);
    assert!(ranked.is_empty());

    let ranked = aggregate_culprits(&signals, 8000);
    assert_eq!(ranked.len(), 1);
}

#[test]
fn aggregate_sums_per_culprit_and_breaks_ties_by_sha() {
    let signals = vec![
        row("bbbb", "e1", 10, 9500, "2026-01-01T00:00:00Z", None),
        row("aaaa", "e2", 8, 9200, "2026-01-02T00:00:00Z", Some("first a")),
        row("aaaa", "e3", 2, 9000, "2026-01-03T00:00:00Z", Some("second a")),
    ];
    let ranked = aggregate_culprits(&signals, 0);
    assert_eq!(ranked.len(), 2);
    assert_eq!(ranked[0].culprit_sha, "aaaa");
    assert_eq!(ranked[0].score, 10);
    assert_eq!(ranked[0].events, 2);
    assert_eq!(ranked[0].min_confidence_bp, 9000);
    assert_eq!(ranked[0].signal_rows, vec![1, 2]);
    assert_eq!(ranked[0].culprit_date_utc, "2026-01-02T00:00:00Z");
    assert_eq!(ranked[0].subject_trunc, "first a");
    assert_eq!(ranked[1].culprit_sha, "bbbb");
    assert_eq!(ranked[1].subject_trunc, "(no subject)");
    assert_eq!(ranked[1].id, 2);
}

#[test]
fn unreadable_date_has_unknown_age() {
    let signals = vec![row("aaaa", "e", 10, 9500, "not a date", None)];
    let ranked = aggregate_culprits(&signals, 0);
    assert_eq!(ranked[0].culprit_age, "?");
    assert_eq!(compute_age("not a date"), "?");
}

#[test]
fn age_labels() {
    assert_eq!(age_label(0), "<1h");
    assert_eq!(age_label(3599), "<1h");
    assert_eq!(age_label(3600), "1h");
    assert_eq!(age_label(86399), "23h");
    assert_eq!(age_label(86400), "1d");
    assert_eq!(age_label(604799), "6d");
    assert_eq!(age_label(604800), "1w");
    assert_eq!(age_label(-5), "<1h");
    assert!(compute_age("2000-01-01T00:00:00Z").ends_with('w'));
}

#[test]
fn repo_id_is_sixteen_hex_digits_of_sha256() {
    let id = compute_repo_id("/tmp/repo");
    assert_eq!(id.len(), 16);
    let digest = sha2::Sha256::digest(b"/tmp/repo");
    let expected: String = digest[..8].iter().map(|b| format!("{:02x}", b)).collect();
    assert_eq!(id, expected);
}

#[test]
fn header_line_format() {
    let info = HeaderInfo {
        tool_version: "0.1.0".to_string(),
        repo_basename: "demo".to_string(),
        selected_branch: "refs/heads/main".to_string(),
        scan_status: ScanStatus::Ran,
        new_commits: 3,
        scanned_commits: 120,
        coverage_days: None,
    };
    assert_eq!(
        header_line(&info),
        "regret 0.1.0 repo=demo branch=refs/heads/main scan=ran new_commits=3 scanned_commits=120 coverage_days=?"
    );
}

#[test]
fn coverage_lines_by_status() {
    let complete = CoverageInfo { status: CoverageStatus::Complete, coverage_since_utc: "x".to_string(), coverage_valid: true };
    assert!(coverage_lines(&complete, Some(7)).is_empty());
    let incomplete = CoverageInfo {
        status: CoverageStatus::Incomplete,
        coverage_since_utc: "2024-01-01T00:00:00Z".to_string(),
        coverage_valid: true,
    };
    assert_eq!(
        coverage_lines(&incomplete, None),
        vec![
            "COVERAGE status=incomplete coverage_since_utc=2024-01-01T00:00:00Z coverage_valid=1".to_string(),
            "NEXT: regret --scan --since 30d".to_string(),
        ]
    );
    let invalid = CoverageInfo { status: CoverageStatus::Invalid, coverage_since_utc: String::new(), coverage_valid: false };
    assert_eq!(
        coverage_lines(&invalid, Some(5)),
        vec![
            "COVERAGE status=invalid coverage_since_utc= coverage_valid=0".to_string(),
            "NEXT: regret --scan --all".to_string(),
        ]
    );
}

#[test]
fn coverage_status_decisions() {
    assert_eq!(coverage_status(false, Some((0, 0)), None), CoverageStatus::Invalid);
    assert_eq!(coverage_status(true, Some((0, 0)), None), CoverageStatus::Complete);
    assert_eq!(coverage_status(true, None, None), CoverageStatus::Incomplete);
    assert_eq!(coverage_status(true, Some((100, 0)), Some((100, 0))), CoverageStatus::Complete);
    assert_eq!(coverage_status(true, Some((100, 1)), Some((100, 0))), CoverageStatus::Incomplete);
    assert_eq!(coverage_status(true, None, Some((100, 0))), CoverageStatus::Incomplete);
}

#[test]
fn no_events_block() {
    assert_eq!(no_events_reason(CoverageStatus::Invalid, 3, 0), NoEventsReason::CoverageIncomplete);
    assert_eq!(no_events_reason(CoverageStatus::Complete, 0, 0), NoEventsReason::NoSignalsDetected);
    assert_eq!(no_events_reason(CoverageStatus::Complete, 0, 2), NoEventsReason::SignalsOutsideWindow);
    let info = NoEventsInfo {
        reverts_detected: 1,
        linked_fix_trailers: 2,
        coverage_days: Some(45),
        reason: NoEventsReason::SignalsOutsideWindow,
    };
    assert_eq!(
        no_events_lines(&info),
        vec![
            "NO_EVENTS reverts_detected=1 linked_fix_trailers=2 coverage_days=45".to_string(),
            "REASON: signals_outside_window_or_threshold".to_string(),
            "NEXT: regret --since 90d # widen ranking window".to_string(),
        ]
    );
    assert_eq!(no_signals_line("abc1234"), "NO_SIGNALS culprit=sha:abc1234");
}

#[test]
fn evidence_labels() {
    assert_eq!(signal_type_from_weight(10), "revert");
    assert_eq!(signal_type_from_weight(8), "linked_fix");
    assert_eq!(signal_type_from_weight(3), "unknown");
    assert_eq!(confidence_reason_from_weight_and_confidence(10, 9500), "canonical_revert_line");
    assert_eq!(confidence_reason_from_weight_and_confidence(10, 9000), "patch_id_equivalence");
    assert_eq!(confidence_reason_from_weight_and_confidence(8, 9200), "explicit_trailer");
    assert_eq!(confidence_reason_from_weight_and_confidence(7, 9200), "unknown");
    assert_eq!(ScanStatus::Skipped.as_str(), "skipped");
    assert_eq!(CoverageStatus::Incomplete.as_str(), "incomplete");
    assert_eq!(NoEventsReason::NoSignalsDetected.as_str(), "no_signals_detected");
}

#[test]
fn truncate_subject_keeps_multibyte_prefix() {
    let s = "é".repeat(10);
    assert_eq!(truncate_subject(&s, 9), "ééé...");
}

#[test]
fn evidence_follows_rank_then_time_then_sha() {
    let signals = vec![
        row("aaaa", "e2", 10, 9500, "2026-01-02T00:00:00Z", None),
        row("bbbb", "e9", 20, 9500, "2026-01-01T00:00:00Z", None),
        row("aaaa", "e1", 10, 9500, "2026-01-02T00:00:00Z", None),
        row("aaaa", "e0", 10, 9500, "2026-01-03T00:00:00Z", None),
        row("aaaa", "e1", 10, 9500, "2026-01-02T00:00:00Z", None),
    ];
    let ranked = aggregate_culprits(&signals, 0);
    assert_eq!(ranked[0].culprit_sha, "aaaa");
    assert_eq!(evidence_order(&ranked, &signals), vec![2, 4, 0, 3, 1]);
}

#[test]
fn age_at_a_given_moment() {
    // 2026-01-01T00:00:00Z is 1767225600 seconds after the epoch.
    let now = (1767225600i64 + 3 * 86400 + 5 * 3600, 0u32);
    assert_eq!(age_at("2026-01-01T00:00:00Z", now), "3d");
    assert_eq!(age_at("2026-01-01T00:00:00Z", (1767225600 + 1800, 0)), "<1h");
    assert_eq!(age_at("2025-12-18T00:00:00Z", (1767225600, 0)), "2w");
    assert_eq!(age_at("2026-01-01T01:00:00+01:00", (1767225600 + 7200, 0)), "2h");
    assert_eq!(age_at("yesterday", now), "?");
    // A time after the moment is less than an hour old.
    assert_eq!(age_at("2026-01-02T00:00:00Z", (1767225600, 0)), "<1h");
}

#[test]
fn ranking_ages_taken_at_the_window_end() {
    let signals = vec![
        row("aaaa", "e1", 10, 9500, "2025-12-01T00:00:00Z", Some("A")),
        row("bbbb", "e2", 8, 9000, "not a time", None),
    ];
    let until = (1767225600i64, 0u32); // 2026-01-01T00:00:00Z
    let ranked = aggregate_culprits_at(&signals, 0, until);
    assert_eq!(ranked.len(), 2);
    assert_eq!(ranked[0].culprit_sha, "aaaa");
    assert_eq!(ranked[0].culprit_age, "4w");
    assert_eq!(ranked[1].culprit_age, "?");
    assert_eq!(ranked[1].subject_trunc, "(no subject)");
}
