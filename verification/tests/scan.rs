use regret::scan::{
    commit_row, coverage_update, earliest_boundary, flags_after_scan, is_rewrite, parse_pr_number,
    patch_id_matches, pick_patch_id_culprit, should_skip_scan, truncate_subject, Boundary, CoverageUpdate,
    CulpritCandidate,
};
use regret::selected_branch::{
    detect_default_branch_start, detect_default_branch_step, symbolic_ref_value, BranchAnswer,
    BranchNext, BranchStep,
};
use regret::shallow::{parse_shallow_oids, ShallowError};
use regret::time_window::{date_spec_to_utc, until_from_commit_time, until_source, UntilSource};
use regret::cli::DateSpec;

#[test]
fn subject_is_cut_to_eighty_characters() {
    let long = "x".repeat(100);
    assert_eq!(truncate_subject(&long).chars().count(), 80);
    assert_eq!(truncate_subject("short"), "short");
    let wide = "é".repeat(90);
    assert_eq!(truncate_subject(&wide), "é".repeat(80));
}

#[test]
fn pull_request_numbers() {
    assert_eq!(parse_pr_number("Merge pull request #42 from a/b"), Some(42));
    assert_eq!(parse_pr_number("Merge pull request #"), None);
    assert_eq!(parse_pr_number("Merge pull request 42"), None);
    assert_eq!(parse_pr_number("Merge pull request #99999999999999999999"), None);
    assert_eq!(parse_pr_number("Merge pull request #9223372036854775807"), Some(i64::MAX));
}

#[test]
fn commit_rows() {
    let row = commit_row("s".to_string(), "t".to_string(), Some("Merge pull request #7 x"));
    assert_eq!(row.subject.as_deref(), Some("Merge pull request #7 x"));
    assert_eq!(row.pr_number, Some(7));
    assert_eq!(row.pr_source.as_deref(), Some("merge_commit"));
    let plain = commit_row("s".to_string(), "t".to_string(), Some("fix"));
    assert_eq!(plain.pr_number, None);
    assert_eq!(plain.pr_source, None);
    let none = commit_row("s".to_string(), "t".to_string(), None);
    assert_eq!(none.subject, None);
}

#[test]
fn rewrite_detection() {
    assert!(!is_rewrite("a", "a", None));
    assert!(!is_rewrite("a", "b", Some("a")));
    assert!(is_rewrite("a", "b", Some("c")));
    assert!(is_rewrite("a", "b", None));
}

#[test]
fn scan_skipping() {
    assert!(should_skip_scan(Some(true), Some(true), Some("x"), Some("x")));
    assert!(!should_skip_scan(Some(true), Some(false), Some("x"), Some("x")));
    assert!(!should_skip_scan(None, Some(true), Some("x"), Some("x")));
    assert!(!should_skip_scan(Some(true), Some(true), Some("x"), Some("y")));
    assert!(!should_skip_scan(Some(true), Some(true), None, Some("x")));
}

#[test]
fn earliest_shallow_boundary() {
    let b = |s: i64, o: &str| Boundary { seconds: s, oid: o.to_string(), time_utc: format!("t{}", s) };
    assert_eq!(earliest_boundary(&[]), None);
    let list = vec![b(30, "c"), b(10, "a"), b(10, "b"), b(20, "d")];
    assert_eq!(earliest_boundary(&list), Some(("a".to_string(), "t10".to_string())));
}

#[test]
fn coverage_sources() {
    assert_eq!(coverage_update(true, true, true), CoverageUpdate::FromBoundary);
    assert_eq!(coverage_update(false, false, true), CoverageUpdate::FromOldestCommit);
    assert_eq!(coverage_update(false, true, false), CoverageUpdate::FromOldestCommit);
    assert_eq!(coverage_update(false, true, true), CoverageUpdate::Keep);
}

#[test]
fn patch_id_match_rules() {
    let a = [1u8; 20];
    let b = [2u8; 20];
    assert!(patch_id_matches("e", "c", false, &a, Some(&a)));
    assert!(!patch_id_matches("e", "e", false, &a, Some(&a)));
    assert!(!patch_id_matches("e", "c", true, &a, Some(&a)));
    assert!(!patch_id_matches("e", "c", false, &a, Some(&b)));
    assert!(!patch_id_matches("e", "c", false, &a, None));
}

#[test]
fn shallow_file_lines() {
    let full = "0123456789abcdef0123456789abcdef01234567";
    let text = format!("{}\n\n  {}  \r\n", full, full.to_uppercase());
    let ids = parse_shallow_oids(&text).unwrap();
    assert_eq!(ids, vec![full.to_string(), full.to_string()]);
    assert_eq!(parse_shallow_oids("").unwrap(), Vec::<String>::new());
    match parse_shallow_oids(&format!("{}\nnot-a-sha\n", full)) {
        Err(ShallowError::InvalidOid { value, line }) => {
            assert_eq!(value, "not-a-sha");
            assert_eq!(line, 2);
        }
        other => panic!("unexpected {:?}", other),
    }
}

#[test]
fn default_branch_questions() {
    let start = detect_default_branch_start();
    assert_eq!(start, BranchStep::OriginHeadExists);
    assert_eq!(start.reference(), "refs/remotes/origin/HEAD");
    assert_eq!(
        detect_default_branch_step(start, &BranchAnswer::RefExists(false)),
        BranchNext::Ask(BranchStep::MainExists)
    );
    assert_eq!(
        detect_default_branch_step(BranchStep::MainExists, &BranchAnswer::RefExists(true)),
        BranchNext::Found("refs/heads/main".to_string())
    );
    assert_eq!(
        detect_default_branch_step(BranchStep::OriginHeadTarget, &BranchAnswer::SymbolicRef(None)),
        BranchNext::Found("refs/remotes/origin/HEAD".to_string())
    );
    assert_eq!(
        detect_default_branch_step(
            BranchStep::HeadTarget,
            &BranchAnswer::SymbolicRef(Some("refs/heads/dev".to_string()))
        ),
        BranchNext::Found("refs/heads/dev".to_string())
    );
    assert_eq!(
        detect_default_branch_step(BranchStep::MasterExists, &BranchAnswer::RefExists(false)),
        BranchNext::Ask(BranchStep::HeadTarget)
    );
    assert!(BranchStep::HeadTarget.is_symbolic());
    assert!(!BranchStep::MainExists.is_symbolic());
    assert_eq!(symbolic_ref_value("refs/heads/main\n"), Some("refs/heads/main".to_string()));
    assert_eq!(symbolic_ref_value("  \n"), None);
}

#[test]
fn window_end_sources() {
    assert_eq!(until_source(true, Some("true")), UntilSource::Flag);
    assert_eq!(until_source(false, Some("true")), UntilSource::GithubActionsHeadCommitterTime);
    assert_eq!(until_source(false, Some("1")), UntilSource::WallClock);
    assert_eq!(until_source(false, None), UntilSource::WallClock);
    assert_eq!(UntilSource::GithubActionsHeadCommitterTime.as_str(), "github_actions_head_committer_time");
    assert_eq!(UntilSource::WallClock.as_str(), "wall_clock");
    assert_eq!(UntilSource::Flag.as_str(), "flag");
}

#[test]
fn compute_until_prefers_flag() {
    let spec = DateSpec::Iso8601("2024-01-15".to_string());
    let until = date_spec_to_utc(&spec).unwrap();
    assert_eq!(until_source(true, Some("true")), UntilSource::Flag);
    let dt = chrono::DateTime::<chrono::Utc>::from_timestamp(until.0, until.1).unwrap();
    assert_eq!(dt.date_naive(), chrono::NaiveDate::from_ymd_opt(2024, 1, 15).unwrap());
    assert_eq!(date_spec_to_utc(&DateSpec::Rfc3339 { secs: 5, nanos: 7 }), Some((5, 7)));
    assert_eq!(date_spec_to_utc(&DateSpec::Iso8601("2024-13-01".to_string())), None);
    let info = until_from_commit_time(1_700_000_000).unwrap();
    assert_eq!(info.until_secs, 1_700_000_000);
    assert_eq!(info.source, UntilSource::GithubActionsHeadCommitterTime);
    assert!(until_from_commit_time(i64::MAX).is_none());
}

#[test]
fn rewrite_invalidates_cache_and_coverage() {
    let f = flags_after_scan(true, false, true);
    assert!(!f.cache_valid);
    assert!(!f.coverage_valid);
}

#[test]
fn coverage_stays_invalid_until_full_rebuild() {
    // After a rewrite, an incremental scan makes the cache valid again but not the coverage.
    let f = flags_after_scan(true, false, true);
    let f = flags_after_scan(false, false, f.coverage_valid);
    assert!(f.cache_valid);
    assert!(!f.coverage_valid);
    let f = flags_after_scan(false, false, f.coverage_valid);
    assert!(!f.coverage_valid);
    // A scan of the whole history restores it.
    let f = flags_after_scan(false, true, f.coverage_valid);
    assert!(f.cache_valid);
    assert!(f.coverage_valid);
    // An incremental scan keeps a valid coverage valid.
    let f = flags_after_scan(false, false, f.coverage_valid);
    assert!(f.coverage_valid);
}

fn candidate(sha: &str, time: &str, signal_exists: bool, rev: Option<[u8; 20]>) -> CulpritCandidate {
    CulpritCandidate { sha: sha.to_string(), time_utc: time.to_string(), signal_exists, rev_patch_id: rev }
}

#[test]
fn patch_id_culprit_is_latest_match() {
    let pid = [7u8; 20];
    let other = [8u8; 20];
    let cs = vec![
        candidate("aaa", "2024-01-01T00:00:00Z", false, Some(pid)),
        candidate("bbb", "2024-03-01T00:00:00Z", false, Some(other)),
        candidate("ccc", "2024-02-01T00:00:00Z", false, Some(pid)),
        candidate("ddd", "2024-01-15T00:00:00Z", false, None),
    ];
    assert_eq!(pick_patch_id_culprit("eee", &pid, &cs), Some(2));
}

#[test]
fn patch_id_culprit_tie_goes_to_smaller_sha() {
    let pid = [1u8; 20];
    let cs = vec![
        candidate("fff", "2024-02-01T00:00:00Z", false, Some(pid)),
        candidate("abc", "2024-02-01T00:00:00Z", false, Some(pid)),
        candidate("cde", "2024-02-01T00:00:00Z", false, Some(pid)),
    ];
    assert_eq!(pick_patch_id_culprit("eee", &pid, &cs), Some(1));
}

#[test]
fn patch_id_culprit_skips_evidence_and_recorded_pairs() {
    let pid = [3u8; 20];
    let cs = vec![
        candidate("eee", "2024-05-01T00:00:00Z", false, Some(pid)),
        candidate("bbb", "2024-04-01T00:00:00Z", true, Some(pid)),
        candidate("ccc", "2024-01-01T00:00:00Z", false, Some(pid)),
    ];
    assert_eq!(pick_patch_id_culprit("eee", &pid, &cs), Some(2));
    assert_eq!(pick_patch_id_culprit("eee", &pid, &cs[..2]), None);
    assert_eq!(pick_patch_id_culprit("eee", &pid, &[]), None);
}
