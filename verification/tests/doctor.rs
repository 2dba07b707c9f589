use regret::doctor::{diagnostic_lines, quick_check_text, short_oid, DiagnosticResults, TableInfo};

fn results() -> DiagnosticResults {
    DiagnosticResults {
        quick_check: "ok".to_string(),
        schema_version: Some("2".to_string()),
        tables: vec![
            ("meta".to_string(), TableInfo { exists: true, row_count: Some(7) }),
            ("file".to_string(), TableInfo { exists: false, row_count: None }),
            ("commit".to_string(), TableInfo { exists: true, row_count: None }),
        ],
        indexes: vec![("signal_time".to_string(), true), ("signal_culprit".to_string(), false)],
        last_scanned_ref_oid: Some("0123456789abcdef0123".to_string()),
        coverage_since_utc: None,
        coverage_since_oid: Some("abc".to_string()),
        coverage_valid: Some(true),
        is_shallow: Some(false),
        integrity_check: None,
    }
}

#[test]
fn doctor_report_lines() {
    let lines = diagnostic_lines(&results(), true);
    let expected = vec![
        "Database integrity:",
        "  PRAGMA quick_check: ok",
        "",
        "Schema:",
        "  schema_version: 2",
        "  warning: expected schema_version=1, found 2",
        "",
        "Tables:",
        "  meta: exists (7 rows)",
        "  file: missing",
        "  commit: exists (unable to count rows)",
        "",
        "Indexes:",
        "  signal_time: exists",
        "  signal_culprit: missing",
        "",
        "Coverage:",
        "  last_scanned_ref_oid: 0123456789ab",
        "  coverage_since_utc: not set",
        "  coverage_valid: true",
        "  is_shallow: false",
        "  coverage_since_oid: abc",
        "",
        "Deep checks (--deep):",
        "  PRAGMA integrity_check: not run",
    ];
    assert_eq!(lines, expected);
    let shallow = diagnostic_lines(&results(), false);
    assert_eq!(shallow.len(), expected.len() - 3);
}

#[test]
fn quick_check_results() {
    assert_eq!(quick_check_text("ok"), "ok");
    assert_eq!(quick_check_text("row 3 missing"), "FAILED: row 3 missing");
    assert_eq!(short_oid("abc"), "abc");
    assert_eq!(short_oid("0123456789abcdef"), "0123456789ab");
}
