use regret::cli::{
    compute_since, compute_window_days, compute_window_hint, format_error_message, init_summary,
    backfill_after, first_scan, needs_backfill, parse_date, parse_duration, parse_duration_config, parse_sha_arg, plan_write,
    ranking_since, resolve_mode, CliError, Config, DateSpec, Duration, Mode, WriteOutcome,
};

fn instant(s: &str) -> (i64, u32) {
    let dt = chrono::DateTime::parse_from_rfc3339(s).unwrap();
    (dt.timestamp(), dt.timestamp_subsec_nanos())
}

#[test]
fn test_parse_duration() {
    assert_eq!(parse_duration("30d").unwrap(), Duration::Days(30));
    assert_eq!(parse_duration("2w").unwrap(), Duration::Weeks(2));
    assert_eq!(parse_duration("12h").unwrap(), Duration::Hours(12));

    assert!(parse_duration("30").is_err());
    assert!(parse_duration("30x").is_err());
    assert!(parse_duration("").is_err());
}

#[test]
fn test_parse_date() {
    assert!(matches!(parse_date("2026-01-27").unwrap(), DateSpec::Iso8601(_)));
    assert!(matches!(parse_date("2026-01-27T15:30:00Z").unwrap(), DateSpec::Rfc3339 { .. }));
    assert!(parse_date("invalid").is_err());
    assert!(parse_date("2026/01/27").is_err());
}

#[test]
fn test_parse_sha_arg() {
    assert_eq!(parse_sha_arg("sha:abc123").unwrap(), "abc123");
    assert_eq!(parse_sha_arg("sha:1234567890abcdef").unwrap(), "1234567890abcdef");

    assert!(parse_sha_arg("abc123").is_err());
    assert!(parse_sha_arg("sha:").is_err());
    assert!(parse_sha_arg("sha:xyz").is_err());
    assert!(parse_sha_arg("sha:123").is_err());
}

#[test]
fn test_compute_window_days() {
    let until = instant("2026-01-10T00:00:00Z");
    let since = instant("2026-01-05T00:00:00Z");
    assert_eq!(compute_window_days(Some(since), until), Some(5));
    assert_eq!(compute_window_days(None, until), None);
}

#[test]
fn test_compute_window_hint() {
    let until = instant("2026-01-10T00:00:00Z");

    let since = compute_since(until, &Duration::Hours(12));
    assert_eq!(compute_window_hint(Some(since), until), Some("12h".to_string()));

    let since = compute_since(until, &Duration::Hours(36));
    assert_eq!(compute_window_hint(Some(since), until), Some("36h".to_string()));

    let since = compute_since(until, &Duration::Days(30));
    assert_eq!(compute_window_hint(Some(since), until), Some("30d".to_string()));

    let since = compute_since(until, &Duration::Weeks(2));
    assert_eq!(compute_window_hint(Some(since), until), Some("2w".to_string()));

    assert_eq!(compute_window_hint(None, until), None);
}

#[test]
fn test_compute_since_from_duration() {
    let until = instant("2026-01-10T00:00:00Z");
    let since = compute_since(until, &Duration::Days(5));
    let dt = chrono::DateTime::<chrono::Utc>::from_timestamp(since.0, since.1).unwrap();
    assert_eq!(dt.to_rfc3339(), "2026-01-05T00:00:00+00:00");
}

#[test]
fn test_mode_precedence() {
    let config = Config {
        init: true,
        doctor: true,
        scan: true,
        sha: Some("abc123".to_string()),
        ..Default::default()
    };
    assert_eq!(resolve_mode(&config), Mode::Init);

    let config = Config { doctor: true, scan: true, sha: Some("abc123".to_string()), ..Default::default() };
    assert_eq!(resolve_mode(&config), Mode::Doctor);

    let config = Config { scan: true, sha: Some("abc123".to_string()), ..Default::default() };
    assert_eq!(resolve_mode(&config), Mode::Scan);

    let config = Config { sha: Some("abc123".to_string()), ..Default::default() };
    assert_eq!(resolve_mode(&config), Mode::Explain("abc123".to_string()));

    let config = Config::default();
    assert_eq!(resolve_mode(&config), Mode::Default);
}

#[test]
fn duration_errors_and_seconds() {
    assert_eq!(parse_duration("99999999999999999999d"), Err(CliError::InvalidNumber));
    assert_eq!(parse_duration("3x"), Err(CliError::InvalidDuration("3x".to_string())));
    assert_eq!(Duration::Hours(2).total_seconds(), Some(7200));
    assert_eq!(Duration::Weeks(1).total_seconds(), Some(604800));
    assert_eq!(Duration::Days(u64::MAX).total_seconds(), None);
    assert_eq!(Duration::Days(1).to_std_duration(), std::time::Duration::from_secs(86400));
    assert_eq!(
        parse_duration("3x").unwrap_err().message(),
        "Invalid duration format: '3x'. Expected format like '30d', '2w', '12h'"
    );
}

#[test]
fn config_duration_names_the_field() {
    assert_eq!(parse_duration_config("45d", "scan.bootstrap_since"), Ok(Duration::Days(45)));
    let err = parse_duration_config("soon", "scan.bootstrap_since").unwrap_err();
    assert_eq!(err.message(), "Invalid config duration for scan.bootstrap_since");
}

#[test]
fn sha_argument_errors() {
    assert_eq!(parse_sha_arg("abc123"), Err(CliError::MissingShaPrefix("abc123".to_string())));
    assert_eq!(parse_sha_arg("sha:xyz1"), Err(CliError::InvalidSha("sha:xyz1".to_string())));
    assert!(parse_sha_arg(&format!("sha:{}", "a".repeat(41))).is_err());
    assert!(parse_sha_arg(&format!("sha:{}", "a".repeat(40))).is_ok());
}

#[test]
fn error_prefix_added_once() {
    assert_eq!(format_error_message("boom"), "error: boom");
    assert_eq!(format_error_message("error: boom"), "error: boom");
    assert_eq!(format_error_message("error:x"), "error:x");
}

#[test]
fn ranking_window_choice() {
    assert_eq!(ranking_since(true, Some((5, 0)), (1, 0)), None);
    assert_eq!(ranking_since(false, Some((5, 0)), (1, 0)), Some((5, 0)));
    assert_eq!(ranking_since(false, None, (1, 0)), Some((1, 0)));
    assert!(needs_backfill(None, (10, 0)));
    assert!(needs_backfill(Some((11, 0)), (10, 0)));
    assert!(!needs_backfill(Some((10, 0)), (10, 0)));
    assert!(!needs_backfill(Some((9, 5)), (10, 0)));
}

#[test]
fn window_hint_short_and_negative() {
    let until = (10_000, 0);
    assert_eq!(compute_window_hint(Some((until.0 - 3599, 0)), until), None);
    assert_eq!(compute_window_days(Some((until.0 + 86400, 0)), until), Some(0));
}

#[test]
fn init_file_plans_and_summary() {
    assert_eq!(plan_write(false, false, false), Some(WriteOutcome::Created));
    assert_eq!(plan_write(true, false, true), None);
    assert_eq!(plan_write(true, true, true), Some(WriteOutcome::Overwritten));
    assert_eq!(plan_write(true, true, false), Some(WriteOutcome::Skipped));
    assert_eq!(init_summary(6, 0, 0), "Initialized .regret/");
    assert_eq!(init_summary(2, 4, 0), "Initialized .regret/ (2 new, 4 existing)");
    assert_eq!(init_summary(0, 0, 6), "Reinitialized .regret/ (6 overwritten)");
    assert_eq!(init_summary(0, 6, 0), "Already initialized (.regret/ exists)");
}

#[test]
fn invalid_date_keeps_its_text() {
    assert_eq!(parse_date("2026/01/27"), Err(CliError::InvalidDate("2026/01/27".to_string())));
    assert_eq!(
        parse_date("2026/01/27").unwrap_err().message(),
        "Invalid date format: '2026/01/27'. Expected YYYY-MM-DD or RFC3339 format"
    );
}

#[test]
fn first_scan_plan() {
    assert_eq!(first_scan(&Mode::Scan, false, false, true), Some(false));
    assert_eq!(first_scan(&Mode::Scan, true, true, false), Some(true));
    assert_eq!(first_scan(&Mode::Default, false, false, false), Some(false));
    assert_eq!(first_scan(&Mode::Default, false, false, true), None);
    assert_eq!(first_scan(&Mode::Default, false, true, true), Some(true));
    assert_eq!(first_scan(&Mode::Default, true, true, false), None);
    assert_eq!(first_scan(&Mode::Init, false, false, false), None);
    assert_eq!(first_scan(&Mode::Explain("abc".to_string()), false, false, false), None);
}

#[test]
fn backfill_plan() {
    let coverage = Some((1000i64, 0u32));
    let earlier = (500i64, 0u32);
    let later = (2000i64, 0u32);
    // --scan reaches back to the bootstrap window without --since.
    assert!(backfill_after(&Mode::Scan, false, false, false, coverage, None, earlier));
    assert!(!backfill_after(&Mode::Scan, false, false, false, coverage, None, later));
    assert!(backfill_after(&Mode::Scan, false, false, false, coverage, Some(earlier), later));
    assert!(backfill_after(&Mode::Scan, false, false, false, None, None, later));
    // Never after a rewrite or with --all.
    assert!(!backfill_after(&Mode::Scan, false, false, true, coverage, Some(earlier), earlier));
    assert!(!backfill_after(&Mode::Scan, false, true, false, coverage, Some(earlier), earlier));
    // The default mode only for an explicit --since, and not with --no-scan.
    assert!(!backfill_after(&Mode::Default, false, false, false, coverage, None, earlier));
    assert!(backfill_after(&Mode::Default, false, false, false, coverage, Some(earlier), later));
    assert!(!backfill_after(&Mode::Default, false, false, false, coverage, Some(later), later));
    assert!(!backfill_after(&Mode::Default, true, false, false, coverage, Some(earlier), later));
    assert!(!backfill_after(&Mode::Doctor, false, false, false, coverage, Some(earlier), earlier));
}
