use regret::signals::{pending_signal, PendingKind};
use regret::signals::{
    create_canonical_revert_signal, create_linked_fix_signal, create_patch_id_revert_signal,
    detect_canonical_reverts, detect_linked_fix_trailers, time_to_regret_seconds, ConfidenceReason,
    SignalType, TimeError,
};

#[test]
fn detects_standard_git_revert_message() {
    let body = b"Revert \"Add feature X\"\n\nThis reverts commit abc1234567890def1234567890abc123456789de.\n";
    let culprits = detect_canonical_reverts(body);
    assert_eq!(culprits.len(), 1);
    assert_eq!(culprits[0], "abc1234567890def1234567890abc123456789de");
}

#[test]
fn detects_uppercase_sha() {
    let body = b"This reverts commit ABC1234567890DEF1234567890ABC123456789DE.";
    let culprits = detect_canonical_reverts(body);
    assert_eq!(culprits.len(), 1);
    assert_eq!(culprits[0], "abc1234567890def1234567890abc123456789de");
}

#[test]
fn detects_multiple_reverts_in_one_commit() {
    let body = b"This reverts commit 1111111111111111111111111111111111111111.\n\
                 This reverts commit 2222222222222222222222222222222222222222.\n";
    let culprits = detect_canonical_reverts(body);
    assert_eq!(culprits.len(), 2);
    assert_eq!(culprits[0], "1111111111111111111111111111111111111111");
    assert_eq!(culprits[1], "2222222222222222222222222222222222222222");
}

#[test]
fn ignores_manual_message_without_pattern() {
    let body = b"Revert the feature because it broke production";
    let culprits = detect_canonical_reverts(body);
    assert!(culprits.is_empty());
}

#[test]
fn ignores_malformed_sha_too_short() {
    let body = b"This reverts commit abc123.";
    let culprits = detect_canonical_reverts(body);
    assert!(culprits.is_empty());
}

#[test]
fn ignores_malformed_sha_too_long() {
    let body = b"This reverts commit abc1234567890def1234567890abc1234567890def0.";
    let culprits = detect_canonical_reverts(body);
    assert!(culprits.is_empty());
}

#[test]
fn ignores_missing_period() {
    let body = b"This reverts commit abc1234567890def1234567890abc1234567890de";
    let culprits = detect_canonical_reverts(body);
    assert!(culprits.is_empty());
}

#[test]
fn ignores_non_hex_characters() {
    let body = b"This reverts commit gggg111111111111111111111111111111111111.";
    let culprits = detect_canonical_reverts(body);
    assert!(culprits.is_empty());
}

#[test]
fn time_to_regret_calculation() {
    let culprit = "2024-01-01T10:00:00Z";
    let evidence = "2024-01-01T12:30:00Z";
    let secs = time_to_regret_seconds(culprit, evidence).unwrap();
    let hours = secs as f64 / 3600.0;
    assert!((hours - 2.5).abs() < 0.001);
}

#[test]
fn time_to_regret_negative_becomes_zero() {
    let culprit = "2024-01-01T12:00:00Z";
    let evidence = "2024-01-01T10:00:00Z";
    let secs = time_to_regret_seconds(culprit, evidence).unwrap();
    let hours = secs as f64 / 3600.0;
    assert_eq!(hours, 0.0);
}

#[test]
fn detects_fixes_commit_trailer_full_sha() {
    let body = b"Fix the bug\n\nFixes-Commit: abc1234567890def1234567890abc123456789de\n";
    let trailers = detect_linked_fix_trailers(body);
    assert_eq!(trailers.len(), 1);
    assert_eq!(trailers[0].sha_prefix, "abc1234567890def1234567890abc123456789de");
}

#[test]
fn detects_fixes_sha_trailer() {
    let body = b"Fix the bug\n\nFixes-SHA: abc1234567890def1234567890abc123456789de\n";
    let trailers = detect_linked_fix_trailers(body);
    assert_eq!(trailers.len(), 1);
    assert_eq!(trailers[0].sha_prefix, "abc1234567890def1234567890abc123456789de");
}

#[test]
fn detects_short_sha_prefix() {
    let body = b"Fix the bug\n\nFixes-Commit: abc1234\n";
    let trailers = detect_linked_fix_trailers(body);
    assert_eq!(trailers.len(), 1);
    assert_eq!(trailers[0].sha_prefix, "abc1234");
}

#[test]
fn detects_multiple_linked_fix_trailers() {
    let body = b"Fix multiple bugs\n\nFixes-Commit: 1111111\nFixes-SHA: 2222222\n";
    let trailers = detect_linked_fix_trailers(body);
    assert_eq!(trailers.len(), 2);
    assert_eq!(trailers[0].sha_prefix, "1111111");
    assert_eq!(trailers[1].sha_prefix, "2222222");
}

#[test]
fn ignores_sha_prefix_too_short() {
    let body = b"Fix the bug\n\nFixes-Commit: abc123\n";
    let trailers = detect_linked_fix_trailers(body);
    assert!(trailers.is_empty());
}

#[test]
fn ignores_inline_trailer_not_at_line_start() {
    let body = b"Fix the bug with Fixes-Commit: abc1234567\n";
    let trailers = detect_linked_fix_trailers(body);
    assert!(trailers.is_empty());
}

#[test]
fn handles_whitespace_after_sha() {
    let body = b"Fix the bug\n\nFixes-Commit: abc1234567   \n";
    let trailers = detect_linked_fix_trailers(body);
    assert_eq!(trailers.len(), 1);
    assert_eq!(trailers[0].sha_prefix, "abc1234567");
}

#[test]
fn lowercases_sha_prefix() {
    let body = b"Fix the bug\n\nFixes-Commit: ABC1234DEF\n";
    let trailers = detect_linked_fix_trailers(body);
    assert_eq!(trailers.len(), 1);
    assert_eq!(trailers[0].sha_prefix, "abc1234def");
}

#[test]
fn trailer_with_text_after_sha_is_ignored() {
    let body = b"Fixes-Commit: abc1234567 extra\n";
    assert!(detect_linked_fix_trailers(body).is_empty());
}

#[test]
fn revert_line_inside_text_is_found() {
    let body = b"see: This reverts commit 0123456789abcdef0123456789abcdef01234567. done";
    assert_eq!(detect_canonical_reverts(body), vec!["0123456789abcdef0123456789abcdef01234567".to_string()]);
}

#[test]
fn time_to_regret_is_whole_seconds() {
    let secs = time_to_regret_seconds("2024-01-01T10:00:00Z", "2024-01-01T10:00:01.9Z").unwrap();
    assert_eq!(secs, 1);
}

#[test]
fn time_to_regret_accepts_offsets() {
    let secs = time_to_regret_seconds("2024-01-01T10:00:00+02:00", "2024-01-01T10:00:00Z").unwrap();
    assert_eq!(secs, 7200);
}

#[test]
fn unreadable_time_is_an_error() {
    assert_eq!(time_to_regret_seconds("yesterday", "2024-01-01T10:00:00Z"), Err(TimeError::Unparseable));
}

#[test]
fn signal_constructors_set_kind_confidence_and_weight() {
    let s = create_canonical_revert_signal(
        "c".to_string(),
        "2024-01-01T10:00:00Z",
        "e".to_string(),
        "2024-01-01T11:00:00Z",
    )
    .unwrap();
    assert_eq!(s.signal_type, SignalType::Revert);
    assert_eq!(s.confidence_reason, ConfidenceReason::CanonicalRevertLine);
    assert_eq!(s.confidence_bp, 9500);
    assert_eq!(s.weight, 10);
    assert_eq!(s.time_to_regret_seconds, 3600);
    assert_eq!(s.signal_type.as_str(), "revert");
    assert_eq!(s.confidence_reason.as_str(), "canonical_revert_line");

    let l = create_linked_fix_signal(
        "c".to_string(),
        "2024-01-01T10:00:00Z",
        "e".to_string(),
        "2024-01-01T10:30:00Z",
    )
    .unwrap();
    assert_eq!(l.signal_type, SignalType::LinkedFix);
    assert_eq!(l.confidence_reason, ConfidenceReason::ExplicitTrailer);
    assert_eq!(l.confidence_bp, 9200);
    assert_eq!(l.weight, 8);
    assert_eq!(l.evidence_time_utc, "2024-01-01T10:30:00Z");

    let p = create_patch_id_revert_signal(
        "c".to_string(),
        "2024-01-01T10:00:00Z",
        "e".to_string(),
        "2024-01-01T10:30:00Z",
    )
    .unwrap();
    assert_eq!(p.confidence_reason, ConfidenceReason::PatchIdEquivalence);
    assert_eq!(p.confidence_bp, 9000);
    assert_eq!(p.confidence_reason.as_str(), "patch_id_equivalence");
}

#[test]
fn trailer_stays_on_one_line() {
    assert!(detect_linked_fix_trailers(b"Fixes-Commit:\nabc1234\n").is_empty());
    assert!(detect_linked_fix_trailers(b"Fixes-SHA: \n abc1234").is_empty());
    let t = detect_linked_fix_trailers(b"Fixes-Commit: \tABC1234 \r\nrest");
    assert_eq!(t.len(), 1);
    assert_eq!(t[0].sha_prefix, "abc1234");
}

#[test]
fn pending_signal_decisions() {
    let c = "a".repeat(40);
    let e = "b".repeat(40);
    assert!(pending_signal(PendingKind::LinkedFix, c.clone(), e.clone(), "2024-01-02T00:00:00Z", true, Some("2024-01-01T00:00:00Z")).is_none());
    assert!(pending_signal(PendingKind::LinkedFix, c.clone(), e.clone(), "2024-01-02T00:00:00Z", false, None).is_none());
    assert!(pending_signal(PendingKind::LinkedFix, c.clone(), e.clone(), "garbage", false, Some("2024-01-01T00:00:00Z")).is_none());
    let s = pending_signal(PendingKind::CanonicalRevert, c.clone(), e.clone(), "2024-01-02T00:00:00Z", false, Some("2024-01-01T00:00:00Z")).unwrap();
    assert_eq!(s.signal_type, SignalType::Revert);
    assert_eq!(s.culprit_sha, c);
    assert_eq!(s.evidence_sha, e);
    let f = pending_signal(PendingKind::LinkedFix, c, e, "2024-01-02T00:00:00Z", false, Some("2024-01-01T00:00:00Z")).unwrap();
    assert_eq!(f.signal_type, SignalType::LinkedFix);
    assert_eq!(f.confidence_reason, ConfidenceReason::ExplicitTrailer);
}
