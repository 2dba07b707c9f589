use regret::patch_id::{
    hex_string, patch_id_diff_args, patch_id_from_output, PatchId, PatchIdError, PatchIdOutputError,
};

#[test]
fn patch_id_hex_roundtrip() {
    let hex = "abc1234567890def1234567890abc123456789de";
    let pid = PatchId::from_hex(hex).unwrap();
    assert_eq!(pid.to_hex(), hex);
}

#[test]
fn patch_id_from_invalid_hex_length() {
    assert!(PatchId::from_hex("abc").is_err());
}

#[test]
fn patch_id_rejects_non_hex() {
    assert_eq!(
        PatchId::from_hex("zz34567890abcdef1234567890abcdef12345678"),
        Err(PatchIdError::InvalidDigit)
    );
}

#[test]
fn patch_id_bytes_match_hex() {
    let pid = PatchId::from_hex("00ff000000000000000000000000000000000010").unwrap();
    let bytes = pid.as_bytes();
    assert_eq!(bytes[0], 0x00);
    assert_eq!(bytes[1], 0xff);
    assert_eq!(bytes[19], 0x10);
}

#[test]
fn upper_case_hex_comes_back_lower_case() {
    let pid = PatchId::from_hex("ABCDEF0000000000000000000000000000000000").unwrap();
    assert_eq!(pid.to_hex(), "abcdef0000000000000000000000000000000000");
}

#[test]
fn hex_string_of_bytes() {
    assert_eq!(hex_string(&[0x01, 0xab, 0xff]), "01abff");
    assert_eq!(hex_string(&[]), "");
}

#[test]
fn patch_id_read_from_git_output() {
    let out = "abc1234567890def1234567890abc123456789de 0123456789012345678901234567890123456789\n";
    let pid = patch_id_from_output(out).unwrap();
    assert_eq!(pid.to_hex(), "abc1234567890def1234567890abc123456789de");
}

#[test]
fn patch_id_output_with_leading_whitespace() {
    let out = "\n  \tABC1234567890DEF1234567890ABC123456789DE\n";
    let pid = patch_id_from_output(out).unwrap();
    assert_eq!(pid.to_hex(), "abc1234567890def1234567890abc123456789de");
}

#[test]
fn patch_id_output_empty() {
    assert_eq!(patch_id_from_output(""), Err(PatchIdOutputError::Missing));
    assert_eq!(patch_id_from_output(" \n\t "), Err(PatchIdOutputError::Missing));
}

#[test]
fn patch_id_output_wrong_length() {
    assert_eq!(patch_id_from_output("abc123 def"), Err(PatchIdOutputError::WrongLength(6)));
}

#[test]
fn patch_id_output_not_hex() {
    assert_eq!(
        patch_id_from_output("zz34567890abcdef1234567890abcdef12345678 x"),
        Err(PatchIdOutputError::Invalid(PatchIdError::InvalidDigit))
    );
}

#[test]
fn diff_args_forward_and_reverse() {
    assert_eq!(patch_id_diff_args("c0ffee", Some("bead"), false), vec!["diff", "bead..c0ffee"]);
    assert_eq!(patch_id_diff_args("c0ffee", Some("bead"), true), vec!["diff", "c0ffee..bead"]);
}

#[test]
fn diff_args_of_root_commit_use_empty_tree() {
    assert_eq!(
        patch_id_diff_args("c0ffee", None, false),
        vec!["diff", "4b825dc642cb6eb9a060e54bf8d69288fbee4904..c0ffee"]
    );
    assert_eq!(
        patch_id_diff_args("c0ffee", None, true),
        vec!["diff", "c0ffee..4b825dc642cb6eb9a060e54bf8d69288fbee4904"]
    );
}

#[test]
fn patch_id_rejects_split_character() {
    // The three bytes of '€' do not split into two-byte UTF-8 groups.
    let text = format!("€{}", "a".repeat(37));
    assert_eq!(text.len(), 40);
    assert_eq!(PatchId::from_hex(&text), Err(PatchIdError::InvalidUtf8));
    assert_eq!(PatchId::from_hex("abc"), Err(PatchIdError::WrongLength));
}

#[test]
fn patch_id_rejects_plus_sign() {
    assert_eq!(PatchId::from_hex(&"+0".repeat(20)), Err(PatchIdError::InvalidDigit));
}
