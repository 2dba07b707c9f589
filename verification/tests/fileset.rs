use regret::config_file::SurfacesConfig;
use regret::fileset::{
    build_file_set, compute_files_hash, decode_file_ids, decode_varint, encode_file_ids,
    encode_varint, included_files, IgnorePatterns,
};

#[test]
fn test_varint_roundtrip() {
    let values = [0u64, 1, 127, 128, 255, 256, 16383, 16384, u64::MAX];

    for &value in &values {
        let mut encoded = Vec::new();
        encode_varint(value, &mut encoded);
        let (decoded, _) = decode_varint(&encoded);
        assert_eq!(value, decoded, "Varint roundtrip failed for {}", value);
    }
}

#[test]
fn test_file_ids_roundtrip() {
    let ids = vec![1i64, 42, 100, 1000, 10000];
    let encoded = encode_file_ids(&ids);
    let decoded = decode_file_ids(&encoded);
    assert_eq!(ids, decoded);
}

#[test]
fn test_files_hash_deterministic() {
    let ids1 = vec![1i64, 2, 3];
    let ids2 = vec![1i64, 2, 3];
    let ids3 = vec![3i64, 2, 1];

    let hash1 = compute_files_hash(&ids1);
    let hash2 = compute_files_hash(&ids2);
    let hash3 = compute_files_hash(&ids3);

    assert_eq!(hash1, hash2, "Same IDs should produce same hash");
    assert_ne!(hash1, hash3, "Different order should produce different hash");
}

#[test]
fn test_empty_file_ids() {
    let ids: Vec<i64> = vec![];
    let encoded = encode_file_ids(&ids);
    let decoded = decode_file_ids(&encoded);
    assert!(decoded.is_empty());
}

#[test]
fn test_default_ignore_patterns() {
    let patterns = IgnorePatterns::defaults().unwrap();

    assert!(patterns.is_ignored("node_modules/lodash/index.js"));
    assert!(patterns.is_ignored("src/node_modules/pkg/file.js"));
    assert!(patterns.is_ignored("vendor/github.com/pkg/file.go"));
    assert!(patterns.is_ignored("target/debug/main"));
    assert!(patterns.is_ignored("dist/bundle.js"));
    assert!(patterns.is_ignored("build/output.js"));
    assert!(patterns.is_ignored("package-lock.json"));
    assert!(patterns.is_ignored("yarn.lock"));
    assert!(patterns.is_ignored("pnpm-lock.yaml"));
    assert!(patterns.is_ignored("Cargo.lock"));
    assert!(patterns.is_ignored("app.min.js"));
    assert!(patterns.is_ignored("styles.min.css"));
    assert!(patterns.is_ignored("schema.generated.ts"));
    assert!(patterns.is_ignored("api_generated.py"));
    assert!(patterns.is_ignored(".git/objects/abc123"));

    assert!(!patterns.is_ignored("src/main.rs"));
    assert!(!patterns.is_ignored("app/index.js"));
    assert!(!patterns.is_ignored("lib/utils.py"));
}

#[test]
fn test_config_replaces_defaults() {
    let config = SurfacesConfig {
        ignore_patterns: vec!["**/*.test.js".to_string()],
        additional_ignore: vec![],
    };

    let patterns = IgnorePatterns::from_config(&config).unwrap();

    assert!(patterns.is_ignored("src/utils.test.js"));
    assert!(!patterns.is_ignored("node_modules/lodash/index.js"));
}

#[test]
fn test_config_extends_defaults() {
    let config = SurfacesConfig {
        ignore_patterns: vec![],
        additional_ignore: vec!["**/*.test.js".to_string(), "**/__tests__/**".to_string()],
    };

    let patterns = IgnorePatterns::from_config(&config).unwrap();

    assert!(patterns.is_ignored("node_modules/lodash/index.js"));
    assert!(patterns.is_ignored("src/utils.test.js"));
    assert!(patterns.is_ignored("src/__tests__/foo.js"));
}

#[test]
fn test_empty_config_uses_defaults() {
    let config = SurfacesConfig::default();
    let patterns = IgnorePatterns::from_config(&config).unwrap();

    assert!(patterns.is_ignored("node_modules/pkg/file.js"));
    assert!(!patterns.is_ignored("src/main.rs"));
}

#[test]
fn varint_uses_seven_bits_per_byte() {
    let mut out = Vec::new();
    encode_varint(300, &mut out);
    assert_eq!(out, vec![0xAC, 0x02]);
    assert_eq!(decode_varint(&out), (300, 2));
}

#[test]
fn file_ids_blob_is_the_varints_in_order() {
    let blob = encode_file_ids(&[5i64, 1, 200]);
    assert_eq!(blob, vec![5, 1, 0xC8, 0x01]);
}

#[test]
fn files_hash_is_blake3_of_little_endian_ids() {
    let hash = compute_files_hash(&[1i64]);
    let expected = blake3::hash(&1i64.to_le_bytes());
    assert_eq!(&hash, expected.as_bytes());
}

#[test]
fn file_set_sorts_ids_and_counts() {
    let fs = build_file_set(4, &[9i64, 3, 7]);
    assert_eq!(fs.file_ids, vec![3, 7, 9]);
    assert_eq!(fs.file_count_total, 4);
    assert_eq!(fs.file_count_included, 3);
    assert_eq!(fs.files_hash, compute_files_hash(&[3i64, 7, 9]));
}

#[test]
fn ignored_files_are_left_out() {
    let patterns = IgnorePatterns::defaults().unwrap();
    let files = vec!["src/main.rs".to_string(), "yarn.lock".to_string(), "lib/a.py".to_string()];
    let kept = included_files(&files, Some(&patterns));
    assert_eq!(kept, vec!["src/main.rs".to_string(), "lib/a.py".to_string()]);
    let all = included_files(&files, None);
    assert_eq!(all, files);
}

#[test]
fn invalid_glob_is_an_error() {
    let config = SurfacesConfig { ignore_patterns: vec!["a[".to_string()], additional_ignore: vec![] };
    assert!(IgnorePatterns::from_config(&config).is_err());
}

#[test]
fn file_set_does_not_depend_on_id_order() {
    let a = build_file_set(5, &[42i64, 7, 19, 7]);
    let b = build_file_set(5, &[7i64, 19, 7, 42]);
    assert_eq!(a.file_ids, vec![7, 7, 19, 42]);
    assert_eq!(a.file_ids, b.file_ids);
    assert_eq!(a.files_hash, b.files_hash);
    assert_eq!(a.file_count_included, 4);
}
