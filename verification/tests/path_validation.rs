use regret::path_validation::{
    is_absolute_path, truncated_marker_bytes, validate_path, PathCache, PathValidationError,
    MAX_PATH_LENGTH,
};

#[test]
fn test_valid_paths() {
    assert_eq!(validate_path(b"src/main.rs").unwrap(), b"src/main.rs");
    assert_eq!(validate_path(b"README.md").unwrap(), b"README.md");
    assert_eq!(validate_path(b"").unwrap(), b"");
    assert_eq!(validate_path(b"a").unwrap(), b"a");
}

#[test]
fn test_windows_separator_normalization() {
    assert_eq!(validate_path(b"windows\\path.rs").unwrap(), b"windows/path.rs");
    assert_eq!(validate_path(b"mixed/path\\test.rs").unwrap(), b"mixed/path/test.rs");
}

#[test]
fn test_parent_segment_rejection() {
    assert_eq!(validate_path(b"../escape.rs"), Err(PathValidationError::ContainsParentSegment));
    assert_eq!(validate_path(b"src/../escape.rs"), Err(PathValidationError::ContainsParentSegment));
    assert_eq!(validate_path(b"src/.."), Err(PathValidationError::ContainsParentSegment));
}

#[test]
fn test_absolute_path_rejection() {
    assert_eq!(validate_path(b"/absolute/path.rs"), Err(PathValidationError::IsAbsolute));
    assert_eq!(validate_path(b"\\windows\\absolute.rs"), Err(PathValidationError::IsAbsolute));
    assert_eq!(validate_path(b"C:\\drive\\path.rs"), Err(PathValidationError::IsAbsolute));
    assert_eq!(validate_path(b"C:/drive/path.rs"), Err(PathValidationError::IsAbsolute));
}

#[test]
fn test_nul_byte_rejection() {
    assert_eq!(validate_path(b"path\x00null.rs"), Err(PathValidationError::ContainsNulByte));
    assert_eq!(validate_path(b"\x00start.rs"), Err(PathValidationError::ContainsNulByte));
}

#[test]
fn test_path_truncation() {
    let long_path = vec![b'a'; 5000];
    let result = validate_path(&long_path).unwrap();
    let marker = truncated_marker_bytes();

    assert!(result.len() <= MAX_PATH_LENGTH);
    assert!(result.ends_with(&marker));

    let expected_content_len = MAX_PATH_LENGTH - marker.len();
    assert_eq!(&result[..expected_content_len], &vec![b'a'; expected_content_len][..]);
}

#[test]
fn test_path_cache() {
    let mut cache = PathCache::new();

    let path1 = b"src/main.rs".to_vec();
    let path2 = b"src/lib.rs".to_vec();

    let id1_first = cache.get_or_insert(path1.clone());
    let id1_second = cache.get_or_insert(path1);
    let id2 = cache.get_or_insert(path2);

    assert_eq!(id1_first, id1_second);
    assert_ne!(id1_first, id2);
}

#[test]
fn test_edge_cases() {
    assert_eq!(validate_path(b".").unwrap(), b".");
    assert_eq!(validate_path(b"./test").unwrap(), b"./test");
    assert_eq!(validate_path(b"...").unwrap(), b"...");
    assert_eq!(validate_path(b"/").unwrap_err(), PathValidationError::IsAbsolute);
    assert_eq!(validate_path(b"a//b").unwrap(), b"a/b");
    assert_eq!(validate_path(b"a\\\\b").unwrap(), b"a/b");
}

#[test]
fn path_cache_ids_count_up_from_one() {
    let mut cache = PathCache::new();
    assert_eq!(cache.get_or_insert(b"a".to_vec()), 1);
    assert_eq!(cache.get_or_insert(b"b".to_vec()), 2);
    assert_eq!(cache.get_or_insert(b"a".to_vec()), 1);
    assert!(cache.can_insert());
}

#[test]
fn drive_letter_is_absolute() {
    assert!(is_absolute_path(b"C:\\x"));
    assert!(is_absolute_path(b"C:x"));
    assert!(!is_absolute_path(b"1:x"));
    assert!(!is_absolute_path(b"src/a"));
}

#[test]
fn error_messages() {
    assert_eq!(PathValidationError::ContainsParentSegment.message(), "path contains .. segment");
    assert_eq!(PathValidationError::IsAbsolute.message(), "path is absolute");
    assert_eq!(PathValidationError::ContainsNulByte.message(), "path contains NUL byte");
}

#[test]
fn validated_path_is_a_fixed_point() {
    let once = validate_path(b"a\\b//c").unwrap();
    let twice = validate_path(&once).unwrap();
    assert_eq!(once, twice);
}

#[test]
fn long_path_with_separators_is_capped() {
    let mut p = vec![b'a'; 5000];
    p.extend_from_slice(b"/b");
    let result = validate_path(&p).unwrap();
    assert_eq!(result.len(), MAX_PATH_LENGTH);
    assert!(result.ends_with(&truncated_marker_bytes()));
}

#[test]
fn checks_hold_past_the_cut() {
    let mut p = vec![b'a'; 4096];
    p.extend_from_slice(b"/../x");
    assert_eq!(validate_path(&p).unwrap_err(), PathValidationError::ContainsParentSegment);
    let mut q = vec![b'a'; 4096];
    q.extend_from_slice(b"/x\0y");
    assert_eq!(validate_path(&q).unwrap_err(), PathValidationError::ContainsNulByte);
}
