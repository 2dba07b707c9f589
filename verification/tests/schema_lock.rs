use regret::output::NdjsonMeta;

const EXPECTED_NDJSON_META_FIELDS: &[&str] = &[
    "type",
    "schema_version",
    "tool_version",
    "repo_id",
    "repo_basename",
    "selected_branch",
    "window_since_utc",
    "window_until_utc",
    "window_until_source",
    "coverage_since_utc",
    "coverage_valid",
    "cache_valid",
];

const EXPECTED_NDJSON_STAT_FIELDS: &[&str] = &["type", "name", "value"];

const EXPECTED_NDJSON_RANK_FIELDS: &[&str] =
    &["type", "culprit_sha", "score", "events", "ttr_p50_h", "culprit_time_utc"];

const EXPECTED_NDJSON_EVIDENCE_FIELDS: &[&str] = &[
    "type",
    "culprit_sha",
    "evidence_sha",
    "signal_type",
    "confidence",
    "confidence_reason",
    "time_to_regret_hours",
];

#[test]
fn ndjson_meta_fields_documented() {
    for field in EXPECTED_NDJSON_META_FIELDS {
        assert!(!field.is_empty(), "Field name should not be empty");
    }
}

#[test]
fn ndjson_stat_fields_documented() {
    for field in EXPECTED_NDJSON_STAT_FIELDS {
        assert!(!field.is_empty(), "Field name should not be empty");
    }
}

#[test]
fn ndjson_rank_fields_documented() {
    for field in EXPECTED_NDJSON_RANK_FIELDS {
        assert!(!field.is_empty(), "Field name should not be empty");
    }
}

#[test]
fn ndjson_evidence_fields_documented() {
    for field in EXPECTED_NDJSON_EVIDENCE_FIELDS {
        assert!(!field.is_empty(), "Field name should not be empty");
    }
}

#[test]
fn meta_record_has_one_field_per_documented_name() {
    let meta = NdjsonMeta {
        record_type: "meta".to_string(),
        schema_version: 1,
        tool_version: String::new(),
        repo_id: String::new(),
        repo_basename: String::new(),
        selected_branch: String::new(),
        window_since_utc: None,
        window_until_utc: String::new(),
        window_until_source: String::new(),
        coverage_since_utc: None,
        coverage_valid: false,
        cache_valid: false,
    };
    assert_eq!(meta.record_type, "meta");
    assert_eq!(EXPECTED_NDJSON_META_FIELDS.len(), 12);
}
