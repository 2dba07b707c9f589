use regret::config_file::{validate_config, validate_duration, ConfigError, FileConfig};

#[test]
fn test_default_config() {
    let config = FileConfig::default();
    assert_eq!(config.ranking.weights.revert, 10);
    assert_eq!(config.ranking.weights.linked_fix, 8);
    assert_eq!(config.hotspot.min_events, 2);
    assert_eq!(config.hotspot.min_confidence_bp, 0);
}

#[test]
fn defaults_are_valid() {
    assert!(validate_config(&FileConfig::default()).is_ok());
}

#[test]
fn confidence_above_one_is_refused() {
    let mut config = FileConfig::default();
    config.hotspot.min_confidence_bp = 15000;
    assert!(matches!(validate_config(&config), Err(ConfigError::InvalidConfidence(15000))));
}

#[test]
fn bad_duration_is_refused() {
    let mut config = FileConfig::default();
    config.scan.bootstrap_since = Some("invalid".to_string());
    match validate_config(&config) {
        Err(ConfigError::InvalidDuration { field, value }) => {
            assert_eq!(field, "scan.bootstrap_since");
            assert_eq!(value, "invalid");
        }
        other => panic!("unexpected {:?}", other),
    }
    assert!(validate_duration("2w", "x").is_ok());
}

#[test]
fn non_positive_weight_is_refused() {
    let mut config = FileConfig::default();
    config.ranking.weights.revert = -5;
    match validate_config(&config) {
        Err(ConfigError::NonPositiveWeight { field, value }) => {
            assert_eq!(field, "ranking.weights.revert");
            assert_eq!(value, -5);
        }
        other => panic!("unexpected {:?}", other),
    }
}
