use regret::config_file::HotspotConfig;
use regret::hotspot::{detect_hotspot, find_top_surface, HotspotSignal};

fn default_config() -> HotspotConfig {
    HotspotConfig { min_events: 2, min_culprits: 2, min_confidence_bp: 0 }
}

#[test]
fn test_two_events_two_culprits_is_hotspot() {
    let signals = vec![
        HotspotSignal { culprit_sha: "aaa".to_string(), weight: 10, confidence_bp: 9500, file_paths: vec!["src/main.rs".to_string()] },
        HotspotSignal { culprit_sha: "bbb".to_string(), weight: 8, confidence_bp: 9000, file_paths: vec!["src/main.rs".to_string()] },
    ];

    let hotspot = detect_hotspot(&signals, &default_config());
    assert!(hotspot.is_some());
    let h = hotspot.unwrap();
    assert_eq!(h.path, "src/main.rs");
    assert_eq!(h.events, 2);
    assert_eq!(h.culprits, 2);
    assert_eq!(h.score, 18);
}

#[test]
fn test_two_events_one_culprit_not_hotspot() {
    let signals = vec![
        HotspotSignal { culprit_sha: "aaa".to_string(), weight: 10, confidence_bp: 9500, file_paths: vec!["src/main.rs".to_string()] },
        HotspotSignal { culprit_sha: "aaa".to_string(), weight: 8, confidence_bp: 9000, file_paths: vec!["src/main.rs".to_string()] },
    ];

    let hotspot = detect_hotspot(&signals, &default_config());
    assert!(hotspot.is_none());
}

#[test]
fn test_max_score_wins() {
    let signals = vec![
        HotspotSignal { culprit_sha: "aaa".to_string(), weight: 10, confidence_bp: 9500, file_paths: vec!["src/a.rs".to_string()] },
        HotspotSignal { culprit_sha: "bbb".to_string(), weight: 8, confidence_bp: 9000, file_paths: vec!["src/a.rs".to_string()] },
        HotspotSignal { culprit_sha: "ccc".to_string(), weight: 10, confidence_bp: 9500, file_paths: vec!["src/b.rs".to_string()] },
        HotspotSignal { culprit_sha: "ddd".to_string(), weight: 10, confidence_bp: 9000, file_paths: vec!["src/b.rs".to_string()] },
    ];

    let hotspot = detect_hotspot(&signals, &default_config());
    assert!(hotspot.is_some());
    let h = hotspot.unwrap();
    assert_eq!(h.path, "src/b.rs");
    assert_eq!(h.score, 20);
}

#[test]
fn test_score_tie_lexical_wins() {
    let signals = vec![
        HotspotSignal { culprit_sha: "aaa".to_string(), weight: 10, confidence_bp: 9500, file_paths: vec!["src/z.rs".to_string()] },
        HotspotSignal { culprit_sha: "bbb".to_string(), weight: 8, confidence_bp: 9000, file_paths: vec!["src/z.rs".to_string()] },
        HotspotSignal { culprit_sha: "ccc".to_string(), weight: 10, confidence_bp: 9500, file_paths: vec!["src/a.rs".to_string()] },
        HotspotSignal { culprit_sha: "ddd".to_string(), weight: 8, confidence_bp: 9000, file_paths: vec!["src/a.rs".to_string()] },
    ];

    let hotspot = detect_hotspot(&signals, &default_config());
    assert!(hotspot.is_some());
    let h = hotspot.unwrap();
    assert_eq!(h.path, "src/a.rs");
    assert_eq!(h.score, 18);
}

#[test]
fn test_confidence_filter() {
    let config = HotspotConfig { min_events: 2, min_culprits: 2, min_confidence_bp: 9000 };

    let signals = vec![
        HotspotSignal { culprit_sha: "aaa".to_string(), weight: 10, confidence_bp: 9500, file_paths: vec!["src/main.rs".to_string()] },
        HotspotSignal { culprit_sha: "bbb".to_string(), weight: 8, confidence_bp: 8500, file_paths: vec!["src/main.rs".to_string()] },
    ];

    let hotspot = detect_hotspot(&signals, &config);
    assert!(hotspot.is_none());
}

#[test]
fn test_multiple_files_per_signal() {
    let signals = vec![
        HotspotSignal { culprit_sha: "aaa".to_string(), weight: 10, confidence_bp: 9500, file_paths: vec!["src/main.rs".to_string(), "src/lib.rs".to_string()] },
        HotspotSignal { culprit_sha: "bbb".to_string(), weight: 8, confidence_bp: 9000, file_paths: vec!["src/main.rs".to_string()] },
    ];

    let hotspot = detect_hotspot(&signals, &default_config());
    assert!(hotspot.is_some());
    let h = hotspot.unwrap();
    assert_eq!(h.path, "src/main.rs");
    assert_eq!(h.events, 2);
    assert_eq!(h.culprits, 2);
}

#[test]
fn test_empty_signals() {
    let signals: Vec<HotspotSignal> = vec![];
    let hotspot = detect_hotspot(&signals, &default_config());
    assert!(hotspot.is_none());
}

#[test]
fn test_single_signal_not_hotspot() {
    let signals = vec![HotspotSignal { culprit_sha: "aaa".to_string(), weight: 10, confidence_bp: 9500, file_paths: vec!["src/main.rs".to_string()] }];

    let hotspot = detect_hotspot(&signals, &default_config());
    assert!(hotspot.is_none());
}

#[test]
fn test_top_surface_when_no_hotspot() {
    let signals = vec![HotspotSignal { culprit_sha: "aaa".to_string(), weight: 10, confidence_bp: 9500, file_paths: vec!["src/main.rs".to_string()] }];

    let hotspot = detect_hotspot(&signals, &default_config());
    assert!(hotspot.is_none());

    let surface = find_top_surface(&signals, 0);
    assert!(surface.is_some());
    let s = surface.unwrap();
    assert_eq!(s.path, "src/main.rs");
    assert_eq!(s.score, 10);
    assert_eq!(s.events, 1);
    assert_eq!(s.culprits, 1);
}

#[test]
fn test_top_surface_max_score() {
    let signals = vec![
        HotspotSignal { culprit_sha: "aaa".to_string(), weight: 10, confidence_bp: 9500, file_paths: vec!["src/a.rs".to_string()] },
        HotspotSignal { culprit_sha: "bbb".to_string(), weight: 20, confidence_bp: 9500, file_paths: vec!["src/b.rs".to_string()] },
    ];

    let surface = find_top_surface(&signals, 0);
    assert!(surface.is_some());
    let s = surface.unwrap();
    assert_eq!(s.path, "src/b.rs");
    assert_eq!(s.score, 20);
}

#[test]
fn test_top_surface_tie_lexical() {
    let signals = vec![
        HotspotSignal { culprit_sha: "aaa".to_string(), weight: 10, confidence_bp: 9500, file_paths: vec!["src/z.rs".to_string()] },
        HotspotSignal { culprit_sha: "bbb".to_string(), weight: 10, confidence_bp: 9500, file_paths: vec!["src/a.rs".to_string()] },
    ];

    let surface = find_top_surface(&signals, 0);
    assert!(surface.is_some());
    let s = surface.unwrap();
    assert_eq!(s.path, "src/a.rs");
}

#[test]
fn test_top_surface_empty_signals() {
    let signals: Vec<HotspotSignal> = vec![];
    let surface = find_top_surface(&signals, 0);
    assert!(surface.is_none());
}

#[test]
fn test_top_surface_confidence_filter() {
    let signals = vec![HotspotSignal { culprit_sha: "aaa".to_string(), weight: 10, confidence_bp: 8500, file_paths: vec!["src/main.rs".to_string()] }];

    let surface = find_top_surface(&signals, 9000);
    assert!(surface.is_none());

    let surface = find_top_surface(&signals, 8000);
    assert!(surface.is_some());
}

#[test]
fn repeated_path_in_one_signal_counts_twice() {
    let signals = vec![HotspotSignal { culprit_sha: "x".to_string(), weight: 3, confidence_bp: 9500, file_paths: vec!["p".to_string(), "p".to_string()] }];
    let s = find_top_surface(&signals, 0).unwrap();
    assert_eq!(s.events, 2);
    assert_eq!(s.score, 6);
    assert_eq!(s.culprits, 1);
}

#[test]
fn negative_weights_lower_the_score() {
    let signals = vec![
        HotspotSignal { culprit_sha: "x".to_string(), weight: -5, confidence_bp: 9500, file_paths: vec!["a".to_string()] },
        HotspotSignal { culprit_sha: "y".to_string(), weight: 1, confidence_bp: 9500, file_paths: vec!["b".to_string()] },
    ];
    let s = find_top_surface(&signals, 0).unwrap();
    assert_eq!(s.path, "b");
    assert_eq!(s.score, 1);
}

#[test]
fn thresholds_of_one_agree_with_top_surface() {
    let signals = vec![
        HotspotSignal { culprit_sha: "x".to_string(), weight: 4, confidence_bp: 9500, file_paths: vec!["m".to_string(), "n".to_string()] },
        HotspotSignal { culprit_sha: "y".to_string(), weight: 3, confidence_bp: 9500, file_paths: vec!["n".to_string()] },
    ];
    let config = HotspotConfig { min_events: 1, min_culprits: 1, min_confidence_bp: 0 };
    let h = detect_hotspot(&signals, &config).unwrap();
    let s = find_top_surface(&signals, 0).unwrap();
    assert_eq!(h.path, s.path);
    assert_eq!(h.score, s.score);
}
