use regret::layout::{
    cmdrvl_root_from_env, compute_repo_id, deprecation_record, legacy_items, migration_record,
    migration_step, non_empty_env, record_already_exists, record_matches, resolve_common_dir,
    resolve_for_repo, CommonDir, EnvValue, LegacyTarget, MigrationStep, RecordKey, RootSource,
};

fn text(s: &str) -> EnvValue {
    EnvValue::Text(s.to_string())
}

#[test]
fn env_values_that_count() {
    assert!(!non_empty_env(&EnvValue::Unset));
    assert!(!non_empty_env(&text("")));
    assert!(!non_empty_env(&text(" \t\n")));
    assert!(non_empty_env(&text("/home/me")));
    assert!(non_empty_env(&text(" /home/me ")));
    assert!(non_empty_env(&EnvValue::Opaque));
}

#[test]
fn root_prefers_home_then_user_profile() {
    assert_eq!(cmdrvl_root_from_env(&text("/home/me"), &text("C:\\Users\\me")), RootSource::Home);
    assert_eq!(cmdrvl_root_from_env(&text("  "), &text("C:\\Users\\me")), RootSource::UserProfile);
    assert_eq!(cmdrvl_root_from_env(&EnvValue::Unset, &EnvValue::Unset), RootSource::WorkingDir);
    assert_eq!(cmdrvl_root_from_env(&EnvValue::Opaque, &EnvValue::Unset), RootSource::Home);
}

#[test]
fn repo_id_is_blake3_hex_of_the_path() {
    let id = compute_repo_id("/work/repo/.git");
    assert_eq!(id, blake3::hash(b"/work/repo/.git").to_hex().to_string());
    assert_eq!(id.len(), 64);
    assert_ne!(id, compute_repo_id("/work/other/.git"));
}

#[test]
fn common_dir_from_commondir_file() {
    assert_eq!(resolve_common_dir(None), CommonDir::GitDir);
    assert_eq!(resolve_common_dir(Some("  \n")), CommonDir::GitDir);
    assert_eq!(resolve_common_dir(Some("../..\n")), CommonDir::Relative("../..".to_string()));
    assert_eq!(resolve_common_dir(Some("/srv/repo.git\n")), CommonDir::Absolute("/srv/repo.git".to_string()));
}

#[test]
fn layout_under_root_and_repo_id() {
    let l = resolve_for_repo("abc");
    assert_eq!(l.config_file, vec!["config", "regret", "repos", "abc", "config.toml"]);
    assert_eq!(l.cache_dir, vec!["cache", "regret", "repos", "abc"]);
    assert_eq!(l.state_dir, vec!["state", "regret", "repos", "abc"]);
    assert_eq!(l.lock_file, vec!["locks", "regret", "repos", "abc", "scan.lock"]);
    assert_eq!(l.commit_msg_hook, vec!["state", "regret", "repos", "abc", "hooks", "commit-msg"]);
    assert_eq!(l.migration_log, vec!["migrations", "applied.jsonl"]);
    assert_eq!(l.deprecation_notices, vec!["notices", "deprecated-paths.jsonl"]);
}

#[test]
fn legacy_items_in_order() {
    let items = legacy_items();
    let names: Vec<&str> = items.iter().map(|i| i.legacy_name.as_str()).collect();
    assert_eq!(
        names,
        vec![
            "config.toml",
            "cache.db",
            "cache.db-wal",
            "cache.db-shm",
            "commit-template.txt",
            "ADOPTION.md",
            "agent-snippets",
            "ci",
            "hooks"
        ]
    );
    assert_eq!(items[0].path_class, "regret_config");
    assert_eq!(items[0].target, LegacyTarget::ConfigFile);
    assert!(!items[5].is_dir);
    assert!(items[6].is_dir && items[7].is_dir && items[8].is_dir);
}

#[test]
fn migration_steps() {
    assert_eq!(migration_step(false, false, false, true), MigrationStep::Nothing);
    assert_eq!(migration_step(true, true, true, false), MigrationStep::Unsupported);
    assert_eq!(migration_step(true, false, false, false), MigrationStep::Unsupported);
    assert_eq!(migration_step(true, false, true, true), MigrationStep::CanonicalPresent);
    assert_eq!(migration_step(true, false, true, false), MigrationStep::Copy);
}

#[test]
fn records_and_their_matching() {
    let m = migration_record("regret_config", "/r/.regret/config.toml", "/h/c.toml", "copied_legacy_to_canonical");
    assert_eq!(m.version, "cmdrvl.migration.v1");
    assert_eq!(m.tool, "regret");
    assert_eq!(m.outcome, "ok");
    assert!(!m.secret_values_recorded);
    let d = deprecation_record("regret_ci", "/r/.regret/ci", "/h/ci", "legacy_path_present", "canonical_preferred");
    assert_eq!(d.version, "cmdrvl.deprecated_path_notice.v1");
    assert_eq!(d.outcome, "canonical_preferred");

    let key = |tool: &str, action: &str| RecordKey {
        tool: Some(tool.to_string()),
        path_class: Some("regret_config".to_string()),
        source_path: Some("/r/.regret/config.toml".to_string()),
        destination_path: Some("/h/c.toml".to_string()),
        action: Some(action.to_string()),
    };
    assert!(record_matches(&key("regret", "copied_legacy_to_canonical"), &m));
    assert!(!record_matches(&key("other", "copied_legacy_to_canonical"), &m));
    assert!(!record_matches(&key("regret", "legacy_path_present"), &m));
    let missing = RecordKey { tool: None, ..key("regret", "copied_legacy_to_canonical") };
    assert!(!record_matches(&missing, &m));

    assert!(!record_already_exists(&vec![], &m));
    assert!(record_already_exists(&vec![missing, key("regret", "copied_legacy_to_canonical")], &m));
}
