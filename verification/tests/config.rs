use cargo_sane::model::config::{default_true, Config, SAMPLE};

#[test]
fn test_default_config() {
    let config = Config::default();
    assert!(!config.auto_update_patch);
    assert!(!config.auto_update_minor);
    assert!(config.ignore_crates.is_empty());
    assert!(!config.verbose);
    assert!(config.create_backups);
    assert!(config.check_security);
}

#[test]
fn test_should_ignore() {
    let mut config = Config::default();
    config.ignore_crates = vec!["test-crate".to_string()];

    assert!(config.should_ignore("test-crate"));
    assert!(!config.should_ignore("other-crate"));
}

#[test]
fn test_config_default_values() {
    let config = Config::default();

    assert!(!config.auto_update_patch);
    assert!(!config.auto_update_minor);
    assert!(config.ignore_crates.is_empty());
    assert!(!config.verbose);
    assert!(config.create_backups);
    assert!(config.check_security);
}

#[test]
fn test_config_should_ignore() {
    let mut config = Config::default();
    config.ignore_crates = vec!["ignored-crate".to_string(), "another".to_string()];

    assert!(config.should_ignore("ignored-crate"));
    assert!(config.should_ignore("another"));
    assert!(!config.should_ignore("not-ignored"));
}

#[test]
fn test_config_sample_generation() {
    let sample = Config::sample();

    assert!(sample.contains("auto_update_patch"));
    assert!(sample.contains("auto_update_minor"));
    assert!(sample.contains("ignore_crates"));
    assert!(sample.contains("verbose"));
    assert!(sample.contains("create_backups"));
    assert!(sample.contains("check_security"));
}

#[test]
fn sample_is_the_fixed_text() {
    assert_eq!(Config::sample(), SAMPLE);
    assert!(Config::sample().starts_with("# cargo-sane configuration file\n"));
    assert!(Config::sample().ends_with("check_security = true\n"));
    assert!(default_true());
}

#[test]
fn ignoring_compares_whole_names() {
    let mut config = Config::default();
    config.ignore_crates = vec!["serde".to_string()];
    assert!(!config.should_ignore("serde_json"));
    assert!(!config.should_ignore("serd"));
    assert!(!config.should_ignore(""));
}
