use bacon_ls::config::{
    forwards_logs, BaconPreferences, ConfigError, OptionValue, SessionConfig, BACON_ANALYZER, BACON_EXPORTER,
    LINE_FORMAT, LOCATIONS_FILE, PREFERENCES_ERROR,
};
use bacon_ls::line_format::Bacon;
use bacon_ls::sync::Backend;

fn prefs(analyzer: &str, line_format: &str) -> BaconPreferences {
    BaconPreferences {
        command: vec![],
        analyzer: analyzer.to_string(),
        need_stdout: true,
        auto: true,
        exporter: BACON_EXPORTER.to_string(),
        line_format: line_format.to_string(),
        path: LOCATIONS_FILE.to_string(),
    }
}

#[test]
fn test_valid_bacon_preferences() {
    assert!(Bacon::validate_preferences_config(&prefs(BACON_ANALYZER, LINE_FORMAT)).is_ok());
}

#[test]
fn test_invalid_analyzer() {
    assert!(Bacon::validate_preferences_config(&prefs("incorrect_analyzer", LINE_FORMAT)).is_err());
}

#[test]
fn test_invalid_line_format() {
    let r = Bacon::validate_preferences_config(&prefs(BACON_ANALYZER, "invalid_line_format"));
    assert_eq!(r, Err(PREFERENCES_ERROR.to_string()));
}

#[test]
fn default_preferences_fit() {
    let p = Bacon::default_preferences();
    assert!(Bacon::validate_preferences_config(&p).is_ok());
    assert_eq!(p.command[0], "cargo");
    assert_eq!(p.command.len(), 7);
}

#[test]
fn preference_file_created_only_when_none_exists() {
    let paths = Bacon::preference_paths("/a/prefs.toml\n/b/prefs.toml");
    assert_eq!(paths, vec!["/a/prefs.toml".to_string(), "/b/prefs.toml".to_string()]);
    assert_eq!(Bacon::preferences_file_to_create(&paths, &vec![false, false], true), Some("/a/prefs.toml".to_string()));
    assert_eq!(Bacon::preferences_file_to_create(&paths, &vec![false, true], true), None);
    assert_eq!(Bacon::preferences_file_to_create(&paths, &vec![false, false], false), None);
}

#[test]
fn defaults_and_options() {
    let mut c = SessionConfig::default();
    assert_eq!(c.locations_file, ".bacon-locations");
    assert_eq!(c.backend, Backend::Cargo);
    assert_eq!(c.apply_option("useCargoBackend", &OptionValue::Flag(false)), Ok(()));
    assert_eq!(c.backend, Backend::Bacon);
    assert_eq!(c.apply_option("locationsFile", &OptionValue::Flag(true)), Err(ConfigError::InvalidParams));
    assert_eq!(c.locations_file, ".bacon-locations");
    assert_eq!(c.apply_option("cargoEnv", &OptionValue::Text(" A=1 , B=2".to_string())), Ok(()));
    assert_eq!(c.cargo_env, vec!["A=1".to_string(), "B=2".to_string()]);
    assert_eq!(c.apply_option("updateOnSaveWaitMillis", &OptionValue::Number(250)), Ok(()));
    assert_eq!(c.update_on_save_wait_millis, 250);
    assert_eq!(c.apply_option("unknown", &OptionValue::Other), Ok(()));
    assert!(!c.finish_initialization());
    assert!(c.run_bacon_in_background);
}

#[test]
fn compiler_backend_settles_its_settings() {
    let mut c = SessionConfig::default();
    assert!(c.finish_initialization());
    assert!(!c.run_bacon_in_background);
    assert!(!c.validate_bacon_preferences);
    assert!(c.update_on_save);
    assert_eq!(c.update_on_save_wait_millis, 0);
}

#[test]
fn log_forwarding_is_off_only_when_set_off() {
    assert!(forwards_logs("on"));
    assert!(forwards_logs(""));
    assert!(!forwards_logs("off"));
}

#[test]
fn rebuild_on_change_waits_for_the_cooldown() {
    let mut c = SessionConfig::default();
    assert!(!c.keeps_build_copy());
    assert!(!c.rebuilds_on_change(10_000));
    c.update_on_change = true;
    assert!(c.keeps_build_copy());
    assert!(!c.rebuilds_on_change(4_999));
    assert!(c.rebuilds_on_change(5_000));
    c.backend = Backend::Bacon;
    assert!(!c.rebuilds_on_change(10_000));
}
