use std::path::PathBuf;

use lifemaint::config::{
    config_base_dir_from, config_dir_in, config_file_in, home_dir_from, resolve, Config,
    DataDirSource,
};
use lifemaint::Error;

fn cfg_path() -> PathBuf {
    PathBuf::from("/home/u/.config/life-maintenance/config.toml")
}

fn cfg_text() -> String {
    cfg_path().display().to_string()
}

#[test]
fn resolve_prefers_env() {
    let p = cfg_text();
    let (dir, src) = resolve(Some("/x"), Some("/y"), &p).unwrap();
    assert_eq!(PathBuf::from(dir), PathBuf::from("/x"));
    assert_eq!(src, DataDirSource::Env);
}

#[test]
fn resolve_ignores_empty_env() {
    let p = cfg_text();
    let (dir, src) = resolve(Some(""), Some("/y"), &p).unwrap();
    assert_eq!(PathBuf::from(dir), PathBuf::from("/y"));
    assert_eq!(src, DataDirSource::ConfigFile(p));
}

#[test]
fn resolve_falls_back_to_config() {
    let p = cfg_text();
    let (dir, src) = resolve(None, Some("/y"), &p).unwrap();
    assert_eq!(PathBuf::from(dir), PathBuf::from("/y"));
    assert_eq!(src, DataDirSource::ConfigFile(p));
}

#[test]
fn resolve_errors_when_nothing_set() {
    let p = cfg_text();
    assert!(resolve(None, None, &p).is_err());
}

#[test]
fn resolve_ignores_blank_configured() {
    let p = cfg_text();
    assert!(resolve(None, Some("  "), &p).is_err());
}

#[test]
fn resolve_error_names_both_remedies() {
    match resolve(Some(" \t"), Some(""), &cfg_text()) {
        Err(Error::DataFile(msg)) => {
            assert!(msg.contains("not configured"));
            assert!(msg.contains("LM_DATA_DIR"));
        }
        other => panic!("expected DataFile, got {other:?}"),
    }
}

#[test]
fn config_paths_have_expected_shape() {
    let base = "/base";
    assert_eq!(
        PathBuf::from(config_dir_in(base)),
        PathBuf::from("/base/life-maintenance")
    );
    assert_eq!(
        PathBuf::from(config_file_in(base)),
        PathBuf::from("/base/life-maintenance/config.toml")
    );
}

#[test]
fn home_and_base_dirs() {
    assert_eq!(home_dir_from(Some("/home/u")).unwrap(), "/home/u");
    assert!(home_dir_from(Some("")).is_err());
    assert!(home_dir_from(None).is_err());
    assert_eq!(config_base_dir_from(Some("/xdg"), Some("/home/u")).unwrap(), "/xdg");
    assert_eq!(
        PathBuf::from(config_base_dir_from(Some(""), Some("/home/u")).unwrap()),
        PathBuf::from("/home/u/.config")
    );
    assert!(config_base_dir_from(None, None).is_err());
}

#[test]
fn default_config_has_no_data_dir() {
    let config = Config::default();
    assert_eq!(config.data_dir, None);
}
