use timeline::agent_config;
use timeline::config::{
    discover_runtime_root, load_base_dir, resolve_config_path, runtime_root_markers, parent_candidates, resolve_path, runtime_root_from_config_path, web_ui_dist_candidates, AppConfig, ConfigError,
    DailyTimeWindow, TimeWindowError,
};
use timeline::paths::paths_equal;
use timeline::text::chars_of;

fn same_path(a: &str, b: &str) -> bool {
    paths_equal(&chars_of(a), &chars_of(b))
}

fn all_same(got: &[String], want: &[&str]) -> bool {
    got.len() == want.len() && got.iter().zip(want.iter()).all(|(g, w)| same_path(g, w))
}

#[test]
fn derives_runtime_root_from_config_directory_layout() {
    let config_path = r"C:\Timeline\config\timeline-agent.toml";
    assert!(same_path(&runtime_root_from_config_path(config_path), r"C:\Timeline"));
}

#[test]
fn falls_back_to_parent_for_nonstandard_config_path() {
    let config_path = r"C:\Timeline\timeline-agent.toml";
    assert!(same_path(&runtime_root_from_config_path(config_path), r"C:\Timeline"));
}

#[test]
fn resolves_relative_runtime_paths_against_runtime_root() {
    let mut config = agent_config::AppConfig::default_config();
    let root = r"C:\Timeline";

    config.resolve_relative_paths(root);

    assert!(same_path(&config.database_path, r"C:\Timeline\data\timeline.sqlite"));
    assert!(same_path(&config.lockfile_path, r"C:\Timeline\data\timeline-agent.lock"));
}

#[test]
fn keeps_absolute_runtime_paths_unchanged() {
    let path = r"D:\data\timeline.sqlite";
    assert!(same_path(&resolve_path(r"C:\Timeline", path), path));
}

#[test]
fn returns_parent_candidates_in_priority_order() {
    assert!(all_same(&parent_candidates(r"C:\Timeline\config"), &[r"C:\Timeline\config", r"C:\Timeline", r"C:\"]));
}

#[test]
fn config_resolves_relative_runtime_paths_against_runtime_root() {
    let mut config = AppConfig::default_config();
    let root = r"C:\Timeline";

    config.resolve_relative_paths(root);

    assert!(same_path(&config.database_path, r"C:\Timeline\data\timeline.sqlite"));
    assert!(same_path(&config.lockfile_path, r"C:\Timeline\data\timeline.lock"));
}

#[test]
fn config_keeps_absolute_runtime_paths_unchanged() {
    let path = r"D:\data\timeline.sqlite";
    assert!(same_path(&resolve_path(r"C:\Timeline", path), path));
}

#[test]
fn resolves_config_relative_paths_against_config_directory() {
    assert!(same_path(
        &resolve_path(r"C:\Timeline\config", r"..\data\timeline.sqlite"),
        r"C:\Timeline\config\..\data\timeline.sqlite"
    ));
}

#[test]
fn prefers_packaged_web_ui_before_working_directory() {
    let candidates = web_ui_dist_candidates(Some(r"C:\Users\me\repo"), Some(r"D:\Timeline\timeline.exe"));

    assert!(all_same(
        &candidates,
        &[
            r"D:\Timeline\web-ui\dist",
            r"D:\Timeline\dist",
            r"D:\web-ui\dist",
            r"D:\dist",
            r"C:\Users\me\repo\apps\web-ui\dist",
            r"C:\Users\me\repo\web-ui\dist",
            r"C:\Users\me\repo\dist",
        ]
    ));
}

#[test]
fn still_discovers_repo_dist_for_dev_binaries() {
    let candidates =
        web_ui_dist_candidates(Some(r"C:\Users\me\repo"), Some(r"C:\Users\me\repo\target\release\timeline.exe"));

    assert!(all_same(
        &candidates,
        &[
            r"C:\Users\me\repo\target\release\web-ui\dist",
            r"C:\Users\me\repo\target\release\dist",
            r"C:\Users\me\repo\target\web-ui\dist",
            r"C:\Users\me\repo\target\dist",
            r"C:\Users\me\repo\apps\web-ui\dist",
            r"C:\Users\me\repo\web-ui\dist",
            r"C:\Users\me\repo\dist",
        ]
    ));
}

#[test]
fn rejects_non_loopback_listen_addresses() {
    let mut config = AppConfig::default_config();
    config.listen_addr = "0.0.0.0:46215".to_string();

    assert!(config.validate().is_err());
}

#[test]
fn validates_health_reminder_time_windows() {
    let mut missing_end = AppConfig::default_config();
    missing_end.health_reminder_work_start = Some("09:00".to_string());
    assert!(missing_end.validate().is_err());

    let mut invalid_time = AppConfig::default_config();
    invalid_time.health_reminder_quiet_start = Some("25:00".to_string());
    invalid_time.health_reminder_quiet_end = Some("08:00".to_string());
    assert!(invalid_time.validate().is_err());

    let mut overnight = AppConfig::default_config();
    overnight.health_reminder_quiet_start = Some("22:00".to_string());
    overnight.health_reminder_quiet_end = Some("08:00".to_string());
    assert!(overnight.validate().is_ok());
}

#[test]
fn default_config_is_valid_and_loopback() {
    let config = AppConfig::default_config();
    assert_eq!(config.listen_addr, "127.0.0.1:46215");
    assert_eq!(config.idle_threshold_secs, 300);
    assert_eq!(config.health_reminder_threshold_secs, 3000);
    assert!(config.validate().is_ok());
}

#[test]
fn validation_errors_name_the_failing_check() {
    let mut config = AppConfig::default_config();
    config.listen_addr = "not an address".to_string();
    assert_eq!(config.validate(), Err(ConfigError::InvalidListenAddr));
    config.listen_addr = "192.168.1.5:46215".to_string();
    assert_eq!(config.validate(), Err(ConfigError::NonLoopbackListenAddr));
    config.listen_addr = "[::1]:46215".to_string();
    config.health_reminder_work_start = Some("09:00".to_string());
    config.health_reminder_work_end = Some("09:00".to_string());
    assert_eq!(config.validate(), Err(ConfigError::WorkHours(TimeWindowError::SameBounds)));
    config.health_reminder_work_end = Some("9 pm".to_string());
    assert_eq!(config.validate(), Err(ConfigError::WorkHours(TimeWindowError::InvalidEnd)));
}

#[test]
fn overnight_window_wraps_past_midnight() {
    let window = DailyTimeWindow::from_optional_strings(Some("22:00"), Some("08:00")).unwrap().unwrap();
    assert_eq!(window, DailyTimeWindow { start: 22 * 3600, end: 8 * 3600 });
    assert!(window.contains(23 * 3600));
    assert!(window.contains(7 * 3600 + 59 * 60));
    assert!(!window.contains(8 * 3600));
    assert!(!window.contains(12 * 3600));
    assert_eq!(DailyTimeWindow::from_optional_strings(Some("  "), None), Ok(None));
}

#[test]
fn effective_web_ui_url_replaces_default_and_legacy_addresses() {
    let mut config = AppConfig::default_config();
    config.listen_addr = "0.0.0.0:5000".to_string();
    assert_eq!(config.effective_web_ui_url(), "http://127.0.0.1:5000/#/stats");
    config.web_ui_url = "http://127.0.0.1:4173/#/stats".to_string();
    assert_eq!(config.effective_web_ui_url(), "http://127.0.0.1:5000/#/stats");
    config.web_ui_url = "   ".to_string();
    config.listen_addr = "[::1]:7000".to_string();
    assert_eq!(config.effective_web_ui_url(), "http://[::1]:7000/#/stats");
    config.web_ui_url = "http://example.test/ui".to_string();
    assert_eq!(config.effective_web_ui_url(), "http://example.test/ui");
}

#[test]
fn settling_the_web_ui_url_uses_the_file_text() {
    let mut config = AppConfig::default_config();
    config.listen_addr = "127.0.0.1:9000".to_string();
    config.web_ui_url = "http://custom/".to_string();
    config.settle_web_ui_url("web_ui_url = \"http://custom/\"");
    assert_eq!(config.web_ui_url, "http://custom/");
    config.settle_web_ui_url("listen_addr = \"127.0.0.1:9000\"");
    assert_eq!(config.web_ui_url, "http://127.0.0.1:9000/#/stats");
}

#[test]
fn ensure_parent_dirs_lists_both_parents() {
    let mut config = AppConfig::default_config();
    config.resolve_relative_paths(r"C:\Timeline");
    let dirs = config.ensure_parent_dirs();
    assert!(all_same(&dirs, &[r"C:\Timeline\data", r"C:\Timeline\data"]));
}

#[test]
fn persisted_copy_keeps_paths_as_written() {
    let mut config = AppConfig::default_config();
    config.resolve_relative_paths(r"C:\Timeline");
    let saved = config.persisted_copy();
    assert_eq!(saved.database_path, "data/timeline.sqlite");
    assert_eq!(saved.lockfile_path, "data/timeline.lock");
}

#[test]
fn agent_defaults_differ_from_backend() {
    let config = agent_config::AppConfig::default_config();
    assert_eq!(config.lockfile_path, "data/timeline-agent.lock");
    assert!(config.debug);
    assert!(config.record_page_titles);
    assert_eq!(config.effective_web_ui_url(), "http://127.0.0.1:46215/#/stats");
}

#[test]
fn agent_config_path_defaults_under_runtime_root() {
    let path = agent_config::resolve_config_path(None, r"C:\work", r"C:\Timeline");
    assert!(same_path(&path, r"C:\Timeline\config\timeline-agent.toml"));
    let explicit = agent_config::resolve_config_path(Some(r"custom.toml"), r"C:\work", r"C:\Timeline");
    assert!(same_path(&explicit, r"C:\work\custom.toml"));
}

#[test]
fn runtime_root_discovery_prefers_install_root_then_marked_candidates() {
    let exe = vec![(r"C:\T\bin".to_string(), false), (r"C:\T".to_string(), true)];
    let cwd = vec![(r"D:\work".to_string(), true)];
    assert_eq!(discover_runtime_root(Some(r"E:\I".to_string()), &exe, &cwd, r"D:\work".to_string()), r"E:\I");
    assert_eq!(discover_runtime_root(None, &exe, &cwd, r"D:\work".to_string()), r"C:\T");
    let unmarked = vec![(r"C:\T\bin".to_string(), false)];
    assert_eq!(discover_runtime_root(None, &unmarked, &cwd, r"D:\work".to_string()), r"C:\T\bin");
    assert_eq!(discover_runtime_root(None, &Vec::new(), &cwd, r"D:\cwd".to_string()), r"D:\work");
    assert_eq!(discover_runtime_root(None, &Vec::new(), &Vec::new(), r"D:\cwd".to_string()), r"D:\cwd");
}

#[test]
fn config_path_prefers_primary_then_legacy_file() {
    assert!(same_path(&resolve_config_path(None, r"C:\w", r"C:\T", false, false), r"C:\T\config\timeline.toml"));
    assert!(same_path(&resolve_config_path(None, r"C:\w", r"C:\T", false, true), r"C:\T\config\timeline-agent.toml"));
    assert!(same_path(&resolve_config_path(None, r"C:\w", r"C:\T", true, true), r"C:\T\config\timeline.toml"));
    assert!(same_path(&resolve_config_path(Some(r"D:\x.toml"), r"C:\w", r"C:\T", false, false), r"D:\x.toml"));
    assert!(same_path(&load_base_dir(r"C:\T\config\timeline.toml", r"C:\T", true, false), r"C:\T\config"));
    assert_eq!(load_base_dir(r"C:\T\config\timeline.toml", r"C:\T", false, false), r"C:\T");
    let (files, dirs) = runtime_root_markers(r"C:\T");
    assert_eq!(files.len(), 4);
    assert!(same_path(&files[2], r"C:\T\Cargo.toml"));
    assert!(same_path(&dirs[0], r"C:\T\apps\web-ui"));
}
