use timeline::updater::{
    build_restart_args, ensure_portable_install_root, is_expected_health, normalize_health_addr, normalize_version,
    parse_apply_update_args, plan_release, resolve_stage_root, rollback_target, select_portable_asset,
    updater_command_args, ApplyArgsError, ApplyUpdateArgs, GithubAsset, GithubRelease, ReleaseError,
};
use timeline::paths::paths_equal;
use timeline::text::chars_of;

#[test]
fn normalizes_versions_with_optional_v_prefix() {
    assert_eq!(normalize_version("v1.2.3").unwrap(), "1.2.3");
    assert_eq!(normalize_version("1.2.3").unwrap(), "1.2.3");
}

#[test]
fn selects_portable_zip_asset() {
    let assets = vec![
        GithubAsset {
            name: "timeline-source.tar.gz".to_string(),
            browser_download_url: "https://example.com/source".to_string(),
        },
        GithubAsset {
            name: "timeline-portable-1.2.3.zip".to_string(),
            browser_download_url: "https://example.com/portable".to_string(),
        },
    ];

    assert_eq!(
        select_portable_asset(&assets).map(|asset| asset.name.as_str()),
        Some("timeline-portable-1.2.3.zip")
    );
}

#[test]
fn parses_apply_update_args() {
    let args = vec![
        "--install-root".to_string(),
        r"C:\Timeline".to_string(),
        "--target-version".to_string(),
        "0.3.1".to_string(),
        "--asset-url".to_string(),
        "https://example.com/a.zip".to_string(),
        "--asset-name".to_string(),
        "timeline-portable-0.3.1.zip".to_string(),
        "--parent-pid".to_string(),
        "12345".to_string(),
        "--listen-addr".to_string(),
        "127.0.0.1:46215".to_string(),
        "--restart-arg".to_string(),
        "--config".to_string(),
        "--restart-arg".to_string(),
        r"C:\Timeline\config\timeline.toml".to_string(),
    ];

    let parsed = parse_apply_update_args(&args).unwrap();
    assert!(paths_equal(&chars_of(&parsed.install_root), &chars_of(r"C:\Timeline")));
    assert_eq!(parsed.target_version, "0.3.1");
    assert_eq!(parsed.parent_pid, 12345);
    assert_eq!(parsed.restart_args, vec!["--config", r"C:\Timeline\config\timeline.toml"]);
}

#[test]
fn normalizes_health_addr_to_loopback() {
    assert_eq!(normalize_health_addr("0.0.0.0:46215"), "127.0.0.1:46215");
    assert_eq!(normalize_health_addr("127.0.0.1:46215"), "127.0.0.1:46215");
    assert_eq!(normalize_health_addr("[::]:46215"), "127.0.0.1:46215");
}

#[test]
fn health_addr_keeps_ipv6_hosts_bracketed_and_defaults_without_port() {
    assert_eq!(normalize_health_addr("[::1]:8080"), "[::1]:8080");
    assert_eq!(normalize_health_addr("  localhost:1234 "), "localhost:1234");
    assert_eq!(normalize_health_addr("no-port"), "127.0.0.1:46215");
    assert_eq!(normalize_health_addr(":46215"), "127.0.0.1:46215");
}

#[test]
fn update_args_report_each_problem() {
    let unknown = vec!["--bogus".to_string()];
    assert!(matches!(parse_apply_update_args(&unknown), Err(ApplyArgsError::UnknownArgument(a)) if a == "--bogus"));

    let dangling = vec!["--asset-url".to_string()];
    assert!(matches!(parse_apply_update_args(&dangling), Err(ApplyArgsError::MissingValue(a)) if a == "--asset-url"));

    let bad_pid = vec!["--parent-pid".to_string(), "-1".to_string()];
    assert!(matches!(parse_apply_update_args(&bad_pid), Err(ApplyArgsError::InvalidParentPid)));

    let missing = vec!["--install-root".to_string(), "C:\\T".to_string()];
    assert!(matches!(parse_apply_update_args(&missing), Err(ApplyArgsError::Missing("target-version"))));
}

#[test]
fn update_args_default_listen_address() {
    let args: Vec<String> = [
        "--install-root", "C:\\T", "--target-version", "1.0.0", "--asset-url", "u", "--asset-name", "n",
        "--parent-pid", "+7",
    ]
    .iter()
    .map(|s| s.to_string())
    .collect();
    let parsed = parse_apply_update_args(&args).unwrap();
    assert_eq!(parsed.listen_addr, "127.0.0.1:46215");
    assert_eq!(parsed.parent_pid, 7);
    assert!(parsed.restart_args.is_empty());
}

#[test]
fn updater_command_line_reads_back() {
    let args = ApplyUpdateArgs {
        install_root: r"C:\Timeline".to_string(),
        target_version: "2.0.0".to_string(),
        asset_url: "https://example.com/p.zip".to_string(),
        asset_name: "timeline-portable-2.0.0.zip".to_string(),
        parent_pid: 4242,
        listen_addr: "127.0.0.1:46215".to_string(),
        restart_args: vec!["--config".to_string(), r"C:\Timeline\config\timeline.toml".to_string()],
    };
    let command = updater_command_args(&args);
    assert_eq!(command[0], "--apply-update");
    assert_eq!(command[9], "--parent-pid");
    assert_eq!(command[10], "4242");
    let parsed = parse_apply_update_args(&command[1..].to_vec()).unwrap();
    assert_eq!(parsed.install_root, args.install_root);
    assert_eq!(parsed.target_version, args.target_version);
    assert_eq!(parsed.asset_url, args.asset_url);
    assert_eq!(parsed.asset_name, args.asset_name);
    assert_eq!(parsed.parent_pid, args.parent_pid);
    assert_eq!(parsed.listen_addr, args.listen_addr);
    assert_eq!(parsed.restart_args, args.restart_args);
}

#[test]
fn falls_back_to_any_portable_zip() {
    let assets = vec![
        GithubAsset { name: "notes.txt".to_string(), browser_download_url: "a".to_string() },
        GithubAsset { name: "app-portable-win64.zip".to_string(), browser_download_url: "b".to_string() },
        GithubAsset { name: "other.zip".to_string(), browser_download_url: "c".to_string() },
    ];
    assert_eq!(select_portable_asset(&assets).map(|a| a.browser_download_url.as_str()), Some("b"));
    let none = vec![GithubAsset { name: "other.zip".to_string(), browser_download_url: "c".to_string() }];
    assert!(select_portable_asset(&none).is_none());
}

#[test]
fn invalid_versions_are_rejected() {
    assert_eq!(normalize_version("latest"), Err(ReleaseError::InvalidVersion));
    assert_eq!(normalize_version(" V2.0.0-beta.1 ").unwrap(), "2.0.0-beta.1");
}

#[test]
fn release_plan_compares_versions() {
    let release = GithubRelease {
        tag_name: "v1.3.0".to_string(),
        name: None,
        html_url: "https://example.com/r".to_string(),
        published_at: None,
        assets: vec![GithubAsset {
            name: "timeline-portable-1.3.0.zip".to_string(),
            browser_download_url: "https://example.com/p".to_string(),
        }],
    };
    let plan = plan_release(&release, "1.2.9").unwrap();
    assert!(plan.has_update);
    assert_eq!(plan.latest_version, "1.3.0");
    let same = plan_release(&release, "1.3.0").unwrap();
    assert!(!same.has_update);
    let empty = GithubRelease { assets: Vec::new(), ..release };
    assert_eq!(plan_release(&empty, "1.0.0").err(), Some(ReleaseError::NoPortableAsset));
}

#[test]
fn restart_arguments_and_install_checks() {
    assert_eq!(build_restart_args(Some(r"C:\T\config\timeline.toml")), vec!["--config", r"C:\T\config\timeline.toml"]);
    assert!(build_restart_args(None).is_empty());
    assert!(ensure_portable_install_root(true, true).is_ok());
    assert!(ensure_portable_install_root(true, false).is_err());
    let single = vec![(r"C:\x\timeline".to_string(), true)];
    assert_eq!(resolve_stage_root(r"C:\x", &single), r"C:\x\timeline");
    let flat = vec![(r"C:\x\timeline.exe".to_string(), false)];
    assert_eq!(resolve_stage_root(r"C:\x", &flat), r"C:\x");
    assert!(is_expected_health(true, Some("timeline"), Some("1.0.0"), Some("1.0.0")));
    assert!(!is_expected_health(true, Some("timeline"), Some("0.9.0"), Some("1.0.0")));
    assert!(is_expected_health(true, Some("timeline"), Some("0.9.0"), None));
    assert!(!is_expected_health(false, Some("timeline"), Some("1.0.0"), None));
    assert_eq!(rollback_target(Some("1.0.0".to_string()), false), None);
    assert_eq!(rollback_target(Some("1.0.0".to_string()), true), Some("1.0.0".to_string()));
}

#[test]
fn update_args_keep_the_last_value_of_a_repeated_flag() {
    let args: Vec<String> = [
        "--install-root", "C:\\a", "--target-version", "1.0.0", "--asset-url", "u", "--asset-name", "n",
        "--parent-pid", "7", "--install-root", "C:\\b", "--restart-arg", "x", "--parent-pid", "9", "--restart-arg", "y",
    ]
    .iter()
    .map(|s| s.to_string())
    .collect();
    let parsed = parse_apply_update_args(&args).unwrap();
    assert_eq!(parsed.install_root, "C:\\b");
    assert_eq!(parsed.parent_pid, 9);
    assert_eq!(parsed.restart_args, vec!["x".to_string(), "y".to_string()]);
    assert_eq!(parsed.listen_addr, "127.0.0.1:46215");
}
