use timeline::api::{
    apply_agent_config_update, export_disposition, extract_host, has_extension_header, is_allowed_browser_origin,
    is_allowed_loopback_origin, is_valid_hostname, monitor_status, normalize_browser_observed_at,
    normalize_browser_payload, parse_export_format, parse_or_current_month, parse_or_today, parse_trend_period,
    pause_deadline, sanitize_list, validate_agent_config_payload, validate_browser_event_payload,
    validate_delete_request, validate_export_range, validate_ignored_list, validate_retention_days, ApiError,
    DeleteScope, ExportFormat, IgnoredList, MonthProblem, ReminderWindow, TrendPeriod, UpdateAgentConfigRequest,
    EXTENSION_HEADER, EXTENSION_HEADER_VALUE,
};
use timeline::config::{AppConfig, TimeWindowError};
use timeline::model::BrowserEventPayload;
use timeline::state::MonitorProbe;

#[test]
fn allows_loopback_http_origins() {
    assert!(is_allowed_loopback_origin("http://127.0.0.1:4173"));
    assert!(is_allowed_loopback_origin("http://localhost:46215"));
    assert!(is_allowed_loopback_origin("http://[::1]:5173"));
}

#[test]
fn rejects_non_loopback_origins() {
    assert!(!is_allowed_loopback_origin("https://example.com"));
    assert!(!is_allowed_loopback_origin("chrome-extension://abc123"));
}

#[test]
fn allows_chrome_extension_origin_with_extension_header() {
    assert_eq!(EXTENSION_HEADER, "x-timeline-extension");
    assert!(is_allowed_browser_origin("chrome-extension://abc123", Some(EXTENSION_HEADER_VALUE)));
}

#[test]
fn rejects_chrome_extension_origin_without_extension_header() {
    assert!(!is_allowed_browser_origin("chrome-extension://abc123", None));
}

#[test]
fn recognizes_required_extension_header() {
    assert!(has_extension_header(Some(EXTENSION_HEADER_VALUE)));

    assert!(!has_extension_header(Some("wrong")));
}

#[test]
fn validates_browser_hostnames_and_payload_bounds() {
    assert!(is_valid_hostname("docs.rs"));
    assert!(is_valid_hostname("127.0.0.1"));
    assert!(!is_valid_hostname("bad host.example"));
    assert!(!is_valid_hostname("-bad.example"));

    let payload = BrowserEventPayload {
        domain: "docs.rs".to_string(),
        page_title: Some("SQLx".to_string()),
        browser_window_id: 1,
        tab_id: 2,
        observed_at: None,
    };
    assert!(validate_browser_event_payload(&payload).is_ok());

    let invalid = BrowserEventPayload { tab_id: 0, ..payload };
    assert!(validate_browser_event_payload(&invalid).is_err());
}

#[test]
fn clamps_browser_timestamps_outside_clock_skew_window() {
    let received_at: i64 = 1_700_000_000;
    assert_eq!(normalize_browser_observed_at(Some(received_at - 180), received_at), received_at);
    assert_eq!(normalize_browser_observed_at(Some(received_at - 30), received_at), received_at - 30);
}

#[test]
fn monitor_status_distinguishes_degraded_recovering_and_offline() {
    let now: i64 = 1_700_000_000;
    let freshness: i64 = 4;
    let mut probe = MonitorProbe::new();
    probe.last_seen = Some(now);
    probe.consecutive_failures = 1;
    assert_eq!(monitor_status("focus", "前台", &probe, freshness, now, "detail").status, "degraded");

    probe.recovering = true;
    assert_eq!(monitor_status("focus", "前台", &probe, freshness, now, "detail").status, "recovering");

    probe.recovering = false;
    probe.consecutive_failures = 3;
    assert_eq!(monitor_status("focus", "前台", &probe, freshness, now, "detail").status, "offline");
}

#[test]
fn monitor_status_is_online_while_fresh() {
    let mut probe = MonitorProbe::new();
    assert_eq!(monitor_status("k", "l", &probe, 4, 100, "d").status, "recovering");
    probe.mark_success(96);
    assert_eq!(monitor_status("k", "l", &probe, 4, 100, "d").status, "online");
    assert_eq!(monitor_status("k", "l", &probe, 4, 101, "d").status, "offline");
    probe.mark_failure("boom");
    let status = monitor_status("k", "l", &probe, 4, 100, "d");
    assert_eq!(status.status, "degraded");
    assert_eq!(status.last_error.as_deref(), Some("boom"));
}

#[test]
fn browser_payload_problems_in_order() {
    let base = BrowserEventPayload {
        domain: "example.com".to_string(),
        page_title: None,
        browser_window_id: 1,
        tab_id: 1,
        observed_at: None,
    };
    let empty = BrowserEventPayload { domain: String::new(), ..base.clone() };
    assert_eq!(validate_browser_event_payload(&empty), Err(ApiError::InvalidBrowserDomain));
    let long_title = BrowserEventPayload { page_title: Some("x".repeat(513)), ..base.clone() };
    assert_eq!(validate_browser_event_payload(&long_title), Err(ApiError::BrowserTitleTooLong));
    let ok_title = BrowserEventPayload { page_title: Some("é".repeat(512)), ..base.clone() };
    assert!(validate_browser_event_payload(&ok_title).is_ok());
    let long_domain = BrowserEventPayload { domain: "a.".repeat(127), ..base.clone() };
    assert_eq!(validate_browser_event_payload(&long_domain), Err(ApiError::InvalidBrowserDomain));
    assert!(is_valid_hostname("::1"));
    assert!(!is_valid_hostname("a..b"));
    assert!(!is_valid_hostname(&"a".repeat(64)));
}

#[test]
fn browser_payload_is_normalized() {
    let payload = BrowserEventPayload {
        domain: "  Docs.RS.. ".to_string(),
        page_title: Some("  Title  ".to_string()),
        browser_window_id: 3,
        tab_id: 4,
        observed_at: Some(5),
    };
    let normalized = normalize_browser_payload(payload);
    assert_eq!(normalized.domain, "docs.rs");
    assert_eq!(normalized.page_title.as_deref(), Some("Title"));
    assert_eq!(normalized.observed_at, Some(5));
}

#[test]
fn extracts_hosts_from_authorities() {
    assert_eq!(extract_host("[::1]:5173").as_deref(), Some("::1"));
    assert_eq!(extract_host("127.0.0.1:46215").as_deref(), Some("127.0.0.1"));
    assert_eq!(extract_host("localhost").as_deref(), Some("localhost"));
    assert_eq!(extract_host("[::1"), None);
    assert!(!is_allowed_loopback_origin("ftp://127.0.0.1"));
    assert!(is_allowed_loopback_origin("https://localhost/path"));
}

#[test]
fn sanitizes_ignore_lists() {
    let items = vec![
        " Code.exe ".to_string(),
        "".to_string(),
        "chrome.exe".to_string(),
        "code.EXE".to_string(),
        "   ".to_string(),
        "Alpha.exe".to_string(),
    ];
    assert_eq!(sanitize_list(items), vec!["Alpha.exe", "chrome.exe", "Code.exe"]);
}

#[test]
fn ignore_list_limits() {
    let many: Vec<String> = (0..257).map(|i| format!("app{i}.exe")).collect();
    assert_eq!(validate_ignored_list(IgnoredList::Apps, &many), Err(ApiError::TooManyIgnoredItems(IgnoredList::Apps)));
    let long = vec![format!("  {}  ", "d".repeat(254))];
    assert_eq!(
        validate_ignored_list(IgnoredList::Domains, &long),
        Err(ApiError::IgnoredItemTooLong(IgnoredList::Domains))
    );
    assert!(validate_ignored_list(IgnoredList::Domains, &vec![format!("  {}  ", "d".repeat(253))]).is_ok());
    assert_eq!(
        ApiError::TooManyIgnoredItems(IgnoredList::Apps).message(),
        "ignored_apps must contain at most 256 items"
    );
}

fn update_request() -> UpdateAgentConfigRequest {
    UpdateAgentConfigRequest {
        idle_threshold_secs: 300,
        poll_interval_millis: 1000,
        health_reminder_enabled: true,
        health_reminder_threshold_secs: 3000,
        health_reminder_work_start: None,
        health_reminder_work_end: None,
        health_reminder_quiet_start: Some(" 22:00 ".to_string()),
        health_reminder_quiet_end: Some("08:00".to_string()),
        record_window_titles: false,
        record_page_titles: true,
        ignored_apps: vec!["b.exe".to_string(), "A.exe".to_string()],
        ignored_domains: vec![],
    }
}

#[test]
fn validates_agent_settings_updates() {
    assert!(validate_agent_config_payload(&update_request()).is_ok());
    let mut r = update_request();
    r.idle_threshold_secs = 14;
    assert_eq!(validate_agent_config_payload(&r), Err(ApiError::InvalidIdleThreshold));
    let mut r = update_request();
    r.poll_interval_millis = 5001;
    assert_eq!(validate_agent_config_payload(&r), Err(ApiError::InvalidPollInterval));
    let mut r = update_request();
    r.health_reminder_threshold_secs = 299;
    assert_eq!(validate_agent_config_payload(&r), Err(ApiError::InvalidHealthReminderThreshold));
    let mut r = update_request();
    r.health_reminder_work_start = Some("09:00".to_string());
    let err = validate_agent_config_payload(&r).unwrap_err();
    assert_eq!(err, ApiError::InvalidHealthReminderTimeWindow(ReminderWindow::WorkHours, TimeWindowError::MissingBound));
    assert_eq!(err.code(), "invalid_health_reminder_time_window");
    assert_eq!(err.message(), "health_reminder_work_hours must provide both start and end times");
}

#[test]
fn applies_agent_settings_updates() {
    let mut config = AppConfig::default_config();
    config.health_reminder_work_start = Some("09:00".to_string());
    config.health_reminder_work_end = Some("18:00".to_string());
    apply_agent_config_update(&mut config, update_request());
    assert_eq!(config.health_reminder_work_start.as_deref(), Some("09:00"));
    assert_eq!(config.health_reminder_quiet_start.as_deref(), Some("22:00"));
    assert_eq!(config.health_reminder_quiet_end.as_deref(), Some("08:00"));
    assert!(!config.record_window_titles);
    assert_eq!(config.ignored_apps, vec!["A.exe", "b.exe"]);
}

#[test]
fn parses_query_parameters() {
    assert_eq!(parse_trend_period(None), Ok(TrendPeriod::Week));
    assert_eq!(parse_trend_period(Some("month")), Ok(TrendPeriod::Month));
    assert_eq!(parse_trend_period(Some("year")), Err(ApiError::InvalidPeriod));
    assert_eq!(parse_or_current_month(Some("2026-03"), (2000, 1)), Ok((2026, 3)));
    assert_eq!(parse_or_current_month(None, (2000, 1)), Ok((2000, 1)));
    assert_eq!(parse_or_current_month(Some("2026"), (2000, 1)), Err(ApiError::InvalidMonth(MonthProblem::Shape)));
    assert_eq!(parse_or_current_month(Some("20x6-03"), (2000, 1)), Err(ApiError::InvalidMonth(MonthProblem::Year)));
    assert_eq!(parse_or_current_month(Some("2026-3x"), (2000, 1)), Err(ApiError::InvalidMonth(MonthProblem::Month)));
    assert_eq!(parse_or_current_month(Some("2026-13"), (2000, 1)), Err(ApiError::InvalidMonth(MonthProblem::Range)));
    assert_eq!(parse_or_today(None, 2_461_000), Ok(2_461_000));
    assert_eq!(parse_or_today(Some("2000-01-01"), 0), Ok(2_451_545));
    assert_eq!(parse_or_today(Some("2000-13-01"), 0), Err(ApiError::InvalidDate));
}

#[test]
fn pause_requests() {
    let now: i64 = 1_700_000_000;
    assert_eq!(pause_deadline(Some(60), Some(now + 5), now), Err(ApiError::ConflictingPauseDeadline));
    assert_eq!(pause_deadline(Some(0), None, now), Err(ApiError::InvalidPauseDuration));
    assert_eq!(pause_deadline(Some(60), None, now), Ok(Some(now + 60)));
    assert_eq!(pause_deadline(Some(u64::MAX), None, now), Ok(Some(now + 2_592_000)));
    assert_eq!(pause_deadline(None, Some(now), now), Err(ApiError::InvalidPauseDeadline));
    assert_eq!(pause_deadline(None, Some(now + 1), now), Ok(Some(now + 1)));
    assert_eq!(pause_deadline(None, None, now), Ok(None));
}

#[test]
fn data_management_requests() {
    assert!(validate_retention_days(None).is_ok());
    assert!(validate_retention_days(Some(30)).is_ok());
    assert_eq!(validate_retention_days(Some(29)), Err(ApiError::InvalidRetentionDays));
    assert_eq!(validate_retention_days(Some(3651)), Err(ApiError::InvalidRetentionDays));
    assert!(validate_export_range(10, 3660).is_ok());
    assert_eq!(validate_export_range(10, 3661), Err(ApiError::InvalidExportRange));
    assert_eq!(validate_export_range(10, 9), Err(ApiError::InvalidExportRange));
    assert_eq!(parse_export_format(None), Ok(ExportFormat::Json));
    assert_eq!(parse_export_format(Some("csv")), Ok(ExportFormat::Csv));
    assert_eq!(parse_export_format(Some("xml")), Err(ApiError::InvalidExportFormat));
    assert_eq!(
        export_disposition("2026-01-01", "2026-01-31", ExportFormat::Csv),
        "attachment; filename=timeline-2026-01-01-2026-01-31.zip"
    );
    assert_eq!(validate_delete_request(true, None, None), Ok(DeleteScope::All));
    assert_eq!(validate_delete_request(true, Some("2026-01-01"), None), Err(ApiError::ConflictingDeleteRange));
    assert_eq!(validate_delete_request(false, Some("2026-01-01"), None), Err(ApiError::MissingDeleteRange));
    assert_eq!(validate_delete_request(false, Some("bad"), Some("2026-01-02")), Err(ApiError::InvalidDate));
    assert_eq!(
        validate_delete_request(false, Some("2000-01-01"), Some("2000-01-02")),
        Ok(DeleteScope::Range(2_451_545, 2_451_546))
    );
    assert_eq!(ApiError::MissingExtensionHeader.status(), 403);
    assert_eq!(ApiError::InvalidDate.status(), 400);
}
