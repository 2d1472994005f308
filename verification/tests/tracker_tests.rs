use timeline::clock::date_from_calendar;
use timeline::config::{health_reminder_allowed, AppConfig, DailyTimeWindow};
use timeline::model::{BrowserEventPayload, PresenceState};
use timeline::state::{HealthReminderAction, HealthReminderRuntime, RuntimeState};
use timeline::tracker::{
    browser_payload_for_storage, display_name_for_process, enter_pause, health_reminder_step, heartbeat_flush_due,
    leave_pause, next_backoff_millis, pause_expired, plan_browser_event, plan_config_reconcile, plan_focus_sync,
    plan_presence_sync, record_browser_started, record_focus_started, record_presence_started,
    should_restore_pause, take_open_segments, title_case_word, BreakReminder, RuntimeConfigSnapshot, Touch,
};
use timeline::window::{is_browser_process, ForegroundWindowSnapshot};

fn browser_payload(page_title: Option<&str>) -> BrowserEventPayload {
    BrowserEventPayload {
        domain: "example.com".to_string(),
        page_title: page_title.map(str::to_string),
        browser_window_id: 1,
        tab_id: 2,
        observed_at: None,
    }
}

#[test]
fn strips_page_title_when_recording_is_disabled() {
    let payload = browser_payload_for_storage(browser_payload(Some("Private page")), false);

    assert_eq!(payload.page_title, None);
}

#[test]
fn keeps_page_title_when_recording_is_enabled() {
    let payload = browser_payload_for_storage(browser_payload(Some("Useful page")), true);

    assert_eq!(payload.page_title.as_deref(), Some("Useful page"));
}

#[test]
fn batches_segment_heartbeats_at_ten_seconds() {
    let started_at: i64 = 0;
    assert!(!heartbeat_flush_due(started_at, started_at + 9));
    assert!(heartbeat_flush_due(started_at, started_at + 10));
    assert!(!heartbeat_flush_due(started_at, started_at - 1));
}

#[test]
fn health_reminders_respect_work_and_overnight_quiet_hours() {
    let work = DailyTimeWindow::from_optional_strings(Some("09:00"), Some("18:00")).expect("valid work hours");
    let quiet = DailyTimeWindow::from_optional_strings(Some("22:00"), Some("08:00")).expect("valid quiet hours");

    assert!(health_reminder_allowed(work, quiet, 10 * 3600));
    assert!(!health_reminder_allowed(work, quiet, 20 * 3600));
    assert!(!health_reminder_allowed(None, quiet, 23 * 3600));
    assert!(!health_reminder_allowed(None, quiet, 7 * 3600 + 30 * 60));
    assert!(health_reminder_allowed(None, quiet, 8 * 3600));
}

#[test]
fn health_reminder_actions_update_runtime_state() {
    let observed_at: i64 = 0;
    let local_date = date_from_calendar(2026, 7, 13).unwrap();
    let mut reminder = HealthReminderRuntime::new();
    reminder.active_streak_started_at = Some(observed_at - 3600);
    reminder.reminded_for_current_streak = true;

    reminder.apply_action(HealthReminderAction::SnoozeTenMinutes, observed_at, local_date);
    assert_eq!(reminder.snoozed_until, Some(observed_at + 600));
    assert!(!reminder.reminded_for_current_streak);

    reminder.apply_action(HealthReminderAction::Rested, observed_at, local_date);
    assert_eq!(reminder.active_streak_started_at, None);
    assert_eq!(reminder.snoozed_until, None);

    reminder.apply_action(HealthReminderAction::DismissToday, observed_at, local_date);
    assert_eq!(reminder.dismissed_local_date, Some(local_date));
    assert!(reminder.reminded_for_current_streak);
}

#[test]
fn health_reminder_action_labels() {
    assert_eq!(HealthReminderAction::SnoozeTenMinutes.as_str(), "snooze_10_minutes");
    assert_eq!(HealthReminderAction::Rested.as_str(), "rested");
    assert_eq!(HealthReminderAction::DismissToday.as_str(), "dismiss_today");
}

fn snapshot_config() -> RuntimeConfigSnapshot {
    let mut config = AppConfig::default_config();
    config.health_reminder_threshold_secs = 600;
    config.ignored_apps = vec!["Secret.EXE".to_string()];
    config.ignored_domains = vec!["private.example".to_string()];
    RuntimeConfigSnapshot::from_checked_config(&config).expect("valid config")
}

fn window(hwnd: isize, process: &str, title: Option<&str>) -> ForegroundWindowSnapshot {
    ForegroundWindowSnapshot {
        hwnd,
        process_id: 42,
        session_id: 1,
        process_name: process.to_string(),
        exe_path: format!("C:\\Apps\\{process}"),
        window_title: title.map(str::to_string),
        is_browser: is_browser_process(process),
    }
}

#[test]
fn fingerprints_and_display_names() {
    assert_eq!(window(-7, "code.exe", Some("main.rs")).fingerprint(), "-7:42:main.rs");
    assert_eq!(window(9, "code.exe", None).fingerprint(), "9:42:");
    assert!(is_browser_process("MSEdge.EXE"));
    assert!(!is_browser_process("code.exe"));
    assert_eq!(display_name_for_process("Code.exe"), "Visual Studio Code");
    assert_eq!(display_name_for_process("my-cool_tool.exe.exe"), "My Cool Tool");
    assert_eq!(display_name_for_process("--.exe"), "");
    assert_eq!(title_case_word("éCOLE"), "École");
    assert_eq!(title_case_word(""), "");
}

#[test]
fn focus_sync_touches_the_same_window_and_replaces_others() {
    let config = snapshot_config();
    let mut runtime = RuntimeState::new();
    let editor = window(1, "code.exe", Some("a.rs"));

    let plan = plan_focus_sync(&mut runtime, &Some(editor.clone()), 100, &config);
    assert!(plan.touch.is_none() && plan.end_focus.is_none() && plan.end_browser.is_none());
    let app = plan.start.expect("new focus segment");
    assert_eq!(app.display_name, "Visual Studio Code");
    assert_eq!(app.window_title.as_deref(), Some("a.rs"));
    record_focus_started(&mut runtime, 7, &editor, 100);

    let plan = plan_focus_sync(&mut runtime, &Some(editor.clone()), 105, &config);
    assert_eq!(plan.touch, Some(Touch { id: 7, persist_at: None }));
    let plan = plan_focus_sync(&mut runtime, &Some(editor.clone()), 110, &config);
    assert_eq!(plan.touch, Some(Touch { id: 7, persist_at: Some(110) }));
    assert_eq!(runtime.current_focus.as_ref().unwrap().last_observed_at, 110);

    runtime.current_browser = None;
    let browser = window(2, "chrome.exe", Some("Docs"));
    let plan = plan_focus_sync(&mut runtime, &Some(browser.clone()), 120, &config);
    assert_eq!(plan.end_focus, Some(7));
    assert!(plan.start.as_ref().unwrap().is_browser);
    record_focus_started(&mut runtime, 8, &browser, 120);

    let mut payload = browser_payload(None);
    payload.domain = "docs.rs".to_string();
    let browser_plan = plan_browser_event(&mut runtime, &payload, 121, &None, &config);
    assert!(browser_plan.ack.accepted && browser_plan.start);
    record_browser_started(&mut runtime, 30, &payload, 121);

    let secret = window(3, "secret.exe", Some("x"));
    let plan = plan_focus_sync(&mut runtime, &Some(secret), 130, &config);
    assert_eq!(plan.end_focus, Some(8));
    assert_eq!(plan.end_browser, Some(30));
    assert!(plan.start.is_none());
    assert!(runtime.current_focus.is_none() && runtime.current_browser.is_none());
}

#[test]
fn browser_events_are_rejected_with_reasons() {
    let config = snapshot_config();
    let mut runtime = RuntimeState::new();
    let payload = browser_payload(None);

    let plan = plan_browser_event(&mut runtime, &payload, 10, &None, &config);
    assert!(!plan.ack.accepted);
    assert_eq!(plan.ack.reason.as_deref(), Some("browser is not the foreground app"));

    let foreground = Some(window(1, "firefox.exe", None));
    let plan = plan_browser_event(&mut runtime, &payload, 10, &foreground, &config);
    assert!(plan.ack.accepted && plan.start);
    record_browser_started(&mut runtime, 1, &payload, 10);

    let plan = plan_browser_event(&mut runtime, &payload, 9, &foreground, &config);
    assert_eq!(plan.ack.reason.as_deref(), Some("stale browser observation"));

    let mut ignored = payload.clone();
    ignored.domain = "PRIVATE.example".to_string();
    let plan = plan_browser_event(&mut runtime, &ignored, 11, &foreground, &config);
    assert_eq!(plan.ack.reason.as_deref(), Some("domain is ignored by local config"));
    assert_eq!(plan.end_browser, Some(1));

    runtime.set_tracking_pause_state(true, Some(12), None);
    let plan = plan_browser_event(&mut runtime, &payload, 12, &foreground, &config);
    assert_eq!(plan.ack.reason.as_deref(), Some("tracking is paused"));
}

#[test]
fn presence_sync_and_pause_cycle() {
    let mut runtime = RuntimeState::new();
    let plan = plan_presence_sync(&mut runtime, PresenceState::Active, 50);
    assert_eq!(plan.start, Some(PresenceState::Active));
    record_presence_started(&mut runtime, 3, PresenceState::Active, 50);
    let plan = plan_presence_sync(&mut runtime, PresenceState::Active, 70);
    assert_eq!(plan.touch, Some(Touch { id: 3, persist_at: Some(70) }));
    let plan = plan_presence_sync(&mut runtime, PresenceState::Idle, 80);
    assert_eq!(plan.end_presence, Some(3));
    record_presence_started(&mut runtime, 4, PresenceState::Idle, 80);

    let ends = take_open_segments(&mut runtime);
    assert_eq!(ends.presence, Some(4));
    let state = enter_pause(&mut runtime, 5, 90, Some(200));
    assert!(state.tracking_paused);
    assert_eq!(state.paused_since, Some(90));
    assert!(!pause_expired(runtime.pause_until, 199));
    assert!(pause_expired(runtime.pause_until, 200));
    let state = leave_pause(&mut runtime);
    assert!(!state.tracking_paused && state.pause_until.is_none());
    assert!(should_restore_pause(Some(1), None, 10));
    assert!(should_restore_pause(Some(1), Some(11), 10));
    assert!(!should_restore_pause(Some(1), Some(10), 10));
    assert!(!should_restore_pause(None, None, 10));
}

#[test]
fn reconcile_closes_newly_ignored_segments() {
    let config = snapshot_config();
    let mut runtime = RuntimeState::new();
    let secret = window(3, "Secret.exe", None);
    record_focus_started(&mut runtime, 9, &secret, 1);
    record_browser_started(&mut runtime, 10, &browser_payload(None), 1);
    let ends = plan_config_reconcile(&mut runtime, &config);
    assert_eq!(ends.focus, Some(9));
    assert_eq!(ends.browser, Some(10));
    assert!(runtime.current_focus.is_none() && runtime.current_browser.is_none());
}

#[test]
fn break_reminders_fire_once_per_streak() {
    let config = snapshot_config();
    let mut reminder = HealthReminderRuntime::new();
    let day: i64 = 2_461_000;
    assert_eq!(health_reminder_step(&mut reminder, &config, PresenceState::Active, 1_000, day, 36_000), None);
    assert_eq!(health_reminder_step(&mut reminder, &config, PresenceState::Active, 1_599, day, 36_000), None);
    assert_eq!(
        health_reminder_step(&mut reminder, &config, PresenceState::Active, 1_600, day, 36_000),
        Some(BreakReminder { threshold_secs: 600, streak_secs: 600 })
    );
    assert_eq!(health_reminder_step(&mut reminder, &config, PresenceState::Active, 2_000, day, 36_000), None);
    assert_eq!(health_reminder_step(&mut reminder, &config, PresenceState::Idle, 2_100, day, 36_000), None);
    assert_eq!(health_reminder_step(&mut reminder, &config, PresenceState::Idle, 2_280, day, 36_000), None);
    assert_eq!(reminder.active_streak_started_at, None);
    assert!(!reminder.reminded_for_current_streak);
    assert_eq!(health_reminder_step(&mut reminder, &config, PresenceState::Active, 2_300, day, 36_000), None);
    assert_eq!(reminder.active_streak_started_at, Some(2_300));
}

#[test]
fn backoff_doubles_up_to_thirty_seconds() {
    assert_eq!(next_backoff_millis(1_000), 2_000);
    assert_eq!(next_backoff_millis(16_000), 30_000);
    assert_eq!(next_backoff_millis(30_000), 30_000);
}

#[test]
fn snoozed_and_rested_reminders() {
    let config = snapshot_config();
    let day: i64 = 2_461_000;
    let mut reminder = HealthReminderRuntime::new();
    reminder.active_streak_started_at = Some(0);
    reminder.apply_action(HealthReminderAction::SnoozeTenMinutes, 1_000, day);
    assert_eq!(health_reminder_step(&mut reminder, &config, PresenceState::Active, 1_599, day, 36_000), None);
    assert_eq!(
        health_reminder_step(&mut reminder, &config, PresenceState::Active, 1_600, day, 36_000),
        Some(BreakReminder { threshold_secs: 600, streak_secs: 1_600 })
    );
    let mut short_rest = HealthReminderRuntime::new();
    short_rest.active_streak_started_at = Some(500);
    assert_eq!(health_reminder_step(&mut short_rest, &config, PresenceState::Locked, 700, day, 36_000), None);
    assert_eq!(health_reminder_step(&mut short_rest, &config, PresenceState::Active, 870, day, 36_000), None);
    assert_eq!(short_rest.active_streak_started_at, Some(500));
    let mut quiet = HealthReminderRuntime::new();
    quiet.active_streak_started_at = Some(0);
    quiet.dismissed_local_date = Some(day);
    assert_eq!(health_reminder_step(&mut quiet, &config, PresenceState::Active, 5_000, day, 36_000), None);
    assert_eq!(
        health_reminder_step(&mut quiet, &config, PresenceState::Active, 5_000, day + 1, 36_000),
        Some(BreakReminder { threshold_secs: 600, streak_secs: 5_000 })
    );
}
