use timeline::clock::{date_from_calendar, date_text};
use timeline::export::{build_stored_zip, crc32, csv_archive, csv_row, csv_table, push_u16, push_u32, ZipError};
use timeline::model::PresenceState;
use timeline::rollup::{
    active_day_rows, daily_rollup_rows, job_after_date, plan_active_rebuild, retention_delete_range, rollup_add,
    JobStatus, RebuildJob, RebuildStart, RollupRow, SegmentRow,
};
use timeline::segments::{
    day_timeline_bounds, end_segment, intersect_active_intervals, restore_unclosed, touch_segment, SegmentTimes,
};
use timeline::stats::{
    active_switch_counts, focus_stats, month_calendar, month_label, summarize_day, PresenceSpan, Span, SummaryInputs,
};
use timeline::trend::{app_usage_trend, date_range, trend_bounds};
use timeline::api::TrendPeriod;
use timeline::zone::{
    local_date_and_time, split_interval_by_local_day, DayTable, TimeZoneContext, WindowsTimeZone, EPOCH_JULIAN_DAY,
};
use timeline::cli::{
    launch_command, parse_config_path, parse_debug_trigger_health_reminder, parse_retention_setting,
    preview_streak_secs, tray_menu_action, TrayAction,
};

const DAY: i64 = 86_400;

fn utc() -> TimeZoneContext {
    TimeZoneContext::Fixed(0)
}

#[test]
fn splits_intervals_at_local_midnight() {
    let zone = TimeZoneContext::Fixed(3600);
    let chunks = split_interval_by_local_day(DAY - 7200, DAY + 600, &zone).unwrap();
    assert_eq!(chunks.len(), 2);
    assert_eq!(chunks[0].date, EPOCH_JULIAN_DAY);
    assert_eq!(chunks[0].seconds, 3600);
    assert_eq!(chunks[1].date, EPOCH_JULIAN_DAY + 1);
    assert_eq!(chunks[1].seconds, 4200);
    assert!(split_interval_by_local_day(10, 10, &zone).unwrap().is_empty());
}

#[test]
fn windows_tables_give_23_and_25_hour_days() {
    let zone = TimeZoneContext::Windows(WindowsTimeZone {
        id: "Pacific Standard Time".to_string(),
        days: DayTable { first_day: 100, boundaries: vec![0, 23 * 3600, 48 * 3600, 73 * 3600] },
    });
    let (s, e) = zone.day_bounds(100).unwrap();
    assert_eq!(e - s, 23 * 3600);
    let (s, e) = zone.day_bounds(102).unwrap();
    assert_eq!(e - s, 25 * 3600);
    assert!(zone.day_bounds(103).is_err());
    assert_eq!(zone.id(), "Pacific Standard Time");
    if let TimeZoneContext::Windows(w) = &zone {
        assert_eq!(w.id(), "Pacific Standard Time");
    }
    assert_eq!(zone.local_date(23 * 3600), Ok(101));
    let chunks = split_interval_by_local_day(22 * 3600, 50 * 3600, &zone).unwrap();
    let total: i64 = chunks.iter().map(|c| c.seconds).sum();
    assert_eq!(total, 28 * 3600);
    assert_eq!(chunks.len(), 3);
}

#[test]
fn local_date_and_time_of_negative_instants() {
    assert_eq!(local_date_and_time(-1, 0), (EPOCH_JULIAN_DAY - 1, 86_399));
    assert_eq!(local_date_and_time(3_600, -7_200), (EPOCH_JULIAN_DAY - 1, 82_800));
    assert_eq!(utc().id(), format!("fixed:{}", time::UtcOffset::UTC));
}

fn row(key: &str, start: i64, end: i64) -> SegmentRow {
    SegmentRow { key: key.to_string(), label: key.to_uppercase(), started_at: start, effective_end: end }
}

#[test]
fn daily_rollups_group_by_date_and_key() {
    let rows = vec![row("a", DAY - 100, DAY + 50), row("b", 10, 20), row("a", DAY + 60, DAY + 70)];
    let rolled = daily_rollup_rows(&rows, &utc()).unwrap();
    let find = |date: i64, key: &str| rolled.iter().find(|r| r.date == date && r.key == key).cloned();
    let a0 = find(EPOCH_JULIAN_DAY, "a").unwrap();
    assert_eq!((a0.seconds, a0.segment_count), (100, 1));
    let a1 = find(EPOCH_JULIAN_DAY + 1, "a").unwrap();
    assert_eq!((a1.seconds, a1.segment_count), (60, 2));
    let b0 = find(EPOCH_JULIAN_DAY, "b").unwrap();
    assert_eq!((b0.seconds, b0.segment_count), (10, 1));
    assert_eq!(rolled.len(), 3);
    let total: i64 = rolled.iter().map(|r| r.seconds).sum();
    assert_eq!(total, 170);
}

#[test]
fn active_rollups_count_only_active_time() {
    let segments = vec![row("editor", 0, 100), row("idle", 200, 300), row("editor", 50, 80)];
    let active = vec![(20, 60), (70, 90)];
    let rows = active_day_rows(EPOCH_JULIAN_DAY, 0, DAY, &segments, &active);
    assert_eq!(rows.len(), 1);
    assert_eq!(rows[0].key, "editor");
    assert_eq!(rows[0].seconds, 40 + 20 + 10 + 10);
    assert_eq!(rows[0].segment_count, 2);
    assert_eq!(intersect_active_intervals(0, 100, &active), vec![(20, 60), (70, 90)]);
}

#[test]
fn rollup_add_accumulates_and_keeps_the_latest_label() {
    let mut rows: Vec<RollupRow> = Vec::new();
    let r = |label: &str, s: i64| RollupRow { date: 1, key: "k".to_string(), label: label.to_string(), seconds: s, segment_count: 1 };
    rollup_add(&mut rows, r("old", 5));
    rollup_add(&mut rows, r("new", 7));
    assert_eq!(rows.len(), 1);
    assert_eq!(rows[0].seconds, 12);
    assert_eq!(rows[0].segment_count, 2);
    assert_eq!(rows[0].label, "new");
}

#[test]
fn rebuild_jobs_resume_and_finish() {
    let job = RebuildJob { status: JobStatus::Failed, completed_days: 1, total_days: 2, next_date: Some(11) };
    assert_eq!(
        plan_active_rebuild(true, true, job),
        RebuildStart::Resume { next_date: 11, completed_days: 1, total_days: 2 }
    );
    assert_eq!(plan_active_rebuild(false, true, job), RebuildStart::Fresh);
    assert_eq!(job_after_date(11, 2, 2).status, JobStatus::Ready);
    assert_eq!(job_after_date(10, 1, 2).next_date, Some(11));
}

#[test]
fn retention_keeps_exact_number_of_local_dates() {
    assert_eq!(retention_delete_range(100, 30, 50), Some((50, 70)));
    assert_eq!(retention_delete_range(100, 30, 71), None);
    assert_eq!(retention_delete_range(100, 0, 99), Some((99, 99)));
}

#[test]
fn day_timeline_clamps_segments_to_the_day() {
    let segs = vec![
        SegmentTimes { started_at: -50, last_seen_at: Some(30), ended_at: Some(30) },
        SegmentTimes { started_at: 40, last_seen_at: Some(45), ended_at: None },
        SegmentTimes { started_at: 200, last_seen_at: None, ended_at: Some(250) },
    ];
    let bounds = day_timeline_bounds(&segs, 60, 0, 100);
    assert_eq!(bounds, vec![Some((0, 30)), Some((40, 60)), None]);
    let later = day_timeline_bounds(&segs, 1_000, 0, 100);
    assert_eq!(later, vec![Some((0, 30)), Some((40, 100)), None]);
}

fn rr(date: i64, key: &str, label: &str, seconds: i64, count: i64) -> RollupRow {
    RollupRow { date, key: key.to_string(), label: label.to_string(), seconds, segment_count: count }
}

#[test]
fn day_summaries_pick_the_top_app_and_domain() {
    let inputs = SummaryInputs {
        app_rows: vec![rr(5, "a.exe", "A", 100, 2), rr(5, "b.exe", "B", 300, 1), rr(5, "c.exe", "C", 300, 4), rr(6, "d.exe", "D", 900, 1)],
        domain_rows: vec![rr(5, "x.com", "x.com", 40, 1)],
        active_rows: vec![(5, 350), (6, 1)],
        active_app_rows: vec![(5, 200)],
        active_domain_rows: vec![],
    };
    let s = summarize_day(5, &inputs, 3);
    assert_eq!(s.focus_seconds, 700);
    assert_eq!(s.switch_count, 6);
    assert_eq!(s.active_seconds, 350);
    assert_eq!(s.active_app_seconds, 200);
    assert_eq!(s.active_switch_count, 3);
    assert_eq!(s.top_app.as_ref().unwrap().key, "b.exe");
    assert_eq!(s.top_domain.as_ref().unwrap().label, "x.com");
    let empty = summarize_day(7, &inputs, 0);
    assert_eq!(empty.switch_count, -1);
    assert!(empty.top_app.is_none());
}

#[test]
fn month_calendar_has_one_summary_per_day() {
    let first = date_from_calendar(2026, 2, 1).unwrap();
    let inputs = SummaryInputs {
        app_rows: vec![rr(first + 3, "a.exe", "A", 60, 1)],
        domain_rows: vec![],
        active_rows: vec![],
        active_app_rows: vec![],
        active_domain_rows: vec![],
    };
    let counts = vec![0i64; 28];
    let days = month_calendar(2026, 2, &inputs, &counts).unwrap();
    assert_eq!(days.len(), 28);
    assert_eq!(days[0].date, "2026-02-01");
    assert_eq!(days[3].focus_seconds, 60);
    assert_eq!(days[3].switch_count, 0);
    assert!(month_calendar(2026, 2, &inputs, &vec![0i64; 31]).is_err());
    assert!(month_calendar(2026, 13, &inputs, &counts).is_err());
    assert_eq!(month_label(2026, 3), "2026-03");
    assert_eq!(month_label(-5, 11), "-005-11");
    assert_eq!(date_text(first), "2026-02-01");
}

fn span(key: &str, start: i64, end: i64) -> Span {
    Span { key: key.to_string(), start, end }
}

#[test]
fn active_switches_ignore_app_changes_during_idle() {
    let focus = vec![span("a.exe", 0, 10), span("b.exe", 10, 20), span("c.exe", 20, 30)];
    let presence = vec![
        PresenceSpan { state: PresenceState::Active, start: 0, end: 10 },
        PresenceSpan { state: PresenceState::Idle, start: 10, end: 20 },
        PresenceSpan { state: PresenceState::Active, start: 20, end: 30 },
    ];
    let stats = focus_stats(&presence, &focus);
    assert_eq!(stats.switch_count, 2);
    assert_eq!(stats.active_switch_count, 0);
    assert_eq!(stats.total_focus_seconds, 30);
    assert_eq!(stats.total_active_seconds, 20);
    assert_eq!(stats.active_foreground_seconds, 20);
    assert_eq!(stats.longest_active_block_seconds, 10);
    assert_eq!(stats.average_focus_block_seconds, 10);

    let counts = active_switch_counts(EPOCH_JULIAN_DAY, EPOCH_JULIAN_DAY, &vec![(0, 10), (20, 30)], &focus, &utc()).unwrap();
    assert_eq!(counts, vec![0]);
    let counts = active_switch_counts(EPOCH_JULIAN_DAY, EPOCH_JULIAN_DAY + 1, &vec![(0, 30)], &focus, &utc()).unwrap();
    assert_eq!(counts, vec![2, 0]);
    let same_app = vec![span("a.exe", 0, 10), span("A.EXE", 10, 20)];
    assert_eq!(active_switch_counts(EPOCH_JULIAN_DAY, EPOCH_JULIAN_DAY, &vec![(0, 30)], &same_app, &utc()).unwrap(), vec![0]);
}

#[test]
fn app_trend_ranks_by_total_then_key() {
    let raw = vec![rr(1, "b.exe", "B", 50, 0), rr(2, "a.exe", "A1", 30, 0), rr(3, "a.exe", "A2", 20, 0), rr(1, "c.exe", "C", 10, 0)];
    let active = vec![rr(2, "a.exe", "ignored", 25, 0), rr(1, "z.exe", "Z", 5, 0)];
    let days = date_range(1, 3);
    assert_eq!(days, vec![1, 2, 3]);
    let series = app_usage_trend(&days, &raw, &active, 3);
    let keys: Vec<&str> = series.iter().map(|s| s.key.as_str()).collect();
    assert_eq!(keys, vec!["a.exe", "b.exe", "c.exe"]);
    assert_eq!(series[0].label, "A2");
    assert_eq!(series[0].total_seconds, 50);
    assert_eq!(series[0].daily_seconds, vec![0, 30, 20]);
    assert_eq!(series[0].active_total_seconds, 25);
    assert_eq!(series[0].active_daily_seconds, vec![0, 25, 0]);
    let all = app_usage_trend(&days, &raw, &active, 0);
    assert_eq!(all.len(), 1);
    let wide = app_usage_trend(&days, &raw, &active, 50);
    assert_eq!(wide.len(), 4);
    assert_eq!(wide[3].key, "z.exe");
    assert_eq!(wide[3].label, "Z");
    assert_eq!(wide[3].total_seconds, 0);
}

#[test]
fn trend_periods_cover_weeks_and_months() {
    let wednesday = date_from_calendar(2026, 3, 18).unwrap();
    let (start, end) = trend_bounds(wednesday, TrendPeriod::Week).unwrap();
    assert_eq!(date_text(start), "2026-03-16");
    assert_eq!(end - start, 6);
    let (start, end) = trend_bounds(wednesday, TrendPeriod::Month).unwrap();
    assert_eq!(date_text(start), "2026-03-01");
    assert_eq!(date_text(end), "2026-03-31");
    assert!(date_range(5, 4).is_empty());
}

#[test]
fn csv_rows_quote_every_field() {
    let row = csv_row(&vec!["plain".to_string(), "say \"hi\"".to_string(), String::new()]);
    assert_eq!(row, "\"plain\",\"say \"\"hi\"\"\",\"\"\r\n");
    let table = csv_table("a,b\r\n", &vec![vec!["1".to_string(), "2".to_string()]]);
    assert_eq!(table, "a,b\r\n\"1\",\"2\"\r\n");
}

#[test]
fn crc32_matches_the_standard_check_value() {
    assert_eq!(crc32(&b"123456789".to_vec()), 0xCBF4_3926);
    assert_eq!(crc32(&Vec::new()), 0);
    let mut buf = Vec::new();
    push_u16(&mut buf, 0x1234);
    push_u32(&mut buf, 0xA1B2_C3D4);
    assert_eq!(buf, vec![0x34, 0x12, 0xD4, 0xC3, 0xB2, 0xA1]);
}

#[test]
fn stored_zip_has_local_records_central_directory_and_end() {
    let files = vec![("a.csv".to_string(), b"x,y\r\n".to_vec()), ("b.csv".to_string(), Vec::new())];
    let zip = build_stored_zip(&files).unwrap();
    assert_eq!(&zip[0..4], &[0x50, 0x4b, 0x03, 0x04]);
    let local_a = 30 + 5 + 5;
    let local_b = 30 + 5;
    let central = 2 * (46 + 5);
    assert_eq!(zip.len(), local_a + local_b + central + 22);
    let end = &zip[zip.len() - 22..];
    assert_eq!(&end[0..4], &[0x50, 0x4b, 0x05, 0x06]);
    assert_eq!(end[8], 2);
    assert_eq!(u32::from_le_bytes([end[16], end[17], end[18], end[19]]) as usize, local_a + local_b);
    let crc = u32::from_le_bytes([zip[14], zip[15], zip[16], zip[17]]);
    assert_eq!(crc, crc32(&b"x,y\r\n".to_vec()));
    let long_name = vec![("n".repeat(70_000), Vec::new())];
    assert_eq!(build_stored_zip(&long_name), Err(ZipError::NameTooLong));
    let archive = csv_archive("f\r\n".to_string(), "b\r\n".to_string(), "p\r\n".to_string()).unwrap();
    assert!(archive.windows(9).any(|w| w == b"focus.csv"));
}

#[test]
fn command_line_options() {
    let args: Vec<String> = vec!["--x".into(), "--config".into(), "C:\\t.toml".into()];
    assert_eq!(parse_config_path(&args).as_deref(), Some("C:\\t.toml"));
    assert_eq!(parse_config_path(&vec!["--config".to_string()]), None);
    assert_eq!(parse_debug_trigger_health_reminder(&vec!["--debug-trigger-health-reminder".to_string()]), Some(3000));
    assert_eq!(
        parse_debug_trigger_health_reminder(&vec!["--debug-trigger-health-reminder".to_string(), "-20".to_string()]),
        Some(-20)
    );
    assert_eq!(parse_debug_trigger_health_reminder(&args), None);
    assert_eq!(preview_streak_secs(-20), 60);
    assert_eq!(parse_retention_setting("90"), Some(90));
    assert_eq!(parse_retention_setting("ninety"), None);
    assert_eq!(launch_command("C:\\T\\timeline.exe", Some("C:\\T\\c.toml")), "\"C:\\T\\timeline.exe\" --config \"C:\\T\\c.toml\"");
    assert_eq!(launch_command("t.exe", None), "\"t.exe\"");
    assert_eq!(tray_menu_action("quit"), Some(TrayAction::Quit));
    assert_eq!(tray_menu_action("other"), None);
}

#[test]
fn next_local_midnight_starts_the_following_local_date() {
    let zone = TimeZoneContext::Fixed(3600);
    assert_eq!(zone.next_local_midnight(0), Ok(DAY - 3600));
    assert_eq!(zone.next_local_midnight(DAY - 3600), Ok(2 * DAY - 3600));
}

#[test]
fn heartbeats_never_move_last_seen_backwards() {
    let open = SegmentTimes { started_at: 100, last_seen_at: Some(130), ended_at: None };
    let later = touch_segment(open, 140);
    assert_eq!(later.times.last_seen_at, Some(140));
    assert_eq!(later.usage, Some((130, 140)));
    let stale = touch_segment(later.times, 120);
    assert_eq!(stale.times.last_seen_at, Some(140));
    assert_eq!(stale.usage, Some((140, 140)));
    let closed = end_segment(stale.times, 150);
    assert_eq!(closed.times.ended_at, Some(150));
    assert_eq!(closed.usage, Some((140, 150)));
    assert!(touch_segment(closed.times, 160).usage.is_none());
    let restored = restore_unclosed(SegmentTimes { started_at: 100, last_seen_at: Some(130), ended_at: None });
    assert_eq!(restored.ended_at, Some(130));
}
