use timeline::clock::days_in_month;
use timeline::model::PresenceState;
use timeline::rollup::{delete_range_bounds, DeleteRangeError};
use timeline::stats::active_switch_counts;
use timeline::text::trim;
use timeline::tracker::{classify_presence, desktop_is_locked, process_name_from_path};
use timeline::trend::{app_usage_trend, date_range};
use timeline::rollup::RollupRow;
use timeline::window::ForegroundWindowSnapshot;
use timeline::zone::{TimeZoneContext, WindowsTimeZone, EPOCH_JULIAN_DAY};

#[test]
fn default_desktop_is_not_locked() {
    assert!(!desktop_is_locked("Default"));
    assert!(!desktop_is_locked("Default\0\0"));
    assert!(!desktop_is_locked("dEfAuLt"));
}

#[test]
fn other_desktops_are_locked() {
    assert!(desktop_is_locked("Winlogon"));
    assert!(desktop_is_locked("Winlogon\0"));
    assert!(desktop_is_locked("Default2"));
    assert!(desktop_is_locked(""));
}

#[test]
fn locked_wins_over_idle() {
    assert_eq!(classify_presence(true, 10_000, 1_000), PresenceState::Locked);
    assert_eq!(classify_presence(true, 0, 1_000), PresenceState::Locked);
}

#[test]
fn idle_from_the_threshold_on() {
    assert_eq!(classify_presence(false, 1_000, 1_000), PresenceState::Idle);
    assert_eq!(classify_presence(false, 999, 1_000), PresenceState::Active);
    assert_eq!(classify_presence(false, 0, 0), PresenceState::Idle);
}

#[test]
fn process_name_is_the_image_file_name() {
    assert_eq!(process_name_from_path("C:\\Program Files\\App\\app.exe"), "app.exe");
    assert_eq!(process_name_from_path("C:/Tools/code.exe"), "code.exe");
    assert_eq!(process_name_from_path("C:\\"), "unknown.exe");
    assert_eq!(process_name_from_path(""), "unknown.exe");
}

#[test]
fn range_delete_covers_whole_local_days() {
    let zone = TimeZoneContext::Fixed(3600);
    assert_eq!(delete_range_bounds(EPOCH_JULIAN_DAY, EPOCH_JULIAN_DAY + 1, &zone), Ok((-3600, 2 * 86400 - 3600)));
    assert_eq!(delete_range_bounds(EPOCH_JULIAN_DAY + 1, EPOCH_JULIAN_DAY, &zone), Err(DeleteRangeError::Reversed));
    assert_eq!(
        delete_range_bounds(i64::MAX - 1, i64::MAX, &zone),
        Err(DeleteRangeError::OutOfRange)
    );
}

#[test]
fn windows_zone_from_local_midnights() {
    let zone = WindowsTimeZone::from_midnights("Pacific Standard Time".to_string(), 100, vec![0, 86_400, 169_200]);
    let zone = zone.expect("increasing midnights form a table");
    assert_eq!(zone.id(), "Pacific Standard Time");
    let context = TimeZoneContext::Windows(zone);
    assert_eq!(context.day_bounds(101), Ok((86_400, 169_200)));
    assert!(WindowsTimeZone::from_midnights("X".to_string(), 0, vec![10, 10]).is_none());
    assert!(WindowsTimeZone::from_midnights("X".to_string(), 0, vec![10]).is_none());
}

#[test]
fn month_lengths_follow_the_gregorian_calendar() {
    assert_eq!(days_in_month(2024, 2), 29);
    assert_eq!(days_in_month(2023, 2), 28);
    assert_eq!(days_in_month(1900, 2), 28);
    assert_eq!(days_in_month(2000, 2), 29);
    assert_eq!(days_in_month(-4, 2), 29);
    assert_eq!(days_in_month(2023, 4), 30);
    assert_eq!(days_in_month(2023, 12), 31);
}

#[test]
fn date_range_reaches_the_last_day() {
    assert_eq!(date_range(i64::MAX - 1, i64::MAX), vec![i64::MAX - 1, i64::MAX]);
    assert_eq!(date_range(7, 7), vec![7]);
}

#[test]
fn switch_counts_of_an_empty_range() {
    let zone = TimeZoneContext::Fixed(0);
    assert_eq!(active_switch_counts(5, 4, &Vec::new(), &Vec::new(), &zone), Ok(Vec::new()));
}

#[test]
fn trim_removes_unicode_white_space() {
    let text: Vec<char> = "\u{3000}\u{a0} tab\t\u{2009}".chars().collect();
    assert_eq!(trim(&text), vec!['t', 'a', 'b']);
    let kept: Vec<char> = "\u{200b}x".chars().collect();
    assert_eq!(trim(&kept), kept);
}

fn snapshot(hwnd: isize, process_id: u32, session_id: u32, title: Option<&str>) -> ForegroundWindowSnapshot {
    ForegroundWindowSnapshot {
        hwnd,
        process_id,
        session_id,
        process_name: format!("p{session_id}.exe"),
        exe_path: String::new(),
        window_title: title.map(str::to_string),
        is_browser: session_id == 1,
    }
}

#[test]
fn fingerprint_tells_windows_apart() {
    assert_eq!(snapshot(12, 3, 1, None).fingerprint(), snapshot(12, 3, 2, Some("")).fingerprint());
    assert_ne!(snapshot(1, 23, 1, None).fingerprint(), snapshot(12, 3, 1, None).fingerprint());
    assert_ne!(snapshot(-1, 2, 1, Some("a")).fingerprint(), snapshot(1, 2, 1, Some("a")).fingerprint());
}

fn row(date: i64, key: &str, seconds: i64) -> RollupRow {
    RollupRow { date, key: key.to_string(), label: key.to_uppercase(), seconds, segment_count: 1 }
}

#[test]
fn trend_days_add_up_to_the_total() {
    let days = date_range(10, 13);
    let raw = vec![row(10, "a", 5), row(11, "b", 7), row(12, "a", 9), row(13, "a", 1)];
    let active = vec![row(12, "a", 4)];
    let series = app_usage_trend(&days, &raw, &active, 6);
    assert_eq!(series.len(), 2);
    for s in &series {
        assert_eq!(s.daily_seconds.iter().sum::<i64>(), s.total_seconds);
        assert_eq!(s.active_daily_seconds.iter().sum::<i64>(), s.active_total_seconds);
    }
    assert_eq!(series[0].key, "a");
    assert_eq!(series[0].daily_seconds, vec![5, 0, 9, 1]);
}
