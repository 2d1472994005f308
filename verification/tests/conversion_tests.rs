use timeline::clock::{date_from_calendar, date_text, format_timestamp, parse_clock_time, parse_timestamp};
use timeline::config::{AppConfig, ConfigError};
use timeline::rollup::RollupRow;
use timeline::segments::{segment_bounds, SegmentTimes};
use timeline::stats::{date_seconds, join_active_seconds};
use timeline::trend::{date_range, period_usage_trend};
use timeline::zone::TimeZoneContext;

#[test]
fn clock_times_are_two_digit_hours_and_minutes() {
    assert_eq!(parse_clock_time("07:30"), Some(7 * 3600 + 30 * 60));
    assert_eq!(parse_clock_time("23:59"), Some(23 * 3600 + 59 * 60));
    assert_eq!(parse_clock_time("7:30"), None);
    assert_eq!(parse_clock_time("24:00"), None);
    assert_eq!(parse_clock_time("07:60"), None);
    assert_eq!(parse_clock_time("07:30 "), None);
}

#[test]
fn date_text_pads_the_year() {
    assert_eq!(date_text(date_from_calendar(2024, 3, 5).unwrap()), "2024-03-05");
    assert_eq!(date_text(date_from_calendar(-1, 1, 1).unwrap()), "-0001-01-01");
    assert_eq!(date_text(date_from_calendar(7, 12, 31).unwrap()), "0007-12-31");
}

#[test]
fn fixed_zone_ids_show_the_offset() {
    assert_eq!(TimeZoneContext::Fixed(-3723).id(), "fixed:-01:02:03");
    assert_eq!(TimeZoneContext::Fixed(19_800).id(), "fixed:+05:30:00");
    assert_eq!(TimeZoneContext::Fixed(-30).id(), "fixed:-00:00:30");
}

#[test]
fn timestamps_round_trip_through_rfc3339() {
    assert_eq!(format_timestamp(0), "1970-01-01T00:00:00Z");
    assert_eq!(format_timestamp(-1), "1969-12-31T23:59:59Z");
    assert_eq!(format_timestamp(2 * 86_400 - 1), "1970-01-02T23:59:59Z");
    assert_eq!(parse_timestamp("1970-01-01T01:00:00+01:00"), Some(0));
    assert_eq!(parse_timestamp(&format_timestamp(1_700_000_000)), Some(1_700_000_000));
    assert_eq!(parse_timestamp("yesterday"), None);
}

#[test]
fn listen_addresses_must_be_loopback() {
    let mut config = AppConfig::default_config();
    config.listen_addr = "127.5.6.7:80".to_string();
    assert_eq!(config.validate(), Ok(()));
    config.listen_addr = "[::1]:80".to_string();
    assert_eq!(config.validate(), Ok(()));
    config.listen_addr = "[::ffff:127.0.0.1]:80".to_string();
    assert_eq!(config.validate(), Err(ConfigError::NonLoopbackListenAddr));
    config.listen_addr = "[::]:80".to_string();
    assert_eq!(config.validate(), Err(ConfigError::NonLoopbackListenAddr));
    config.listen_addr = "localhost:80".to_string();
    assert_eq!(config.validate(), Err(ConfigError::InvalidListenAddr));
}

#[test]
fn open_segments_reach_the_current_moment() {
    let open = SegmentTimes { started_at: 50, last_seen_at: Some(100), ended_at: None };
    assert_eq!(segment_bounds(open, 1_000, 0, 86_400), (50, 1_000));
    assert_eq!(segment_bounds(open, 90_000, 0, 86_400), (50, 86_400));
    let closed = SegmentTimes { started_at: 50, last_seen_at: Some(100), ended_at: Some(120) };
    assert_eq!(segment_bounds(closed, 1_000, 0, 86_400), (50, 120));
}

fn row(date: i64, key: &str, seconds: i64) -> RollupRow {
    RollupRow { date, key: key.to_string(), label: format!("{key} label"), seconds, segment_count: 1 }
}

#[test]
fn usage_rows_join_their_active_seconds() {
    let raw = vec![row(5, "a", 100), row(5, "b", 40)];
    let active = vec![row(4, "a", 7), row(5, "a", 60)];
    let joined = join_active_seconds(&raw, &active);
    assert_eq!(joined.len(), 2);
    assert_eq!((joined[0].key.as_str(), joined[0].label.as_str()), ("a", "a label"));
    assert_eq!((joined[0].seconds, joined[0].active_seconds), (100, 60));
    assert_eq!((joined[1].seconds, joined[1].active_seconds), (40, 0));
}

#[test]
fn presence_rows_keep_only_the_active_state() {
    let rows = vec![row(5, "active", 30), row(5, "idle", 9), row(6, "active", 12)];
    assert_eq!(date_seconds(&rows, Some("active")), vec![(5, 30), (6, 12)]);
    assert_eq!(date_seconds(&rows, None), vec![(5, 30), (5, 9), (6, 12)]);
}

#[test]
fn trend_needs_rows_inside_the_period() {
    let days = date_range(10, 12);
    let raw = vec![row(10, "a", 5), row(12, "a", 7)];
    let series = period_usage_trend(&days, &raw, &Vec::new(), 6).unwrap();
    assert_eq!(series[0].daily_seconds, vec![5, 0, 7]);
    assert_eq!(series[0].total_seconds, 12);
    assert!(period_usage_trend(&days, &vec![row(13, "a", 1)], &Vec::new(), 6).is_none());
    assert!(period_usage_trend(&days, &vec![row(10, "a", 1), row(10, "a", 2)], &Vec::new(), 6).is_none());
}
