//! Calendar and clock conversions: parsing, calendar dates, date text and RFC 3339
//! timestamps through
//! the `time` crate, and month lengths of the Gregorian calendar. Dates are Julian
//! day numbers (as `time::Date::to_julian_day` gives them); times of day are seconds
//! after midnight.

use vstd::prelude::*;
use crate::text::{is_digit, digit_value, zero_padded};

verus! {

/// The number written by two decimal digits.
pub open spec fn two_digit_value(a: char, b: char) -> int {
    digit_value(a) * 10 + digit_value(b)
}

/// What `time::Time::parse` with the description `[hour]:[minute]` yields for a
/// text, as `(hour, minute, second)`: exactly two digits of an hour below 24, a
/// colon and two digits of a minute below 60, the second 0 (`None` otherwise).
pub open spec fn clock_time_of(text: Seq<char>) -> Option<(int, int, int)> {
    if text.len() == 5 && is_digit(text[0]) && is_digit(text[1]) && text[2] == ':' && is_digit(text[3])
        && is_digit(text[4]) && two_digit_value(text[0], text[1]) < 24 && two_digit_value(text[3], text[4]) < 60 {
        Some((two_digit_value(text[0], text[1]), two_digit_value(text[3], text[4]), 0))
    } else {
        None
    }
}

/// Parses `HH:MM` with `time::Time::parse` and the format description
/// `[hour]:[minute]`. The result is `clock_time_of` of the text; a `time::Time` holds
/// an hour below 24, a minute below 60 and a second below 60.
#[verifier::external_body]
fn parse_clock_parts(text: &str) -> (r: Option<(u8, u8, u8)>)
    ensures
        r matches Some(p) ==> clock_time_of(text@) == Some((p.0 as int, p.1 as int, p.2 as int))
            && p.0 < 24 && p.1 < 60 && p.2 < 60,
        r is None ==> clock_time_of(text@) is None,
{
    let format = match time::format_description::parse("[hour]:[minute]") {
        Ok(format) => format,
        Err(_) => return None,
    };
    match time::Time::parse(text, &format) {
        Ok(t) => Some((t.hour(), t.minute(), t.second())),
        Err(_) => None,
    }
}

/// Seconds after midnight of a parsed time of day.
pub open spec fn clock_seconds_of(text: Seq<char>) -> Option<int> {
    match clock_time_of(text) {
        Some((h, m, s)) => Some(h * 3600 + m * 60 + s),
        None => None,
    }
}

/// Parses `HH:MM` into seconds after midnight.
pub fn parse_clock_time(text: &str) -> (r: Option<u32>)
    ensures
        r matches Some(x) ==> clock_seconds_of(text@) == Some(x as int) && x < 86400,
        r is None ==> clock_seconds_of(text@) is None,
{
    match parse_clock_parts(text) {
        Some((h, m, s)) => Some(h as u32 * 3600 + m as u32 * 60 + s as u32),
        None => None,
    }
}

/// What `time::Date::parse` with the description `[year]-[month]-[day]` yields for a
/// text, as a Julian day number (`None` when the text does not parse).
pub uninterp spec fn calendar_date_of(text: Seq<char>) -> Option<int>;

/// Parses `YYYY-MM-DD` with `time::Date::parse` and the format description
/// `[year]-[month]-[day]`; the day number (an `i32` Julian day) is named by
/// `calendar_date_of`.
#[verifier::external_body]
fn parse_date_with_time(text: &str) -> (r: Option<i64>)
    ensures
        r matches Some(x) ==> calendar_date_of(text@) == Some(x as int) && i32::MIN <= x <= i32::MAX,
        r is None ==> calendar_date_of(text@) is None,
{
    let format = match time::format_description::parse("[year]-[month]-[day]") {
        Ok(format) => format,
        Err(_) => return None,
    };
    match time::Date::parse(text, &format) {
        Ok(d) => Some(d.to_julian_day() as i64),
        Err(_) => None,
    }
}

/// The day number of a calendar date as `time::Date::from_calendar_date` builds it
/// (`None` for an invalid date).
pub uninterp spec fn day_of_calendar(year: int, month: int, day: int) -> Option<int>;

/// Calls `time::Date::from_calendar_date` (month given as 1..=12); the day number (an
/// `i32` Julian day) is named by `day_of_calendar`.
#[verifier::external_body]
fn date_with_time(year: i32, month: u8, day: u8) -> (r: Option<i64>)
    ensures
        r matches Some(x) ==> day_of_calendar(year as int, month as int, day as int) == Some(x as int)
            && i32::MIN <= x <= i32::MAX,
        r is None ==> day_of_calendar(year as int, month as int, day as int) is None,
{
    let month = match time::Month::try_from(month) {
        Ok(month) => month,
        Err(_) => return None,
    };
    match time::Date::from_calendar_date(year, month, day) {
        Ok(d) => Some(d.to_julian_day() as i64),
        Err(_) => None,
    }
}

/// `(year, month 1..=12, day of month)` of a day number, as `time::Date` reports it.
pub uninterp spec fn calendar_of_day(day: int) -> Option<(int, int, int)>;

/// Converts a day number with `time::Date::from_julian_day` and reads its year,
/// month and day; named by `calendar_of_day`.
#[verifier::external_body]
fn calendar_parts_with_time(day: i64) -> (r: Option<(i32, u8, u8)>)
    ensures
        r matches Some(p) ==> calendar_of_day(day as int) == Some((p.0 as int, p.1 as int, p.2 as int)),
        r is None ==> calendar_of_day(day as int) is None,
{
    let julian = match i32::try_from(day) {
        Ok(j) => j,
        Err(_) => return None,
    };
    match time::Date::from_julian_day(julian) {
        Ok(d) => Some((d.year(), d.month() as u8, d.day())),
        Err(_) => None,
    }
}

/// Days since Monday of a day number's weekday (`Weekday::number_days_from_monday`).
pub uninterp spec fn weekday_from_monday(day: int) -> int;

/// Calls `time::Date::weekday().number_days_from_monday()`; the documented range is
/// 0 (Monday) to 6 (Sunday). The day is converted as in `calendar_parts`, so both
/// fail on the same day numbers.
#[verifier::external_body]
fn weekday_with_time(day: i64) -> (r: Option<u8>)
    ensures
        r matches Some(x) ==> x == weekday_from_monday(day as int) && x <= 6,
        r is None <==> calendar_of_day(day as int) is None,
{
    let julian = match i32::try_from(day) {
        Ok(j) => j,
        Err(_) => return None,
    };
    match time::Date::from_julian_day(julian) {
        Ok(d) => Some(d.weekday().number_days_from_monday()),
        Err(_) => None,
    }
}

/// Leap years of the proleptic Gregorian calendar (astronomical year numbering).
pub open spec fn is_leap_year(year: int) -> bool {
    year % 4 == 0 && (year % 100 != 0 || year % 400 == 0)
}

/// Number of days of a month (given as 1..=12) of the proleptic Gregorian calendar.
pub open spec fn month_length(year: int, month: int) -> int {
    if month == 2 {
        if is_leap_year(year) {
            29
        } else {
            28
        }
    } else if month == 4 || month == 6 || month == 9 || month == 11 {
        30
    } else {
        31
    }
}

/// `Display` text of a `time::Date`: `YYYY-MM-DD`, the year zero-padded to four
/// digits and preceded by `-` when negative (empty for a day number `time` cannot
/// represent).
pub open spec fn date_text_of(day: int) -> Seq<char> {
    match calendar_of_day(day) {
        Some((y, m, d)) => (if y < 0 {
            seq!['-']
        } else {
            Seq::<char>::empty()
        }) + zero_padded((if y < 0 {
            -y
        } else {
            y
        }) as nat, 4) + seq!['-'] + zero_padded(m as nat, 2) + seq!['-'] + zero_padded(d as nat, 2),
        None => Seq::empty(),
    }
}

/// Formats a day number through `time::Date`'s `Display`.
#[verifier::external_body]
fn display_date_with_time(day: i64) -> (r: String)
    ensures
        r@ == date_text_of(day as int),
{
    match i32::try_from(day).ok().and_then(|j| time::Date::from_julian_day(j).ok()) {
        Some(d) => d.to_string(),
        None => String::new(),
    }
}

/// Parses a `YYYY-MM-DD` date into its day number.
pub fn parse_calendar_date(text: &str) -> (r: Option<i64>)
    ensures
        r matches Some(x) ==> calendar_date_of(text@) == Some(x as int) && i32::MIN <= x <= i32::MAX,
        r is None ==> calendar_date_of(text@) is None,
{
    parse_date_with_time(text)
}

/// The day number of a calendar date (`None` for an invalid date).
pub fn date_from_calendar(year: i32, month: u8, day: u8) -> (r: Option<i64>)
    ensures
        r matches Some(x) ==> day_of_calendar(year as int, month as int, day as int) == Some(x as int)
            && i32::MIN <= x <= i32::MAX,
        r is None ==> day_of_calendar(year as int, month as int, day as int) is None,
{
    date_with_time(year, month, day)
}

/// The year, month and day of month of a day number.
pub fn calendar_parts(day: i64) -> (r: Option<(i32, u8, u8)>)
    ensures
        r matches Some(p) ==> calendar_of_day(day as int) == Some((p.0 as int, p.1 as int, p.2 as int)),
        r is None ==> calendar_of_day(day as int) is None,
{
    calendar_parts_with_time(day)
}

/// Days since Monday of a day number's weekday.
pub fn days_from_monday(day: i64) -> (r: Option<u8>)
    ensures
        r matches Some(x) ==> x == weekday_from_monday(day as int) && x <= 6,
        r is None <==> calendar_of_day(day as int) is None,
{
    weekday_with_time(day)
}

/// Number of days of a month (given as 1..=12).
pub fn days_in_month(year: i32, month: u8) -> (r: u8)
    requires
        1 <= month <= 12,
    ensures
        r == month_length(year as int, month as int),
{
    if month == 2 {
        // Shifting by a multiple of 400 years keeps the leap-year rule and makes
        // the year positive.
        let y: i64 = year as i64 + 40_000;
        proof {
            vstd::arithmetic::div_mod::lemma_mod_multiples_vanish(10_000, year as int, 4);
            vstd::arithmetic::div_mod::lemma_mod_multiples_vanish(400, year as int, 100);
            vstd::arithmetic::div_mod::lemma_mod_multiples_vanish(100, year as int, 400);
            assert(y % 4 == year % 4 && y % 100 == year % 100 && y % 400 == year % 400);
        }
        if y % 4 == 0 && (y % 100 != 0 || y % 400 == 0) {
            29
        } else {
            28
        }
    } else if month == 4 || month == 6 || month == 9 || month == 11 {
        30
    } else {
        31
    }
}

/// `YYYY-MM-DD` text of a day number.
pub fn date_text(day: i64) -> (r: String)
    ensures
        r@ == date_text_of(day as int),
{
    display_date_with_time(day)
}

/// What `time::OffsetDateTime::parse` with the RFC 3339 description yields for a
/// text, as UTC seconds since the Unix epoch (`None` when the text is not RFC 3339).
pub uninterp spec fn rfc3339_instant_of(text: Seq<char>) -> Option<int>;

/// Parses RFC 3339 text with `time::OffsetDateTime::parse` and takes its Unix
/// timestamp; the result is `rfc3339_instant_of` of the text.
#[verifier::external_body]
fn parse_rfc3339(text: &str) -> (r: Option<i64>)
    ensures
        match r {
            Some(t) => rfc3339_instant_of(text@) == Some(t as int),
            None => rfc3339_instant_of(text@) is None,
        },
{
    time::OffsetDateTime::parse(text, &time::format_description::well_known::Rfc3339).ok().map(|t| t.unix_timestamp())
}

/// RFC 3339 text of an instant in UTC as `time` formats it:
/// `YYYY-MM-DDTHH:MM:SSZ` for the years 0 to 9999, empty otherwise.
pub open spec fn rfc3339_text_of(t: int) -> Seq<char> {
    let day = t / 86400 + crate::zone::EPOCH_JULIAN_DAY;
    let s = t % 86400;
    match calendar_of_day(day) {
        Some((y, m, d)) => if 0 <= y <= 9999 {
            zero_padded(y as nat, 4) + seq!['-'] + zero_padded(m as nat, 2) + seq!['-'] + zero_padded(d as nat, 2)
                + seq!['T'] + zero_padded((s / 3600) as nat, 2) + seq![':'] + zero_padded(((s % 3600) / 60) as nat, 2)
                + seq![':'] + zero_padded((s % 60) as nat, 2) + seq!['Z']
        } else {
            Seq::empty()
        },
        None => Seq::empty(),
    }
}

/// Formats an instant with `time::OffsetDateTime::from_unix_timestamp` and the RFC
/// 3339 description (empty when either fails); the text is `rfc3339_text_of` of the
/// instant.
#[verifier::external_body]
fn format_rfc3339(t: i64) -> (r: String)
    ensures
        r@ == rfc3339_text_of(t as int),
{
    time::OffsetDateTime::from_unix_timestamp(t)
        .ok()
        .and_then(|moment| moment.format(&time::format_description::well_known::Rfc3339).ok())
        .unwrap_or_default()
}

/// Reads a stored RFC 3339 timestamp as UTC seconds.
pub fn parse_timestamp(text: &str) -> (r: Option<i64>)
    ensures
        match r {
            Some(t) => rfc3339_instant_of(text@) == Some(t as int),
            None => rfc3339_instant_of(text@) is None,
        },
{
    parse_rfc3339(text)
}

/// Writes UTC seconds as an RFC 3339 timestamp.
pub fn format_timestamp(t: i64) -> (r: String)
    ensures
        r@ == rfc3339_text_of(t as int),
{
    format_rfc3339(t)
}

} // verus!
