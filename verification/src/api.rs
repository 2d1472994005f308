//! Checks and normalizations of the HTTP API: request origins, browser events,
//! agent settings updates, and query parameters.

use vstd::prelude::*;
use vstd::string::*;
use crate::text::{
    chars_of, string_from, trim, trim_spec, trim_end_char, trim_end_by, char_pred, to_ascii_lowercase,
    lower_seq, seq_equal, split_chars_by, split_on, views_of, find, is_first_occurrence, occurs_spec,
    starts_with, starts_with_spec, find_char, is_first_index_of, slice_copy, parse_i32, parse_u8,
    parse_signed_spec, parse_unsigned_spec,
};
use crate::model::BrowserEventPayload;
use crate::state::MonitorProbe;
use crate::config::{
    AppConfig, window_outcome, opt_view, opt_str_view, normalized_time, normalize_time_value,
    validate_optional_time_window,
};
use crate::zone::{valid_instant, MIN_INSTANT, MAX_INSTANT};
use crate::clock::{parse_calendar_date, calendar_date_of};

verus! {

/// The request header that marks calls from the browser extension, and its value.
pub const EXTENSION_HEADER: &'static str = "x-timeline-extension";

pub const EXTENSION_HEADER_VALUE: &'static str = "browser-bridge";

pub const MAX_BROWSER_DOMAIN_LENGTH: usize = 253;

pub const MAX_BROWSER_TITLE_LENGTH: usize = 512;

pub const MAX_IGNORED_ITEMS: usize = 256;

pub const MAX_IGNORED_ITEM_LENGTH: usize = 253;

/// How far in the past a browser observation may lie, in seconds.
pub const BROWSER_EVENT_MAX_PAST_SKEW: i64 = 120;

/// How far in the future a browser observation may lie, in seconds.
pub const BROWSER_EVENT_MAX_FUTURE_SKEW: i64 = 10;

// ---------------------------------------------------------------------------
// Host names
// ---------------------------------------------------------------------------

/// Whether the text parses as an IPv4 or IPv6 address (`IpAddr`'s `FromStr`).
pub uninterp spec fn parses_as_ip(text: Seq<char>) -> bool;

/// Parses the text with `core::net::IpAddr`'s `FromStr` and reports whether it is
/// an address.
#[verifier::external_body]
fn is_ip_address(text: &str) -> (r: bool)
    ensures
        r == parses_as_ip(text@),
{
    text.parse::<core::net::IpAddr>().is_ok()
}

pub open spec fn is_ascii_alnum(c: char) -> bool {
    ('a' <= c && c <= 'z') || ('A' <= c && c <= 'Z') || ('0' <= c && c <= '9')
}

/// A DNS label: 1 to 63 ASCII letters, digits and hyphens, not starting or ending
/// with a hyphen.
pub open spec fn label_ok(l: Seq<char>) -> bool {
    &&& 0 < l.len() <= 63
    &&& l[0] != '-'
    &&& l.last() != '-'
    &&& forall|i: int| 0 <= i < l.len() ==> is_ascii_alnum(#[trigger] l[i]) || l[i] == '-'
}

pub open spec fn dot_pieces(v: Seq<char>) -> Seq<Seq<char>> {
    split_on(v, |c: char| c == '.' || c == '.')
}

/// An IP address, or dot-separated DNS labels.
pub open spec fn hostname_ok(v: Seq<char>) -> bool {
    parses_as_ip(v) || forall|i: int| 0 <= i < dot_pieces(v).len() ==> label_ok(#[trigger] dot_pieces(v)[i])
}

fn label_valid(l: &Vec<char>) -> (r: bool)
    ensures
        r == label_ok(l@),
{
    let n = l.len();
    if n == 0 || n > 63 || l[0] == '-' || l[n - 1] == '-' {
        return false;
    }
    let mut i: usize = 0;
    while i < n
        invariant
            n == l@.len(),
            i <= n,
            forall|k: int| 0 <= k < i ==> is_ascii_alnum(#[trigger] l@[k]) || l@[k] == '-',
        decreases n - i,
    {
        let c = l[i];
        if !(('a' <= c && c <= 'z') || ('A' <= c && c <= 'Z') || ('0' <= c && c <= '9') || c == '-') {
            return false;
        }
        i += 1;
    }
    true
}

/// Whether a browser domain is an IP address or a well-formed host name.
pub fn is_valid_hostname(value: &str) -> (r: bool)
    ensures
        r == hostname_ok(value@),
{
    if is_ip_address(value) {
        return true;
    }
    let pieces = split_chars_by(&chars_of(value), '.', '.');
    let ghost ps = views_of(pieces@);
    let mut i: usize = 0;
    while i < pieces.len()
        invariant
            i <= pieces@.len(),
            ps == views_of(pieces@),
            ps == dot_pieces(value@),
            !parses_as_ip(value@),
            forall|k: int| 0 <= k < i ==> label_ok(#[trigger] ps[k]),
        decreases pieces@.len() - i,
    {
        if !label_valid(&pieces[i]) {
            proof {
                assert(ps[i as int] == pieces@[i as int]@);
            }
            return false;
        }
        proof {
            assert(ps[i as int] == pieces@[i as int]@);
        }
        i += 1;
    }
    true
}

// ---------------------------------------------------------------------------
// Errors
// ---------------------------------------------------------------------------

/// Which ignore list a check concerns.
#[derive(Clone, Copy, Debug, PartialEq, Eq, Structural)]
pub enum IgnoredList {
    Apps,
    Domains,
}

/// Which reminder window a check concerns.
#[derive(Clone, Copy, Debug, PartialEq, Eq, Structural)]
pub enum ReminderWindow {
    WorkHours,
    QuietHours,
}

/// A rejected request, with its HTTP status, error code and message.
#[derive(Clone, Copy, Debug, PartialEq, Eq, Structural)]
pub enum ApiError {
    InvalidBrowserDomain,
    BrowserTitleTooLong,
    InvalidBrowserTab,
    MissingExtensionHeader,
    InvalidIdleThreshold,
    InvalidPollInterval,
    InvalidHealthReminderThreshold,
    InvalidHealthReminderTimeWindow(ReminderWindow, crate::config::TimeWindowError),
    TooManyIgnoredItems(IgnoredList),
    IgnoredItemTooLong(IgnoredList),
    InvalidDate,
    InvalidPeriod,
    InvalidMonth(MonthProblem),
    ConflictingPauseDeadline,
    InvalidPauseDuration,
    PauseDeadlineOutOfRange,
    InvalidPauseDeadline,
    InvalidRetentionDays,
    InvalidExportRange,
    InvalidExportFormat,
    ConflictingDeleteRange,
    MissingDeleteRange,
    ConfigPathUnavailable,
}

/// What is wrong with a `YYYY-MM` month.
#[derive(Clone, Copy, Debug, PartialEq, Eq, Structural)]
pub enum MonthProblem {
    Shape,
    Year,
    Month,
    Range,
}

impl IgnoredList {
    pub fn field(self) -> (r: &'static str)
        ensures
            r@ == match self {
                IgnoredList::Apps => "ignored_apps"@,
                IgnoredList::Domains => "ignored_domains"@,
            },
    {
        match self {
            IgnoredList::Apps => "ignored_apps",
            IgnoredList::Domains => "ignored_domains",
        }
    }
}

impl ReminderWindow {
    pub fn field(self) -> (r: &'static str)
        ensures
            r@ == match self {
                ReminderWindow::WorkHours => "health_reminder_work_hours"@,
                ReminderWindow::QuietHours => "health_reminder_quiet_hours"@,
            },
    {
        match self {
            ReminderWindow::WorkHours => "health_reminder_work_hours",
            ReminderWindow::QuietHours => "health_reminder_quiet_hours",
        }
    }
}

impl ApiError {
    /// The HTTP status code: 403 for a missing extension header, 400 otherwise.
    pub fn status(self) -> (r: u16)
        ensures
            r == if self == ApiError::MissingExtensionHeader {
                403u16
            } else {
                400u16
            },
    {
        match self {
            ApiError::MissingExtensionHeader => 403,
            _ => 400,
        }
    }

    pub open spec fn code_spec(self) -> Seq<char> {
        match self {
            ApiError::InvalidBrowserDomain => "invalid_browser_domain"@,
            ApiError::BrowserTitleTooLong => "browser_title_too_long"@,
            ApiError::InvalidBrowserTab => "invalid_browser_tab"@,
            ApiError::MissingExtensionHeader => "missing_extension_header"@,
            ApiError::InvalidIdleThreshold => "invalid_idle_threshold"@,
            ApiError::InvalidPollInterval => "invalid_poll_interval"@,
            ApiError::InvalidHealthReminderThreshold => "invalid_health_reminder_threshold"@,
            ApiError::InvalidHealthReminderTimeWindow(_, _) => "invalid_health_reminder_time_window"@,
            ApiError::TooManyIgnoredItems(_) => "too_many_ignored_items"@,
            ApiError::IgnoredItemTooLong(_) => "ignored_item_too_long"@,
            ApiError::InvalidDate => "invalid_date"@,
            ApiError::InvalidPeriod => "invalid_period"@,
            ApiError::InvalidMonth(_) => "invalid_month"@,
            ApiError::ConflictingPauseDeadline => "conflicting_pause_deadline"@,
            ApiError::InvalidPauseDuration => "invalid_pause_duration"@,
            ApiError::PauseDeadlineOutOfRange => "invalid_pause_duration"@,
            ApiError::InvalidPauseDeadline => "invalid_pause_deadline"@,
            ApiError::InvalidRetentionDays => "invalid_retention_days"@,
            ApiError::InvalidExportRange => "invalid_export_range"@,
            ApiError::InvalidExportFormat => "invalid_export_format"@,
            ApiError::ConflictingDeleteRange => "conflicting_delete_range"@,
            ApiError::MissingDeleteRange => "missing_delete_range"@,
            ApiError::ConfigPathUnavailable => "config_path_unavailable"@,
        }
    }

    /// The error code sent in the response body.
    pub fn code(self) -> (r: &'static str)
        ensures
            r@ == self.code_spec(),
    {
        match self {
            ApiError::InvalidBrowserDomain => "invalid_browser_domain",
            ApiError::BrowserTitleTooLong => "browser_title_too_long",
            ApiError::InvalidBrowserTab => "invalid_browser_tab",
            ApiError::MissingExtensionHeader => "missing_extension_header",
            ApiError::InvalidIdleThreshold => "invalid_idle_threshold",
            ApiError::InvalidPollInterval => "invalid_poll_interval",
            ApiError::InvalidHealthReminderThreshold => "invalid_health_reminder_threshold",
            ApiError::InvalidHealthReminderTimeWindow(_, _) => "invalid_health_reminder_time_window",
            ApiError::TooManyIgnoredItems(_) => "too_many_ignored_items",
            ApiError::IgnoredItemTooLong(_) => "ignored_item_too_long",
            ApiError::InvalidDate => "invalid_date",
            ApiError::InvalidPeriod => "invalid_period",
            ApiError::InvalidMonth(_) => "invalid_month",
            ApiError::ConflictingPauseDeadline => "conflicting_pause_deadline",
            ApiError::InvalidPauseDuration => "invalid_pause_duration",
            ApiError::PauseDeadlineOutOfRange => "invalid_pause_duration",
            ApiError::InvalidPauseDeadline => "invalid_pause_deadline",
            ApiError::InvalidRetentionDays => "invalid_retention_days",
            ApiError::InvalidExportRange => "invalid_export_range",
            ApiError::InvalidExportFormat => "invalid_export_format",
            ApiError::ConflictingDeleteRange => "conflicting_delete_range",
            ApiError::MissingDeleteRange => "missing_delete_range",
            ApiError::ConfigPathUnavailable => "config_path_unavailable",
        }
    }

    /// The human-readable message sent in the response body.
    pub open spec fn message_spec(self) -> Seq<char> {
        match self {
            ApiError::InvalidBrowserDomain => "domain must be a valid hostname with at most 253 characters"@,
            ApiError::BrowserTitleTooLong => "page_title must be at most 512 characters"@,
            ApiError::InvalidBrowserTab => "browser_window_id and tab_id must be positive"@,
            ApiError::MissingExtensionHeader => "browser events must be sent by the timeline browser extension"@,
            ApiError::InvalidIdleThreshold => "idle_threshold_secs must be between 15 and 1800 seconds"@,
            ApiError::InvalidPollInterval => "poll_interval_millis must be between 250 and 5000 milliseconds"@,
            ApiError::InvalidHealthReminderThreshold => "health_reminder_threshold_secs must be between 300 and 21600 seconds"@,
            ApiError::InvalidDate => "date must use YYYY-MM-DD"@,
            ApiError::InvalidPeriod => "period must be week or month"@,
            ApiError::ConflictingPauseDeadline => "duration_secs and until cannot be provided together"@,
            ApiError::InvalidPauseDuration => "duration_secs must be greater than zero"@,
            ApiError::PauseDeadlineOutOfRange => "pause deadline is out of range"@,
            ApiError::InvalidPauseDeadline => "until must be in the future"@,
            ApiError::InvalidRetentionDays => "retention_days must be null or between 30 and 3650"@,
            ApiError::InvalidExportRange => "export date range must be ordered and no longer than 3650 days"@,
            ApiError::InvalidExportFormat => "format must be json or csv"@,
            ApiError::ConflictingDeleteRange => "from/to must be omitted when all is true"@,
            ApiError::MissingDeleteRange => "from and to are required unless all is true"@,
            ApiError::ConfigPathUnavailable => "current agent config path is unavailable"@,
            ApiError::InvalidHealthReminderTimeWindow(w, e) => window_field(w) + window_problem(e),
            ApiError::TooManyIgnoredItems(l) => list_field(l) + " must contain at most 256 items"@,
            ApiError::IgnoredItemTooLong(l) => list_field(l) + " items must be at most 253 characters"@,
            ApiError::InvalidMonth(p) => match p {
                MonthProblem::Shape => "month must use YYYY-MM"@,
                MonthProblem::Year => "invalid year in YYYY-MM"@,
                MonthProblem::Month => "invalid month in YYYY-MM"@,
                MonthProblem::Range => "month must be 01-12"@,
            },
        }
    }

    pub fn message(self) -> (r: String)
        ensures
            r@ == self.message_spec(),
    {
        match self {
            ApiError::InvalidBrowserDomain => String::from_str("domain must be a valid hostname with at most 253 characters"),
            ApiError::BrowserTitleTooLong => String::from_str("page_title must be at most 512 characters"),
            ApiError::InvalidBrowserTab => String::from_str("browser_window_id and tab_id must be positive"),
            ApiError::MissingExtensionHeader => String::from_str("browser events must be sent by the timeline browser extension"),
            ApiError::InvalidIdleThreshold => String::from_str("idle_threshold_secs must be between 15 and 1800 seconds"),
            ApiError::InvalidPollInterval => String::from_str("poll_interval_millis must be between 250 and 5000 milliseconds"),
            ApiError::InvalidHealthReminderThreshold => String::from_str("health_reminder_threshold_secs must be between 300 and 21600 seconds"),
            ApiError::InvalidDate => String::from_str("date must use YYYY-MM-DD"),
            ApiError::InvalidPeriod => String::from_str("period must be week or month"),
            ApiError::ConflictingPauseDeadline => String::from_str("duration_secs and until cannot be provided together"),
            ApiError::InvalidPauseDuration => String::from_str("duration_secs must be greater than zero"),
            ApiError::PauseDeadlineOutOfRange => String::from_str("pause deadline is out of range"),
            ApiError::InvalidPauseDeadline => String::from_str("until must be in the future"),
            ApiError::InvalidRetentionDays => String::from_str("retention_days must be null or between 30 and 3650"),
            ApiError::InvalidExportRange => String::from_str("export date range must be ordered and no longer than 3650 days"),
            ApiError::InvalidExportFormat => String::from_str("format must be json or csv"),
            ApiError::ConflictingDeleteRange => String::from_str("from/to must be omitted when all is true"),
            ApiError::MissingDeleteRange => String::from_str("from and to are required unless all is true"),
            ApiError::ConfigPathUnavailable => String::from_str("current agent config path is unavailable"),
            ApiError::InvalidHealthReminderTimeWindow(w, e) => String::from_str(w.field()).concat(window_problem_text(e)),
            ApiError::TooManyIgnoredItems(l) => String::from_str(l.field()).concat(" must contain at most 256 items"),
            ApiError::IgnoredItemTooLong(l) => String::from_str(l.field()).concat(" items must be at most 253 characters"),
            ApiError::InvalidMonth(p) => String::from_str(match p {
                MonthProblem::Shape => "month must use YYYY-MM",
                MonthProblem::Year => "invalid year in YYYY-MM",
                MonthProblem::Month => "invalid month in YYYY-MM",
                MonthProblem::Range => "month must be 01-12",
            }),
        }
    }
}

pub open spec fn window_field(w: ReminderWindow) -> Seq<char> {
    match w {
        ReminderWindow::WorkHours => "health_reminder_work_hours"@,
        ReminderWindow::QuietHours => "health_reminder_quiet_hours"@,
    }
}

pub open spec fn list_field(l: IgnoredList) -> Seq<char> {
    match l {
        IgnoredList::Apps => "ignored_apps"@,
        IgnoredList::Domains => "ignored_domains"@,
    }
}

/// What is wrong with a reminder window, after the field name.
pub open spec fn window_problem(e: crate::config::TimeWindowError) -> Seq<char> {
    match e {
        crate::config::TimeWindowError::MissingBound => " must provide both start and end times"@,
        crate::config::TimeWindowError::InvalidStart => " start must use HH:MM"@,
        crate::config::TimeWindowError::InvalidEnd => " end must use HH:MM"@,
        crate::config::TimeWindowError::SameBounds => " start and end must differ"@,
    }
}

fn window_problem_text(e: crate::config::TimeWindowError) -> (r: &'static str)
    ensures
        r@ == window_problem(e),
{
    match e {
        crate::config::TimeWindowError::MissingBound => " must provide both start and end times",
        crate::config::TimeWindowError::InvalidStart => " start must use HH:MM",
        crate::config::TimeWindowError::InvalidEnd => " end must use HH:MM",
        crate::config::TimeWindowError::SameBounds => " start and end must differ",
    }
}

// ---------------------------------------------------------------------------
// Origins
// ---------------------------------------------------------------------------

/// Index of the first `c` in `s`, or -1.
pub open spec fn first_char_at(s: Seq<char>, c: char) -> int {
    if s.contains(c) {
        choose|i: int| is_first_index_of(s, c, i)
    } else {
        -1
    }
}

/// Index of the first occurrence of `pat` in `s`, or -1.
pub open spec fn first_at(s: Seq<char>, pat: Seq<char>) -> int {
    if occurs_spec(s, pat) {
        choose|i: int| is_first_occurrence(s, pat, i)
    } else {
        -1
    }
}

proof fn lemma_first_char_at(s: Seq<char>, c: char, i: int)
    requires
        is_first_index_of(s, c, i),
    ensures
        first_char_at(s, c) == i,
{
    assert(s.contains(c)) by {
        assert(s[i] == c);
    }
    let j = choose|j: int| is_first_index_of(s, c, j);
    if j < i {
        assert(s[j] == c);
    } else if i < j {
        assert(s[i] == c);
    }
}

proof fn lemma_first_at(s: Seq<char>, pat: Seq<char>, i: int)
    requires
        is_first_occurrence(s, pat, i),
    ensures
        first_at(s, pat) == i,
{
    let j = choose|j: int| is_first_occurrence(s, pat, j);
}

/// The text before the first `c`, or all of it.
pub open spec fn before_first(s: Seq<char>, c: char) -> Seq<char> {
    if s.contains(c) {
        s.subrange(0, first_char_at(s, c))
    } else {
        s
    }
}

fn prefix_before(s: &Vec<char>, c: char) -> (r: Vec<char>)
    ensures
        r@ == before_first(s@, c),
{
    match find_char(s, c) {
        Some(i) => {
            proof {
                lemma_first_char_at(s@, c, i as int);
                assert(s@.contains(c)) by {
                    assert(s@[i as int] == c);
                }
            }
            slice_copy(s, 0, i)
        },
        None => {
            proof {
                assert(s@.subrange(0, s@.len() as int) =~= s@);
            }
            slice_copy(s, 0, s.len())
        },
    }
}

/// The host of an authority: inside the brackets of `[host]:port` (none without
/// a closing bracket), else the text before the first colon.
pub open spec fn extract_host_spec(authority: Seq<char>) -> Option<Seq<char>> {
    if authority.len() > 0 && authority[0] == '[' {
        let rest = authority.drop_first();
        if rest.contains(']') {
            Some(rest.subrange(0, first_char_at(rest, ']')))
        } else {
            None
        }
    } else {
        Some(before_first(authority, ':'))
    }
}

/// The host part of an authority, without port and IPv6 brackets.
pub fn extract_host(authority: &str) -> (r: Option<String>)
    ensures
        match r {
            Some(h) => extract_host_spec(authority@) == Some(h@),
            None => extract_host_spec(authority@) is None,
        },
{
    let a = chars_of(authority);
    if a.len() > 0 && a[0] == '[' {
        let rest = slice_copy(&a, 1, a.len());
        proof {
            assert(rest@ =~= a@.drop_first());
        }
        match find_char(&rest, ']') {
            Some(j) => {
                proof {
                    lemma_first_char_at(rest@, ']', j as int);
                    assert(rest@.contains(']')) by {
                        assert(rest@[j as int] == ']');
                    }
                }
                Some(string_from(&slice_copy(&rest, 0, j)))
            },
            None => None,
        }
    } else {
        Some(string_from(&prefix_before(&a, ':')))
    }
}

/// An origin `http://` or `https://` whose host is `127.0.0.1`, `localhost` or `::1`.
pub open spec fn loopback_origin_spec(origin: Seq<char>) -> bool {
    let i = first_at(origin, "://"@);
    if i < 0 {
        false
    } else {
        let scheme = origin.subrange(0, i);
        let rest = origin.subrange(i + 3, origin.len() as int);
        let authority = before_first(rest, '/');
        (scheme == "http"@ || scheme == "https"@) && match extract_host_spec(authority) {
            Some(h) => h == "127.0.0.1"@ || h == "localhost"@ || h == "::1"@,
            None => false,
        }
    }
}

/// Whether a request origin (the header's text) is a local loopback page.
pub fn is_allowed_loopback_origin(origin: &str) -> (r: bool)
    ensures
        r == loopback_origin_spec(origin@),
{
    let o = chars_of(origin);
    let sep = chars_of("://");
    let i = match find(&o, &sep) {
        Some(i) => i,
        None => {
            return false;
        },
    };
    proof {
        lemma_first_at(o@, sep@, i as int);
        reveal_strlit("://");
        assert(sep@.len() == 3);
    }
    let n = o.len();
    let scheme = slice_copy(&o, 0, i);
    let rest = slice_copy(&o, i + 3, n);
    let authority = prefix_before(&rest, '/');
    let is_web = seq_equal(&scheme, &chars_of("http")) || seq_equal(&scheme, &chars_of("https"));
    if !is_web {
        return false;
    }
    match extract_host(string_from(&authority).as_str()) {
        Some(h) => {
            let hv = chars_of(h.as_str());
            seq_equal(&hv, &chars_of("127.0.0.1")) || seq_equal(&hv, &chars_of("localhost")) || seq_equal(
                &hv,
                &chars_of("::1"),
            )
        },
        None => false,
    }
}

/// The extension header carries the bridge's value. `value` is the header's text,
/// `None` when the header is absent or not text.
pub fn has_extension_header(value: Option<&str>) -> (r: bool)
    ensures
        r == (value matches Some(v) && v@ == EXTENSION_HEADER_VALUE@),
{
    match value {
        Some(v) => seq_equal(&chars_of(v), &chars_of(EXTENSION_HEADER_VALUE)),
        None => false,
    }
}

/// A browser origin is allowed when it is a loopback page, or a Chrome extension
/// that sends the extension header.
pub fn is_allowed_browser_origin(origin: &str, extension_header: Option<&str>) -> (r: bool)
    ensures
        r == (loopback_origin_spec(origin@) || (starts_with_spec(origin@, "chrome-extension://"@)
            && (extension_header matches Some(v) && v@ == EXTENSION_HEADER_VALUE@))),
{
    if is_allowed_loopback_origin(origin) {
        return true;
    }
    if starts_with(&chars_of(origin), &chars_of("chrome-extension://")) {
        return has_extension_header(extension_header);
    }
    false
}

// ---------------------------------------------------------------------------
// Browser events
// ---------------------------------------------------------------------------

/// The domain as stored: trimmed, trailing dots removed, ASCII lower case.
pub open spec fn normalized_domain(domain: Seq<char>) -> Seq<char> {
    lower_seq(trim_end_by(trim_spec(domain), char_pred('.')))
}

pub open spec fn trimmed_title(t: Option<String>) -> Option<Seq<char>> {
    match t {
        Some(s) => Some(trim_spec(s@)),
        None => None,
    }
}

/// Normalizes a browser event as it arrives: the domain trimmed, stripped of
/// trailing dots and lower-cased, the page title trimmed.
pub fn normalize_browser_payload(payload: BrowserEventPayload) -> (r: BrowserEventPayload)
    ensures
        r.domain@ == normalized_domain(payload.domain@),
        match r.page_title {
            Some(t) => trimmed_title(payload.page_title) == Some(t@),
            None => payload.page_title is None,
        },
        r.browser_window_id == payload.browser_window_id,
        r.tab_id == payload.tab_id,
        r.observed_at == payload.observed_at,
{
    let domain = string_from(&to_ascii_lowercase(&trim_end_char(&trim(&chars_of(payload.domain.as_str())), '.')));
    let page_title = match &payload.page_title {
        Some(t) => Some(string_from(&trim(&chars_of(t.as_str())))),
        None => None,
    };
    BrowserEventPayload {
        domain,
        page_title,
        browser_window_id: payload.browser_window_id,
        tab_id: payload.tab_id,
        observed_at: payload.observed_at,
    }
}

/// Which check a browser event fails first, if any: the domain (non-empty, at most
/// 253 characters, a host name), the title (at most 512 characters), the ids
/// (positive).
pub open spec fn browser_payload_problem(p: BrowserEventPayload) -> Option<ApiError> {
    if p.domain@.len() == 0 || p.domain@.len() > MAX_BROWSER_DOMAIN_LENGTH || !hostname_ok(p.domain@) {
        Some(ApiError::InvalidBrowserDomain)
    } else if (p.page_title matches Some(t) && t@.len() > MAX_BROWSER_TITLE_LENGTH) {
        Some(ApiError::BrowserTitleTooLong)
    } else if p.browser_window_id <= 0 || p.tab_id <= 0 {
        Some(ApiError::InvalidBrowserTab)
    } else {
        None
    }
}

/// Checks a normalized browser event. The domain's length is counted in
/// characters; a domain that passes is ASCII, where characters and bytes agree.
pub fn validate_browser_event_payload(payload: &BrowserEventPayload) -> (r: Result<(), ApiError>)
    ensures
        match browser_payload_problem(*payload) {
            Some(e) => r == Err::<(), ApiError>(e),
            None => r is Ok,
        },
{
    let d = chars_of(payload.domain.as_str());
    if d.len() == 0 || d.len() > MAX_BROWSER_DOMAIN_LENGTH || !is_valid_hostname(payload.domain.as_str()) {
        return Err(ApiError::InvalidBrowserDomain);
    }
    match &payload.page_title {
        Some(t) => {
            if chars_of(t.as_str()).len() > MAX_BROWSER_TITLE_LENGTH {
                return Err(ApiError::BrowserTitleTooLong);
            }
        },
        None => {},
    }
    if payload.browser_window_id <= 0 || payload.tab_id <= 0 {
        return Err(ApiError::InvalidBrowserTab);
    }
    Ok(())
}

/// The instant a browser event is recorded at: its own time when it lies at most two
/// minutes before and ten seconds after its arrival, else the arrival time.
pub fn normalize_browser_observed_at(observed_at: Option<i64>, received_at: i64) -> (r: i64)
    ensures
        r == match observed_at {
            Some(v) => if received_at - BROWSER_EVENT_MAX_PAST_SKEW <= v <= received_at
                + BROWSER_EVENT_MAX_FUTURE_SKEW {
                v
            } else {
                received_at
            },
            None => received_at,
        },
{
    match observed_at {
        Some(v) => {
            let lo = received_at as i128 - BROWSER_EVENT_MAX_PAST_SKEW as i128;
            let hi = received_at as i128 + BROWSER_EVENT_MAX_FUTURE_SKEW as i128;
            if lo <= v as i128 && v as i128 <= hi {
                v
            } else {
                received_at
            }
        },
        None => received_at,
    }
}

// ---------------------------------------------------------------------------
// Ordering of text
// ---------------------------------------------------------------------------

/// Lexicographic order of character sequences by code point (the order of `str`).
pub open spec fn lex_lt(a: Seq<char>, b: Seq<char>) -> bool
    decreases a.len(),
{
    if a.len() == 0 {
        b.len() > 0
    } else if b.len() == 0 {
        false
    } else if a[0] != b[0] {
        a[0] < b[0]
    } else {
        lex_lt(a.drop_first(), b.drop_first())
    }
}

pub(crate) proof fn lemma_lex_irreflexive(a: Seq<char>)
    ensures
        !lex_lt(a, a),
    decreases a.len(),
{
    if a.len() > 0 {
        lemma_lex_irreflexive(a.drop_first());
    }
}

pub(crate) proof fn lemma_lex_total(a: Seq<char>, b: Seq<char>)
    requires
        a != b,
    ensures
        lex_lt(a, b) || lex_lt(b, a),
    decreases a.len(),
{
    if a.len() > 0 && b.len() > 0 && a[0] == b[0] {
        if a.drop_first() == b.drop_first() {
            assert(a =~= seq![a[0]] + a.drop_first());
            assert(b =~= seq![b[0]] + b.drop_first());
        }
        lemma_lex_total(a.drop_first(), b.drop_first());
    } else if a.len() == 0 && b.len() == 0 {
        assert(a =~= b);
    }
}

pub(crate) proof fn lemma_lex_asymmetric(a: Seq<char>, b: Seq<char>)
    requires
        lex_lt(a, b),
    ensures
        !lex_lt(b, a),
    decreases a.len(),
{
    if a.len() > 0 && b.len() > 0 && a[0] == b[0] {
        lemma_lex_asymmetric(a.drop_first(), b.drop_first());
    }
}

pub(crate) proof fn lemma_lex_transitive(a: Seq<char>, b: Seq<char>, c: Seq<char>)
    requires
        lex_lt(a, b),
        lex_lt(b, c),
    ensures
        lex_lt(a, c),
    decreases a.len(),
{
    if a.len() > 0 && b.len() > 0 && c.len() > 0 && a[0] == b[0] && b[0] == c[0] {
        lemma_lex_transitive(a.drop_first(), b.drop_first(), c.drop_first());
    }
}

proof fn lemma_lex_suffix(a: Seq<char>, b: Seq<char>, i: int)
    requires
        0 <= i <= a.len(),
        i <= b.len(),
        a.subrange(0, i) == b.subrange(0, i),
    ensures
        lex_lt(a, b) == lex_lt(a.subrange(i, a.len() as int), b.subrange(i, b.len() as int)),
    decreases i,
{
    if i > 0 {
        assert(a[0] == a.subrange(0, i)[0]);
        assert(b[0] == b.subrange(0, i)[0]);
        let a1 = a.drop_first();
        let b1 = b.drop_first();
        assert(a1.subrange(0, i - 1) =~= a.subrange(1, i));
        assert(b1.subrange(0, i - 1) =~= b.subrange(1, i));
        assert(a.subrange(1, i) =~= a.subrange(0, i).drop_first());
        assert(b.subrange(1, i) =~= b.subrange(0, i).drop_first());
        lemma_lex_suffix(a1, b1, i - 1);
        assert(a1.subrange(i - 1, a1.len() as int) =~= a.subrange(i, a.len() as int));
        assert(b1.subrange(i - 1, b1.len() as int) =~= b.subrange(i, b.len() as int));
    } else {
        assert(a.subrange(0, a.len() as int) =~= a);
        assert(b.subrange(0, b.len() as int) =~= b);
    }
}

/// Whether `a` sorts before `b`.
pub fn lex_less(a: &Vec<char>, b: &Vec<char>) -> (r: bool)
    ensures
        r == lex_lt(a@, b@),
{
    let mut i: usize = 0;
    while i < a.len() && i < b.len() && a[i] == b[i]
        invariant
            i <= a@.len(),
            i <= b@.len(),
            a@.subrange(0, i as int) == b@.subrange(0, i as int),
        decreases a@.len() - i,
    {
        proof {
            assert(a@.subrange(0, i + 1) =~= a@.subrange(0, i as int).push(a@[i as int]));
            assert(b@.subrange(0, i + 1) =~= b@.subrange(0, i as int).push(b@[i as int]));
        }
        i += 1;
    }
    proof {
        lemma_lex_suffix(a@, b@, i as int);
        let a1 = a@.subrange(i as int, a@.len() as int);
        let b1 = b@.subrange(i as int, b@.len() as int);
        if i < a@.len() && i < b@.len() {
            assert(a1[0] == a@[i as int]);
            assert(b1[0] == b@[i as int]);
        }
    }
    if i == a.len() {
        i < b.len()
    } else if i == b.len() {
        false
    } else {
        a[i] < b[i]
    }
}

// ---------------------------------------------------------------------------
// Ignore lists
// ---------------------------------------------------------------------------

/// The trimmed text of an item.
pub open spec fn trimmed(s: String) -> Seq<char> {
    trim_spec(s@)
}

/// The sort key of an item: trimmed, in ASCII lower case.
pub open spec fn item_key(s: String) -> Seq<char> {
    lower_seq(trim_spec(s@))
}

/// Item `k` is the first non-blank item with its key.
#[verifier::opaque]
pub open spec fn first_with_key(items: Seq<String>, k: int) -> bool {
    &&& 0 <= k < items.len()
    &&& trimmed(items[k]).len() > 0
    &&& forall|m: int| 0 <= m < k && trimmed(#[trigger] items[m]).len() > 0 ==> item_key(items[m]) != item_key(items[k])
}

/// `s` is the trimmed text of the first non-blank item with its key.
pub open spec fn from_first_item(items: Seq<String>, s: String) -> bool {
    exists|k: int| 0 <= k < items.len() && first_with_key(items, k) && s@ == trimmed(items[k])
}

/// What `sanitize_list` returns for `items`: the trimmed non-blank items, sorted by
/// ASCII-lower-cased text, with one item per key (its first occurrence).
pub open spec fn sanitized(items: Seq<String>, r: Seq<String>) -> bool {
    &&& forall|i: int, j: int| 0 <= i < j < r.len() ==> lex_lt(lower_seq((#[trigger] r[i])@), lower_seq((#[trigger] r[j])@))
    &&& forall|i: int| 0 <= i < r.len() ==> from_first_item(items, #[trigger] r[i])
    &&& forall|k: int| 0 <= k < items.len() && trimmed(#[trigger] items[k]).len() > 0 ==> exists|i: int|
        0 <= i < r.len() && lower_seq((#[trigger] r[i])@) == item_key(items[k])
}

/// The state of `sanitize_list` after the first `k` items: `keys` are the lower-cased
/// texts of `out`, strictly ascending; `out[i]` is the trimmed text of item `src[i]`,
/// the first occurrence of its key; every key seen so far is kept.
pub open spec fn sanitize_state(items: Seq<String>, k: int, keys: Seq<Seq<char>>, out: Seq<String>, src: Seq<int>) -> bool {
    &&& 0 <= k <= items.len()
    &&& keys.len() == out.len()
    &&& src.len() == out.len()
    &&& forall|i: int| 0 <= i < out.len() ==> (#[trigger] keys[i]) == lower_seq(out[i]@)
    &&& forall|i: int, j: int| 0 <= i < j < keys.len() ==> lex_lt(#[trigger] keys[i], #[trigger] keys[j])
    &&& forall|i: int| 0 <= i < src.len() ==> 0 <= #[trigger] src[i] < k && first_with_key(items, src[i]) && out[i]@ == trimmed(items[src[i]])
    &&& forall|m: int| 0 <= m < k && trimmed(#[trigger] items[m]).len() > 0 ==> exists|i: int|
        0 <= i < keys.len() && (#[trigger] keys[i]) == item_key(items[m])
}

proof fn lemma_sanitize_blank(items: Seq<String>, k: int, keys: Seq<Seq<char>>, out: Seq<String>, src: Seq<int>)
    requires
        sanitize_state(items, k, keys, out, src),
        k < items.len(),
        trimmed(items[k]).len() == 0,
    ensures
        sanitize_state(items, k + 1, keys, out, src),
{
}

proof fn lemma_sanitize_present(items: Seq<String>, k: int, keys: Seq<Seq<char>>, out: Seq<String>, src: Seq<int>, p: int)
    requires
        sanitize_state(items, k, keys, out, src),
        k < items.len(),
        trimmed(items[k]).len() > 0,
        0 <= p < keys.len(),
        keys[p] == item_key(items[k]),
    ensures
        sanitize_state(items, k + 1, keys, out, src),
{
    assert forall|m: int| 0 <= m < k + 1 && trimmed(#[trigger] items[m]).len() > 0 implies exists|i: int|
        0 <= i < keys.len() && (#[trigger] keys[i]) == item_key(items[m]) by {
        if m == k {
            assert(keys[p] == item_key(items[m]));
        }
    }
}

proof fn lemma_sanitize_insert(items: Seq<String>, k: int, keys: Seq<Seq<char>>, out: Seq<String>, src: Seq<int>, p: int, s: String)
    requires
        sanitize_state(items, k, keys, out, src),
        k < items.len(),
        s@ == trimmed(items[k]),
        s@.len() > 0,
        0 <= p <= keys.len(),
        forall|i: int| 0 <= i < p ==> lex_lt(#[trigger] keys[i], item_key(items[k])),
        p < keys.len() ==> !lex_lt(keys[p], item_key(items[k])) && keys[p] != item_key(items[k]),
    ensures
        sanitize_state(items, k + 1, keys.insert(p, item_key(items[k])), out.insert(p, s), src.insert(p, k)),
{
    let key = item_key(items[k]);
    let nk = keys.insert(p, key);
    let no = out.insert(p, s);
    let ns = src.insert(p, k);
    assert forall|i: int| p <= i < keys.len() implies lex_lt(key, #[trigger] keys[i]) by {
        lemma_lex_total(keys[p], key);
        if i > p {
            lemma_lex_transitive(key, keys[p], keys[i]);
        }
    }
    assert forall|i: int| 0 <= i < keys.len() implies #[trigger] keys[i] != key by {
        lemma_lex_irreflexive(key);
    }
    assert forall|i: int| 0 <= i < no.len() implies (#[trigger] nk[i]) == lower_seq(no[i]@) by {
        if i < p {
            assert(nk[i] == keys[i] && no[i] == out[i]);
        } else if i > p {
            assert(nk[i] == keys[i - 1] && no[i] == out[i - 1]);
        }
    }
    assert forall|i: int, j: int| 0 <= i < j < nk.len() implies lex_lt(#[trigger] nk[i], #[trigger] nk[j]) by {
        if j < p {
            assert(nk[i] == keys[i] && nk[j] == keys[j]);
        } else if j == p {
            assert(nk[i] == keys[i]);
        } else if i < p {
            assert(nk[i] == keys[i] && nk[j] == keys[j - 1]);
            lemma_lex_transitive(keys[i], key, keys[j - 1]);
        } else if i == p {
            assert(nk[j] == keys[j - 1]);
        } else {
            assert(nk[i] == keys[i - 1] && nk[j] == keys[j - 1]);
        }
    }
    assert(first_with_key(items, k)) by {
        reveal(first_with_key);
        assert forall|m: int| 0 <= m < k && trimmed(#[trigger] items[m]).len() > 0 implies item_key(items[m]) != item_key(items[k]) by {
            let i = choose|i: int| 0 <= i < keys.len() && (#[trigger] keys[i]) == item_key(items[m]);
            assert(keys[i] != key);
        }
    }
    assert forall|i: int| 0 <= i < ns.len() implies 0 <= #[trigger] ns[i] < k + 1 && first_with_key(items, ns[i]) && no[i]@ == trimmed(items[ns[i]]) by {
        if i < p {
            assert(ns[i] == src[i] && no[i] == out[i]);
        } else if i > p {
            assert(ns[i] == src[i - 1] && no[i] == out[i - 1]);
        }
    }
    assert forall|m: int| 0 <= m < k + 1 && trimmed(#[trigger] items[m]).len() > 0 implies exists|i: int|
        0 <= i < nk.len() && (#[trigger] nk[i]) == item_key(items[m]) by {
        if m < k {
            let i = choose|i: int| 0 <= i < keys.len() && (#[trigger] keys[i]) == item_key(items[m]);
            if i < p {
                assert(nk[i] == keys[i]);
            } else {
                assert(nk[i + 1] == keys[i]);
            }
        } else {
            assert(nk[p] == item_key(items[m]));
        }
    }
}

proof fn lemma_sanitize_done(items: Seq<String>, keys: Seq<Seq<char>>, out: Seq<String>, src: Seq<int>)
    requires
        sanitize_state(items, items.len() as int, keys, out, src),
    ensures
        sanitized(items, out),
{
    assert forall|i: int, j: int| 0 <= i < j < out.len() implies lex_lt(lower_seq((#[trigger] out[i])@), lower_seq((#[trigger] out[j])@)) by {
        assert(keys[i] == lower_seq(out[i]@));
        assert(keys[j] == lower_seq(out[j]@));
    }
    assert forall|i: int| 0 <= i < out.len() implies from_first_item(items, #[trigger] out[i]) by {
        let w = src[i];
        assert(0 <= w < items.len());
        assert(first_with_key(items, w) && out[i]@ == trimmed(items[w]));
    }
    assert forall|m: int| 0 <= m < items.len() && trimmed(#[trigger] items[m]).len() > 0 implies exists|i: int|
        0 <= i < out.len() && lower_seq((#[trigger] out[i])@) == item_key(items[m]) by {
        let i = choose|i: int| 0 <= i < keys.len() && (#[trigger] keys[i]) == item_key(items[m]);
        assert(keys[i] == lower_seq(out[i]@));
    }
}

/// Trims the items, drops blank ones, sorts them by lower-cased text and keeps one
/// of each key (ignoring ASCII case), the first given.
pub fn sanitize_list(items: Vec<String>) -> (r: Vec<String>)
    ensures
        sanitized(items@, r@),
{
    let mut out: Vec<String> = Vec::new();
    let mut keys: Vec<Vec<char>> = Vec::new();
    let ghost mut src: Seq<int> = Seq::empty();
    let mut k: usize = 0;
    proof {
        assert(views_of(keys@) =~= Seq::<Seq<char>>::empty());
    }
    while k < items.len()
        invariant
            sanitize_state(items@, k as int, views_of(keys@), out@, src),
        decreases items@.len() - k,
    {
        let t = trim(&chars_of(items[k].as_str()));
        let ghost kv = views_of(keys@);
        if t.len() > 0 {
            let key = to_ascii_lowercase(&t);
            let mut p: usize = 0;
            while p < keys.len() && lex_less(&keys[p], &key)
                invariant
                    p <= keys@.len(),
                    kv == views_of(keys@),
                    forall|i: int| 0 <= i < p ==> lex_lt(#[trigger] kv[i], key@),
                decreases keys@.len() - p,
            {
                proof {
                    assert(kv[p as int] == keys@[p as int]@);
                }
                p += 1;
            }
            let present = p < keys.len() && seq_equal(&keys[p], &key);
            proof {
                if p < keys@.len() {
                    assert(kv[p as int] == keys@[p as int]@);
                }
            }
            if present {
                proof {
                    lemma_sanitize_present(items@, k as int, kv, out@, src, p as int);
                }
            } else {
                let s = string_from(&t);
                proof {
                    lemma_sanitize_insert(items@, k as int, kv, out@, src, p as int, s);
                    src = src.insert(p as int, k as int);
                }
                keys.insert(p, key);
                out.insert(p, s);
                proof {
                    assert(views_of(keys@) =~= kv.insert(p as int, key@));
                }
            }
        } else {
            proof {
                lemma_sanitize_blank(items@, k as int, kv, out@, src);
            }
        }
        k += 1;
    }
    proof {
        lemma_sanitize_done(items@, views_of(keys@), out@, src);
    }
    out
}

/// Which check an ignore list fails, if any: at most 256 items, each at most 253
/// characters once trimmed.
pub open spec fn ignored_list_problem(list: IgnoredList, items: Seq<String>) -> Option<ApiError> {
    if items.len() > MAX_IGNORED_ITEMS {
        Some(ApiError::TooManyIgnoredItems(list))
    } else if exists|i: int| 0 <= i < items.len() && trimmed(#[trigger] items[i]).len() > MAX_IGNORED_ITEM_LENGTH {
        Some(ApiError::IgnoredItemTooLong(list))
    } else {
        None
    }
}

pub fn validate_ignored_list(list: IgnoredList, items: &Vec<String>) -> (r: Result<(), ApiError>)
    ensures
        match ignored_list_problem(list, items@) {
            Some(e) => r == Err::<(), ApiError>(e),
            None => r is Ok,
        },
{
    if items.len() > MAX_IGNORED_ITEMS {
        return Err(ApiError::TooManyIgnoredItems(list));
    }
    let mut i: usize = 0;
    while i < items.len()
        invariant
            i <= items@.len(),
            items@.len() <= MAX_IGNORED_ITEMS,
            forall|k: int| 0 <= k < i ==> trimmed(#[trigger] items@[k]).len() <= MAX_IGNORED_ITEM_LENGTH,
        decreases items@.len() - i,
    {
        if trim(&chars_of(items[i].as_str())).len() > MAX_IGNORED_ITEM_LENGTH {
            return Err(ApiError::IgnoredItemTooLong(list));
        }
        i += 1;
    }
    Ok(())
}

// ---------------------------------------------------------------------------
// Collector status
// ---------------------------------------------------------------------------

/// How a collector is doing, as the settings page shows it.
#[derive(Clone, Debug)]
pub struct AgentMonitorStatus {
    pub key: String,
    pub label: String,
    pub status: String,
    pub detail: String,
    pub last_seen: Option<i64>,
    pub last_error: Option<String>,
    pub consecutive_failures: u32,
    pub restart_count: u64,
}

/// The status entry of one collector from its probe; `freshness` is how long, in
/// seconds, a success counts as recent at `now`.
pub fn monitor_status(key: &str, label: &str, probe: &MonitorProbe, freshness: i64, now: i64, detail: &str) -> (r:
    AgentMonitorStatus)
    ensures
        r.key@ == key@,
        r.label@ == label@,
        r.status@ == probe.status_spec(freshness as int, now as int),
        r.detail@ == detail@,
        r.last_seen == probe.last_seen,
        r.last_error == probe.last_error,
        r.consecutive_failures == probe.consecutive_failures,
        r.restart_count == probe.restart_count,
{
    AgentMonitorStatus {
        key: String::from_str(key),
        label: String::from_str(label),
        status: String::from_str(probe.status(freshness, now)),
        detail: String::from_str(detail),
        last_seen: probe.last_seen,
        last_error: match &probe.last_error {
            Some(e) => Some(e.clone()),
            None => None,
        },
        consecutive_failures: probe.consecutive_failures,
        restart_count: probe.restart_count,
    }
}

/// Seconds without a heartbeat after which a polling collector counts as stale:
/// four poll intervals, rounded down to whole seconds.
pub fn poll_freshness_seconds(poll_interval_millis: u64) -> (r: i64)
    requires
        poll_interval_millis <= u64::MAX / 4,
    ensures
        r == (poll_interval_millis * 4) / 1000,
{
    ((poll_interval_millis * 4) / 1000) as i64
}

/// How long, in milliseconds, an open segment is shown past its last observation:
/// four poll intervals.
pub fn open_segment_grace_millis(poll_interval_millis: u64) -> (r: i64)
    requires
        poll_interval_millis * 4 <= i64::MAX,
    ensures
        r == poll_interval_millis * 4,
{
    (poll_interval_millis * 4) as i64
}

// ---------------------------------------------------------------------------
// Settings updates
// ---------------------------------------------------------------------------

/// A settings update sent by the web UI.
#[derive(Clone, Debug)]
pub struct UpdateAgentConfigRequest {
    pub idle_threshold_secs: u64,
    pub poll_interval_millis: u64,
    pub health_reminder_enabled: bool,
    pub health_reminder_threshold_secs: u64,
    pub health_reminder_work_start: Option<String>,
    pub health_reminder_work_end: Option<String>,
    pub health_reminder_quiet_start: Option<String>,
    pub health_reminder_quiet_end: Option<String>,
    pub record_window_titles: bool,
    pub record_page_titles: bool,
    pub ignored_apps: Vec<String>,
    pub ignored_domains: Vec<String>,
}

/// Which check a settings update fails first, if any: idle threshold 15..=1800 s,
/// poll interval 250..=5000 ms, reminder threshold 300..=21600 s, the work and quiet
/// windows, then the two ignore lists.
pub open spec fn config_update_problem(p: UpdateAgentConfigRequest) -> Option<ApiError> {
    if !(15 <= p.idle_threshold_secs <= 1800) {
        Some(ApiError::InvalidIdleThreshold)
    } else if !(250 <= p.poll_interval_millis <= 5000) {
        Some(ApiError::InvalidPollInterval)
    } else if !(300 <= p.health_reminder_threshold_secs <= 21600) {
        Some(ApiError::InvalidHealthReminderThreshold)
    } else if window_outcome(opt_view(p.health_reminder_work_start), opt_view(p.health_reminder_work_end)) is Err {
        Some(ApiError::InvalidHealthReminderTimeWindow(
            ReminderWindow::WorkHours,
            window_outcome(opt_view(p.health_reminder_work_start), opt_view(p.health_reminder_work_end))->Err_0,
        ))
    } else if window_outcome(opt_view(p.health_reminder_quiet_start), opt_view(p.health_reminder_quiet_end)) is Err {
        Some(ApiError::InvalidHealthReminderTimeWindow(
            ReminderWindow::QuietHours,
            window_outcome(opt_view(p.health_reminder_quiet_start), opt_view(p.health_reminder_quiet_end))->Err_0,
        ))
    } else if ignored_list_problem(IgnoredList::Apps, p.ignored_apps@) is Some {
        ignored_list_problem(IgnoredList::Apps, p.ignored_apps@)
    } else {
        ignored_list_problem(IgnoredList::Domains, p.ignored_domains@)
    }
}

fn opt_as_str(v: &Option<String>) -> (r: Option<&str>)
    ensures
        match r {
            Some(s) => opt_view(*v) == Some(s@),
            None => opt_view(*v) is None,
        },
{
    match v {
        Some(s) => Some(s.as_str()),
        None => None,
    }
}

pub fn validate_agent_config_payload(payload: &UpdateAgentConfigRequest) -> (r: Result<(), ApiError>)
    ensures
        match config_update_problem(*payload) {
            Some(e) => r == Err::<(), ApiError>(e),
            None => r is Ok,
        },
{
    if !(15 <= payload.idle_threshold_secs && payload.idle_threshold_secs <= 1800) {
        return Err(ApiError::InvalidIdleThreshold);
    }
    if !(250 <= payload.poll_interval_millis && payload.poll_interval_millis <= 5000) {
        return Err(ApiError::InvalidPollInterval);
    }
    if !(300 <= payload.health_reminder_threshold_secs && payload.health_reminder_threshold_secs <= 21600) {
        return Err(ApiError::InvalidHealthReminderThreshold);
    }
    match validate_optional_time_window(
        opt_as_str(&payload.health_reminder_work_start),
        opt_as_str(&payload.health_reminder_work_end),
    ) {
        Err(e) => return Err(ApiError::InvalidHealthReminderTimeWindow(ReminderWindow::WorkHours, e)),
        Ok(_) => {},
    }
    match validate_optional_time_window(
        opt_as_str(&payload.health_reminder_quiet_start),
        opt_as_str(&payload.health_reminder_quiet_end),
    ) {
        Err(e) => return Err(ApiError::InvalidHealthReminderTimeWindow(ReminderWindow::QuietHours, e)),
        Ok(_) => {},
    }
    validate_ignored_list(IgnoredList::Apps, &payload.ignored_apps)?;
    validate_ignored_list(IgnoredList::Domains, &payload.ignored_domains)?;
    Ok(())
}

/// Trims an optional `HH:MM` bound from a settings update and drops it when blank.
pub fn normalize_optional_config_time(value: Option<&str>) -> (r: Option<String>)
    ensures
        match r {
            Some(s) => normalized_time(opt_str_view(value)) == Some(s@),
            None => normalized_time(opt_str_view(value)) is None,
        },
{
    normalize_time_value(value)
}

/// Applies a validated settings update to the configuration: thresholds, polling,
/// reminder switch and threshold, title recording and the sanitized ignore lists
/// are replaced; a reminder window is replaced (each bound trimmed, blank ones
/// dropped) only when the update names one of its bounds.
pub fn apply_agent_config_update(config: &mut AppConfig, payload: UpdateAgentConfigRequest)
    ensures
        final(config).idle_threshold_secs == payload.idle_threshold_secs,
        final(config).poll_interval_millis == payload.poll_interval_millis,
        final(config).health_reminder_enabled == payload.health_reminder_enabled,
        final(config).health_reminder_threshold_secs == payload.health_reminder_threshold_secs,
        (payload.health_reminder_work_start is Some || payload.health_reminder_work_end is Some) ==> {
            &&& opt_view(final(config).health_reminder_work_start) == normalized_time(opt_view(payload.health_reminder_work_start))
            &&& opt_view(final(config).health_reminder_work_end) == normalized_time(opt_view(payload.health_reminder_work_end))
        },
        !(payload.health_reminder_work_start is Some || payload.health_reminder_work_end is Some) ==> {
            &&& final(config).health_reminder_work_start == old(config).health_reminder_work_start
            &&& final(config).health_reminder_work_end == old(config).health_reminder_work_end
        },
        (payload.health_reminder_quiet_start is Some || payload.health_reminder_quiet_end is Some) ==> {
            &&& opt_view(final(config).health_reminder_quiet_start) == normalized_time(opt_view(payload.health_reminder_quiet_start))
            &&& opt_view(final(config).health_reminder_quiet_end) == normalized_time(opt_view(payload.health_reminder_quiet_end))
        },
        !(payload.health_reminder_quiet_start is Some || payload.health_reminder_quiet_end is Some) ==> {
            &&& final(config).health_reminder_quiet_start == old(config).health_reminder_quiet_start
            &&& final(config).health_reminder_quiet_end == old(config).health_reminder_quiet_end
        },
        final(config).record_window_titles == payload.record_window_titles,
        final(config).record_page_titles == payload.record_page_titles,
        sanitized(payload.ignored_apps@, final(config).ignored_apps@),
        sanitized(payload.ignored_domains@, final(config).ignored_domains@),
        final(config).database_path == old(config).database_path,
        final(config).lockfile_path == old(config).lockfile_path,
        final(config).listen_addr == old(config).listen_addr,
        final(config).web_ui_url == old(config).web_ui_url,
        final(config).debug == old(config).debug,
        final(config).tray_enabled == old(config).tray_enabled,
        final(config).persisted_database_path == old(config).persisted_database_path,
        final(config).persisted_lockfile_path == old(config).persisted_lockfile_path,
{
    config.idle_threshold_secs = payload.idle_threshold_secs;
    config.poll_interval_millis = payload.poll_interval_millis;
    config.health_reminder_enabled = payload.health_reminder_enabled;
    config.health_reminder_threshold_secs = payload.health_reminder_threshold_secs;
    if payload.health_reminder_work_start.is_some() || payload.health_reminder_work_end.is_some() {
        config.health_reminder_work_start = normalize_time_value(opt_as_str(&payload.health_reminder_work_start));
        config.health_reminder_work_end = normalize_time_value(opt_as_str(&payload.health_reminder_work_end));
    }
    if payload.health_reminder_quiet_start.is_some() || payload.health_reminder_quiet_end.is_some() {
        config.health_reminder_quiet_start = normalize_time_value(opt_as_str(&payload.health_reminder_quiet_start));
        config.health_reminder_quiet_end = normalize_time_value(opt_as_str(&payload.health_reminder_quiet_end));
    }
    config.record_window_titles = payload.record_window_titles;
    config.record_page_titles = payload.record_page_titles;
    config.ignored_apps = sanitize_list(payload.ignored_apps);
    config.ignored_domains = sanitize_list(payload.ignored_domains);
}

// ---------------------------------------------------------------------------
// Query parameters and requests
// ---------------------------------------------------------------------------

/// Parses a `YYYY-MM-DD` date parameter into a day number.
pub fn parse_date_param(value: &str) -> (r: Result<i64, ApiError>)
    ensures
        match r {
            Ok(d) => calendar_date_of(value@) == Some(d as int),
            Err(e) => calendar_date_of(value@) is None && e == ApiError::InvalidDate,
        },
{
    match parse_calendar_date(value) {
        Some(d) => Ok(d),
        None => Err(ApiError::InvalidDate),
    }
}

/// The requested date, or `today` when none is given.
pub fn parse_or_today(value: Option<&str>, today: i64) -> (r: Result<i64, ApiError>)
    ensures
        match value {
            None => r == Ok::<i64, ApiError>(today),
            Some(v) => match r {
                Ok(d) => calendar_date_of(v@) == Some(d as int),
                Err(e) => calendar_date_of(v@) is None && e == ApiError::InvalidDate,
            },
        },
{
    match value {
        Some(v) => parse_date_param(v),
        None => Ok(today),
    }
}

/// The span of an application usage trend.
#[derive(Clone, Copy, Debug, PartialEq, Eq, Structural)]
pub enum TrendPeriod {
    Week,
    Month,
}

/// `week` (the default) or `month`.
pub fn parse_trend_period(value: Option<&str>) -> (r: Result<TrendPeriod, ApiError>)
    ensures
        match value {
            None => r == Ok::<TrendPeriod, ApiError>(TrendPeriod::Week),
            Some(v) => if v@ == "week"@ {
                r == Ok::<TrendPeriod, ApiError>(TrendPeriod::Week)
            } else if v@ == "month"@ {
                r == Ok::<TrendPeriod, ApiError>(TrendPeriod::Month)
            } else {
                r == Err::<TrendPeriod, ApiError>(ApiError::InvalidPeriod)
            },
        },
{
    let v = match value {
        Some(v) => chars_of(v),
        None => return Ok(TrendPeriod::Week),
    };
    if seq_equal(&v, &chars_of("week")) {
        Ok(TrendPeriod::Week)
    } else if seq_equal(&v, &chars_of("month")) {
        Ok(TrendPeriod::Month)
    } else {
        Err(ApiError::InvalidPeriod)
    }
}

pub open spec fn dash_pieces(v: Seq<char>) -> Seq<Seq<char>> {
    split_on(v, |c: char| c == '-' || c == '-')
}

/// The outcome of parsing a `YYYY-MM` month: exactly two dash-separated parts, a
/// signed year, an unsigned month, and a month from 1 to 12.
pub open spec fn month_param_spec(v: Seq<char>) -> Result<(int, int), MonthProblem> {
    let parts = dash_pieces(v);
    if parts.len() != 2 {
        Err(MonthProblem::Shape)
    } else {
        match parse_signed_spec(parts[0], i32::MIN as int, i32::MAX as int) {
            None => Err(MonthProblem::Year),
            Some(y) => match parse_unsigned_spec(parts[1], u8::MAX as int) {
                None => Err(MonthProblem::Month),
                Some(m) => if 1 <= m <= 12 {
                    Ok((y, m))
                } else {
                    Err(MonthProblem::Range)
                },
            },
        }
    }
}

/// The requested `YYYY-MM` month as (year, month 1..=12), or `current` when none is
/// given.
pub fn parse_or_current_month(value: Option<&str>, current: (i32, u8)) -> (r: Result<(i32, u8), ApiError>)
    ensures
        match value {
            None => r == Ok::<(i32, u8), ApiError>(current),
            Some(v) => match month_param_spec(v@) {
                Ok((y, m)) => r == Ok::<(i32, u8), ApiError>((y as i32, m as u8)),
                Err(p) => r == Err::<(i32, u8), ApiError>(ApiError::InvalidMonth(p)),
            },
        },
{
    let v = match value {
        Some(v) => chars_of(v),
        None => return Ok(current),
    };
    let parts = split_chars_by(&v, '-', '-');
    proof {
        assert(views_of(parts@) == dash_pieces(v@));
    }
    if parts.len() != 2 {
        return Err(ApiError::InvalidMonth(MonthProblem::Shape));
    }
    proof {
        assert(views_of(parts@)[0] == parts@[0]@);
        assert(views_of(parts@)[1] == parts@[1]@);
    }
    let year = match parse_i32(&parts[0]) {
        Some(y) => y,
        None => return Err(ApiError::InvalidMonth(MonthProblem::Year)),
    };
    let month = match parse_u8(&parts[1]) {
        Some(m) => m,
        None => return Err(ApiError::InvalidMonth(MonthProblem::Month)),
    };
    if month < 1 || month > 12 {
        return Err(ApiError::InvalidMonth(MonthProblem::Range));
    }
    Ok((year, month))
}

/// Longest pause that a duration can ask for: thirty days.
pub const MAX_PAUSE_SECONDS: u64 = 2_592_000;

/// The end of a requested pause, from a duration in seconds (capped at thirty days)
/// or an instant, measured from `now`; neither gives a pause without end.
pub open spec fn pause_deadline_spec(duration_secs: Option<u64>, until: Option<i64>, now: int) -> Result<Option<int>, ApiError> {
    if duration_secs is Some && until is Some {
        Err(ApiError::ConflictingPauseDeadline)
    } else if duration_secs == Some(0u64) {
        Err(ApiError::InvalidPauseDuration)
    } else {
        match duration_secs {
            Some(secs) => {
                let end = now + if secs < MAX_PAUSE_SECONDS { secs as int } else { MAX_PAUSE_SECONDS as int };
                if valid_instant(end) {
                    Ok(Some(end))
                } else {
                    Err(ApiError::PauseDeadlineOutOfRange)
                }
            },
            None => match until {
                Some(u) => if u <= now {
                    Err(ApiError::InvalidPauseDeadline)
                } else {
                    Ok(Some(u as int))
                },
                None => Ok(None),
            },
        }
    }
}

pub fn pause_deadline(duration_secs: Option<u64>, until: Option<i64>, now: i64) -> (r: Result<Option<i64>, ApiError>)
    requires
        valid_instant(now as int),
    ensures
        match pause_deadline_spec(duration_secs, until, now as int) {
            Ok(Some(end)) => r == Ok::<Option<i64>, ApiError>(Some(end as i64)),
            Ok(None) => r == Ok::<Option<i64>, ApiError>(None),
            Err(e) => r == Err::<Option<i64>, ApiError>(e),
        },
{
    if duration_secs.is_some() && until.is_some() {
        return Err(ApiError::ConflictingPauseDeadline);
    }
    match duration_secs {
        Some(secs) => {
            if secs == 0 {
                return Err(ApiError::InvalidPauseDuration);
            }
            let capped: u64 = if secs < MAX_PAUSE_SECONDS {
                secs
            } else {
                MAX_PAUSE_SECONDS
            };
            let end: i64 = now + capped as i64;
            if end < MIN_INSTANT || end > MAX_INSTANT {
                return Err(ApiError::PauseDeadlineOutOfRange);
            }
            Ok(Some(end))
        },
        None => match until {
            Some(u) => {
                if u <= now {
                    Err(ApiError::InvalidPauseDeadline)
                } else {
                    Ok(Some(u))
                }
            },
            None => Ok(None),
        },
    }
}

/// Retention is off (`None`) or 30 to 3650 days.
pub fn validate_retention_days(retention_days: Option<u32>) -> (r: Result<(), ApiError>)
    ensures
        (retention_days matches Some(d) && !(30 <= d <= 3650)) ==> r == Err::<(), ApiError>(ApiError::InvalidRetentionDays),
        !(retention_days matches Some(d) && !(30 <= d <= 3650)) ==> r is Ok,
{
    match retention_days {
        Some(d) => {
            if d < 30 || d > 3650 {
                Err(ApiError::InvalidRetentionDays)
            } else {
                Ok(())
            }
        },
        None => Ok(()),
    }
}

/// An export covers an ordered range of at most 3650 days after its first.
pub fn validate_export_range(from: i64, to: i64) -> (r: Result<(), ApiError>)
    ensures
        (to < from || to - from > 3650) ==> r == Err::<(), ApiError>(ApiError::InvalidExportRange),
        !(to < from || to - from > 3650) ==> r is Ok,
{
    if to < from || (to as i128) - (from as i128) > 3650 {
        Err(ApiError::InvalidExportRange)
    } else {
        Ok(())
    }
}

/// The two export encodings.
#[derive(Clone, Copy, Debug, PartialEq, Eq, Structural)]
pub enum ExportFormat {
    Json,
    Csv,
}

impl ExportFormat {
    pub open spec fn extension_spec(self) -> Seq<char> {
        match self {
            ExportFormat::Json => "json"@,
            ExportFormat::Csv => "zip"@,
        }
    }

    /// The file extension of the download.
    pub fn extension(self) -> (r: &'static str)
        ensures
            r@ == self.extension_spec(),
    {
        match self {
            ExportFormat::Json => "json",
            ExportFormat::Csv => "zip",
        }
    }

    /// The content type of the download.
    pub fn content_type(self) -> (r: &'static str)
        ensures
            r@ == match self {
                ExportFormat::Json => "application/json; charset=utf-8"@,
                ExportFormat::Csv => "application/zip"@,
            },
    {
        match self {
            ExportFormat::Json => "application/json; charset=utf-8",
            ExportFormat::Csv => "application/zip",
        }
    }
}

/// `json` (the default) or `csv`.
pub fn parse_export_format(value: Option<&str>) -> (r: Result<ExportFormat, ApiError>)
    ensures
        match value {
            None => r == Ok::<ExportFormat, ApiError>(ExportFormat::Json),
            Some(v) => if v@ == "json"@ {
                r == Ok::<ExportFormat, ApiError>(ExportFormat::Json)
            } else if v@ == "csv"@ {
                r == Ok::<ExportFormat, ApiError>(ExportFormat::Csv)
            } else {
                r == Err::<ExportFormat, ApiError>(ApiError::InvalidExportFormat)
            },
        },
{
    let v = match value {
        Some(v) => chars_of(v),
        None => return Ok(ExportFormat::Json),
    };
    if seq_equal(&v, &chars_of("json")) {
        Ok(ExportFormat::Json)
    } else if seq_equal(&v, &chars_of("csv")) {
        Ok(ExportFormat::Csv)
    } else {
        Err(ApiError::InvalidExportFormat)
    }
}

/// `Content-Disposition` of an export: `attachment; filename=timeline-FROM-TO.EXT`,
/// with the dates as the request gave them.
pub fn export_disposition(from: &str, to: &str, format: ExportFormat) -> (r: String)
    ensures
        r@ == "attachment; filename=timeline-"@ + from@ + "-"@ + to@ + "."@ + format.extension_spec(),
{
    let head = String::from_str("attachment; filename=timeline-");
    let a = head.concat(from);
    let b = a.concat("-");
    let c = b.concat(to);
    let d = c.concat(".");
    d.concat(format.extension())
}

/// What a delete request removes.
#[derive(Clone, Copy, Debug, PartialEq, Eq, Structural)]
pub enum DeleteScope {
    All,
    Range(i64, i64),
}

/// A delete request names either all data or a `from`/`to` range of dates, never
/// both.
pub fn validate_delete_request(all: bool, from: Option<&str>, to: Option<&str>) -> (r: Result<DeleteScope, ApiError>)
    ensures
        all && (from is Some || to is Some) ==> r == Err::<DeleteScope, ApiError>(ApiError::ConflictingDeleteRange),
        all && from is None && to is None ==> r == Ok::<DeleteScope, ApiError>(DeleteScope::All),
        !all ==> match (from, to) {
            (Some(f), Some(t)) => match (calendar_date_of(f@), calendar_date_of(t@)) {
                (Some(a), Some(b)) => r == Ok::<DeleteScope, ApiError>(DeleteScope::Range(a as i64, b as i64)),
                _ => r == Err::<DeleteScope, ApiError>(ApiError::InvalidDate),
            },
            (Some(f), None) => r == Err::<DeleteScope, ApiError>(if calendar_date_of(f@) is None {
                ApiError::InvalidDate
            } else {
                ApiError::MissingDeleteRange
            }),
            (None, Some(t)) => r == Err::<DeleteScope, ApiError>(if calendar_date_of(t@) is None {
                ApiError::InvalidDate
            } else {
                ApiError::MissingDeleteRange
            }),
            (None, None) => r == Err::<DeleteScope, ApiError>(ApiError::MissingDeleteRange),
        },
{
    if all && (from.is_some() || to.is_some()) {
        return Err(ApiError::ConflictingDeleteRange);
    }
    let from_date = match from {
        Some(f) => Some(parse_date_param(f)?),
        None => None,
    };
    let to_date = match to {
        Some(t) => Some(parse_date_param(t)?),
        None => None,
    };
    if all {
        return Ok(DeleteScope::All);
    }
    match (from_date, to_date) {
        (Some(a), Some(b)) => Ok(DeleteScope::Range(a, b)),
        _ => Err(ApiError::MissingDeleteRange),
    }
}

} // verus!
