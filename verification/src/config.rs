//! Backend configuration: defaults, the self-hosted web UI address, path resolution
//! against the runtime root, search candidates, and validation of the listen
//! address and the reminder time windows.

use vstd::prelude::*;
use crate::text::{
    contains, occurs_spec, chars_of, string_from, trim, trim_start_char, trim_end_char, seq_equal, contains_char,
    rfind_char, slice_copy, concat, trim_spec, trim_start_by, trim_end_by, char_pred,
    eq_ignore_ascii_case, eq_ignore_case_spec,
};
use crate::paths::{is_absolute, join, parent, file_name, paths_equal, is_absolute_spec, join_spec,
    parent_spec, file_name_spec, same_path};
use crate::clock::{parse_clock_time, clock_seconds_of};

verus! {

pub const DEFAULT_LISTEN_ADDR: &'static str = "127.0.0.1:46215";

pub const DEFAULT_WEB_UI_URL: &'static str = "http://127.0.0.1:46215/#/stats";

/// The address the web UI used to be served from during development.
pub const LEGACY_DEV_WEB_UI_URL: &'static str = "http://127.0.0.1:4173/#/stats";

pub const DEFAULT_CONFIG_PATH: &'static str = "config/timeline.toml";

pub const LEGACY_CONFIG_PATH: &'static str = "config/timeline-agent.toml";

/// Settings read from `timeline.toml`. Paths are Windows path text.
#[derive(Clone, Debug)]
pub struct AppConfig {
    pub database_path: String,
    pub lockfile_path: String,
    pub listen_addr: String,
    pub web_ui_url: String,
    pub idle_threshold_secs: u64,
    pub poll_interval_millis: u64,
    pub health_reminder_enabled: bool,
    pub health_reminder_threshold_secs: u64,
    pub health_reminder_work_start: Option<String>,
    pub health_reminder_work_end: Option<String>,
    pub health_reminder_quiet_start: Option<String>,
    pub health_reminder_quiet_end: Option<String>,
    pub debug: bool,
    pub tray_enabled: bool,
    pub record_window_titles: bool,
    pub record_page_titles: bool,
    pub ignored_apps: Vec<String>,
    pub ignored_domains: Vec<String>,
    /// The database path as written in the file, before resolution.
    pub persisted_database_path: Option<String>,
    /// The lock-file path as written in the file, before resolution.
    pub persisted_lockfile_path: Option<String>,
}

impl AppConfig {
    pub open spec fn is_default(self) -> bool {
        &&& self.database_path@ == "data/timeline.sqlite"@
        &&& self.lockfile_path@ == "data/timeline.lock"@
        &&& self.listen_addr@ == DEFAULT_LISTEN_ADDR@
        &&& self.web_ui_url@ == DEFAULT_WEB_UI_URL@
        &&& self.idle_threshold_secs == 300
        &&& self.poll_interval_millis == 1000
        &&& self.health_reminder_enabled
        &&& self.health_reminder_threshold_secs == 3000
        &&& self.health_reminder_work_start is None
        &&& self.health_reminder_work_end is None
        &&& self.health_reminder_quiet_start is None
        &&& self.health_reminder_quiet_end is None
        &&& !self.debug
        &&& self.tray_enabled
        &&& self.record_window_titles
        &&& !self.record_page_titles
        &&& self.ignored_apps@.len() == 0
        &&& self.ignored_domains@.len() == 0
        &&& self.persisted_database_path is None
        &&& self.persisted_lockfile_path is None
    }

    /// The built-in defaults: loopback listener on port 46215, five-minute idle
    /// threshold, one-second polling, a reminder after 50 minutes of activity.
    pub fn default_config() -> (r: AppConfig)
        ensures
            r.is_default(),
    {
        AppConfig {
            database_path: String::from_str("data/timeline.sqlite"),
            lockfile_path: String::from_str("data/timeline.lock"),
            listen_addr: String::from_str(DEFAULT_LISTEN_ADDR),
            web_ui_url: String::from_str(DEFAULT_WEB_UI_URL),
            idle_threshold_secs: 300,
            poll_interval_millis: 1_000,
            health_reminder_enabled: true,
            health_reminder_threshold_secs: 3_000,
            health_reminder_work_start: None,
            health_reminder_work_end: None,
            health_reminder_quiet_start: None,
            health_reminder_quiet_end: None,
            debug: false,
            tray_enabled: true,
            record_window_titles: true,
            record_page_titles: false,
            ignored_apps: Vec::new(),
            ignored_domains: Vec::new(),
            persisted_database_path: None,
            persisted_lockfile_path: None,
        }
    }

    /// The URL at which the agent serves its own web UI.
    pub open spec fn self_hosted_url_spec(self) -> Seq<char> {
        self_hosted_url(self.listen_addr@)
    }

    pub fn self_hosted_web_ui_url(&self) -> (r: String)
        ensures
            r@ == self.self_hosted_url_spec(),
    {
        self_hosted_url_text(self.listen_addr.as_str())
    }

    /// The web UI address to open: the configured one, unless it is blank, the
    /// legacy development address or the default, in which case the self-hosted one.
    pub fn effective_web_ui_url(&self) -> (r: String)
        ensures
            (trim_spec(self.web_ui_url@).len() == 0 || self.web_ui_url@ == LEGACY_DEV_WEB_UI_URL@
                || self.web_ui_url@ == DEFAULT_WEB_UI_URL@) ==> r@ == self.self_hosted_url_spec(),
            !(trim_spec(self.web_ui_url@).len() == 0 || self.web_ui_url@ == LEGACY_DEV_WEB_UI_URL@
                || self.web_ui_url@ == DEFAULT_WEB_UI_URL@) ==> r@ == self.web_ui_url@,
    {
        let url = chars_of(self.web_ui_url.as_str());
        let trimmed = trim(&url);
        let legacy = chars_of(LEGACY_DEV_WEB_UI_URL);
        let default_url = chars_of(DEFAULT_WEB_UI_URL);
        if trimmed.len() == 0 || seq_equal(&url, &legacy) || seq_equal(&url, &default_url) {
            return self.self_hosted_web_ui_url();
        }
        self.web_ui_url.clone()
    }

    /// Settles the web UI address after the file text `file_text` was parsed: a file
    /// that does not mention `web_ui_url`, or names the legacy development address,
    /// gets the self-hosted address.
    pub fn settle_web_ui_url(&mut self, file_text: &str)
        ensures
            (!occurs_spec(file_text@, "web_ui_url"@) || old(self).web_ui_url@ == LEGACY_DEV_WEB_UI_URL@)
                ==> final(self).web_ui_url@ == old(self).self_hosted_url_spec(),
            !(!occurs_spec(file_text@, "web_ui_url"@) || old(self).web_ui_url@ == LEGACY_DEV_WEB_UI_URL@)
                ==> final(self).web_ui_url == old(self).web_ui_url,
            final(self).listen_addr == old(self).listen_addr,
            final(self).database_path == old(self).database_path,
            final(self).lockfile_path == old(self).lockfile_path,
            final(self).persisted_database_path == old(self).persisted_database_path,
            final(self).persisted_lockfile_path == old(self).persisted_lockfile_path,
    {
        let mentions = contains(&chars_of(file_text), &chars_of("web_ui_url"));
        let legacy = seq_equal(&chars_of(self.web_ui_url.as_str()), &chars_of(LEGACY_DEV_WEB_UI_URL));
        if !mentions || legacy {
            self.web_ui_url = self.self_hosted_web_ui_url();
        }
    }

    /// Directories that must exist before the store and the lock file are opened:
    /// the parents of the database and lock-file paths, in that order.
    pub fn ensure_parent_dirs(&self) -> (r: Vec<String>)
        ensures
            string_views(r@) == parent_list(self.database_path@) + parent_list(self.lockfile_path@),
    {
        let mut dirs: Vec<String> = Vec::new();
        if let Some(p) = parent(&chars_of(self.database_path.as_str())) {
            dirs.push(string_from(&p));
        }
        assert(string_views(dirs@) =~= parent_list(self.database_path@));
        let ghost before = dirs@;
        if let Some(p) = parent(&chars_of(self.lockfile_path.as_str())) {
            dirs.push(string_from(&p));
        }
        assert(string_views(dirs@) =~= string_views(before) + parent_list(self.lockfile_path@));
        dirs
    }

    /// Resolves the data paths against `runtime_root`, remembering the paths as they
    /// were written so that saving the file keeps them relative.
    pub fn resolve_relative_paths(&mut self, runtime_root: &str)
        ensures
            final(self).persisted_database_path == (match old(self).persisted_database_path {
                Some(p) => Some(p),
                None => Some(old(self).database_path),
            }),
            final(self).persisted_lockfile_path == (match old(self).persisted_lockfile_path {
                Some(p) => Some(p),
                None => Some(old(self).lockfile_path),
            }),
            final(self).database_path@ == resolve_path_spec(runtime_root@, old(self).database_path@),
            final(self).lockfile_path@ == resolve_path_spec(runtime_root@, old(self).lockfile_path@),
            final(self).listen_addr == old(self).listen_addr,
            final(self).web_ui_url == old(self).web_ui_url,
    {
        if self.persisted_database_path.is_none() {
            self.persisted_database_path = Some(self.database_path.clone());
        }
        if self.persisted_lockfile_path.is_none() {
            self.persisted_lockfile_path = Some(self.lockfile_path.clone());
        }
        let db = resolve_path(runtime_root, self.database_path.as_str());
        let lock = resolve_path(runtime_root, self.lockfile_path.as_str());
        self.database_path = db;
        self.lockfile_path = lock;
    }

    /// The copy written back to disk: data paths as they were originally written.
    pub fn persisted_copy(&self) -> (r: AppConfig)
        ensures
            r.database_path == (match self.persisted_database_path {
                Some(p) => p,
                None => self.database_path,
            }),
            r.lockfile_path == (match self.persisted_lockfile_path {
                Some(p) => p,
                None => self.lockfile_path,
            }),
            r.listen_addr == self.listen_addr,
            r.web_ui_url == self.web_ui_url,
            r.ignored_apps@ == self.ignored_apps@,
            r.ignored_domains@ == self.ignored_domains@,
    {
        let mut persisted = self.clone_config();
        if let Some(p) = &self.persisted_database_path {
            persisted.database_path = p.clone();
        }
        if let Some(p) = &self.persisted_lockfile_path {
            persisted.lockfile_path = p.clone();
        }
        persisted
    }

    /// Field-by-field copy.
    pub fn clone_config(&self) -> (r: AppConfig)
        ensures
            r.database_path == self.database_path,
            r.lockfile_path == self.lockfile_path,
            r.listen_addr == self.listen_addr,
            r.web_ui_url == self.web_ui_url,
            r.idle_threshold_secs == self.idle_threshold_secs,
            r.poll_interval_millis == self.poll_interval_millis,
            r.health_reminder_enabled == self.health_reminder_enabled,
            r.health_reminder_threshold_secs == self.health_reminder_threshold_secs,
            r.health_reminder_work_start == self.health_reminder_work_start,
            r.health_reminder_work_end == self.health_reminder_work_end,
            r.health_reminder_quiet_start == self.health_reminder_quiet_start,
            r.health_reminder_quiet_end == self.health_reminder_quiet_end,
            r.debug == self.debug,
            r.tray_enabled == self.tray_enabled,
            r.record_window_titles == self.record_window_titles,
            r.record_page_titles == self.record_page_titles,
            r.ignored_apps@ == self.ignored_apps@,
            r.ignored_domains@ == self.ignored_domains@,
            r.persisted_database_path == self.persisted_database_path,
            r.persisted_lockfile_path == self.persisted_lockfile_path,
    {
        AppConfig {
            database_path: self.database_path.clone(),
            lockfile_path: self.lockfile_path.clone(),
            listen_addr: self.listen_addr.clone(),
            web_ui_url: self.web_ui_url.clone(),
            idle_threshold_secs: self.idle_threshold_secs,
            poll_interval_millis: self.poll_interval_millis,
            health_reminder_enabled: self.health_reminder_enabled,
            health_reminder_threshold_secs: self.health_reminder_threshold_secs,
            health_reminder_work_start: clone_opt(&self.health_reminder_work_start),
            health_reminder_work_end: clone_opt(&self.health_reminder_work_end),
            health_reminder_quiet_start: clone_opt(&self.health_reminder_quiet_start),
            health_reminder_quiet_end: clone_opt(&self.health_reminder_quiet_end),
            debug: self.debug,
            tray_enabled: self.tray_enabled,
            record_window_titles: self.record_window_titles,
            record_page_titles: self.record_page_titles,
            ignored_apps: clone_strings(&self.ignored_apps),
            ignored_domains: clone_strings(&self.ignored_domains),
            persisted_database_path: clone_opt(&self.persisted_database_path),
            persisted_lockfile_path: clone_opt(&self.persisted_lockfile_path),
        }
    }

    /// The outcome of checking the configuration, given what parsing the listen
    /// address gave (`None` when it is not a socket address, else whether its IP is a
    /// loopback address).
    pub open spec fn validate_spec(self, listen_addr_loopback: Option<bool>) -> Result<(), ConfigError> {
        match listen_addr_loopback {
            None => Err(ConfigError::InvalidListenAddr),
            Some(false) => Err(ConfigError::NonLoopbackListenAddr),
            Some(true) => match window_outcome(
                opt_view(self.health_reminder_work_start),
                opt_view(self.health_reminder_work_end),
            ) {
                Err(e) => Err(ConfigError::WorkHours(e)),
                Ok(_) => match window_outcome(
                    opt_view(self.health_reminder_quiet_start),
                    opt_view(self.health_reminder_quiet_end),
                ) {
                    Err(e) => Err(ConfigError::QuietHours(e)),
                    Ok(_) => Ok(()),
                },
            },
        }
    }

    /// Checks the configuration: the listen address must be a loopback socket
    /// address, then the work hours and the quiet hours must be valid windows.
    pub fn validate(&self) -> (r: Result<(), ConfigError>)
        ensures
            r == self.validate_spec(loopback_of(self.listen_addr@)),
    {
        match listen_addr_loopback(self.listen_addr.as_str()) {
            None => return Err(ConfigError::InvalidListenAddr),
            Some(false) => return Err(ConfigError::NonLoopbackListenAddr),
            Some(true) => {},
        }
        match validate_optional_time_window(
            opt_str(&self.health_reminder_work_start),
            opt_str(&self.health_reminder_work_end),
        ) {
            Err(e) => return Err(ConfigError::WorkHours(e)),
            Ok(_) => {},
        }
        match validate_optional_time_window(
            opt_str(&self.health_reminder_quiet_start),
            opt_str(&self.health_reminder_quiet_end),
        ) {
            Err(e) => return Err(ConfigError::QuietHours(e)),
            Ok(_) => {},
        }
        Ok(())
    }
}

fn clone_opt(v: &Option<String>) -> (r: Option<String>)
    ensures
        r == *v,
{
    match v {
        Some(s) => Some(s.clone()),
        None => None,
    }
}

pub fn clone_strings(v: &Vec<String>) -> (r: Vec<String>)
    ensures
        r@ == v@,
{
    let mut out: Vec<String> = Vec::new();
    let mut i: usize = 0;
    while i < v.len()
        invariant
            i <= v@.len(),
            out@ == v@.subrange(0, i as int),
        decreases v@.len() - i,
    {
        out.push(v[i].clone());
        i += 1;
    }
    out
}

pub open spec fn opt_view(v: Option<String>) -> Option<Seq<char>> {
    match v {
        Some(s) => Some(s@),
        None => None,
    }
}

fn opt_str(v: &Option<String>) -> (r: Option<&str>)
    ensures
        match r {
            Some(s) => opt_view(*v) == Some(s@),
            None => opt_view(*v) is None,
        },
{
    match v {
        Some(s) => Some(s.as_str()),
        None => None,
    }
}

/// The IP address of a socket address text, as `core::net::SocketAddr`'s `FromStr`
/// reads it: its four (IPv4) or sixteen (IPv6) octets, `None` when the text is not
/// a socket address.
pub uninterp spec fn socket_ip_of(text: Seq<char>) -> Option<Seq<u8>>;

/// Parses the text with `core::net::SocketAddr`'s `FromStr` and hands back the
/// octets of its IP address; named by `socket_ip_of`.
#[verifier::external_body]
fn parse_socket_ip(text: &str) -> (r: Option<Vec<u8>>)
    ensures
        match r {
            Some(v) => socket_ip_of(text@) == Some(v@) && (v@.len() == 4 || v@.len() == 16),
            None => socket_ip_of(text@) is None,
        },
{
    match text.parse::<core::net::SocketAddr>() {
        Ok(core::net::SocketAddr::V4(addr)) => Some(addr.ip().octets().to_vec()),
        Ok(core::net::SocketAddr::V6(addr)) => Some(addr.ip().octets().to_vec()),
        Err(_) => None,
    }
}

/// `IpAddr::is_loopback`: `127.0.0.0/8` for IPv4, `::1` for IPv6.
pub open spec fn is_loopback_ip(ip: Seq<u8>) -> bool {
    ||| ip.len() == 4 && ip[0] == 127
    ||| ip.len() == 16 && ip[15] == 1 && forall|i: int| 0 <= i < 15 ==> ip[i] == 0
}

/// What a socket address text says of loopback: `None` when it is not a socket
/// address, else whether its IP address is a loopback address.
pub open spec fn loopback_of(text: Seq<char>) -> Option<bool> {
    match socket_ip_of(text) {
        Some(ip) => Some(is_loopback_ip(ip)),
        None => None,
    }
}

fn ip_is_loopback(ip: &Vec<u8>) -> (r: bool)
    ensures
        r == is_loopback_ip(ip@),
{
    if ip.len() == 4 {
        return ip[0] == 127;
    }
    if ip.len() != 16 || ip[15] != 1 {
        return false;
    }
    let mut i: usize = 0;
    while i < 15
        invariant
            ip@.len() == 16,
            i <= 15,
            forall|k: int| 0 <= k < i ==> ip@[k] == 0,
        decreases 15 - i,
    {
        if ip[i] != 0 {
            return false;
        }
        i += 1;
    }
    true
}

/// Whether a listen address is a loopback socket address (`None` when it is not a
/// socket address).
fn listen_addr_loopback(text: &str) -> (r: Option<bool>)
    ensures
        r == loopback_of(text@),
{
    match parse_socket_ip(text) {
        Some(ip) => Some(ip_is_loopback(&ip)),
        None => None,
    }
}

/// Why a configuration is rejected.
#[derive(Clone, Copy, Debug, PartialEq, Eq, Structural)]
pub enum ConfigError {
    /// `listen_addr` is not a socket address.
    InvalidListenAddr,
    /// `listen_addr` is not a loopback address.
    NonLoopbackListenAddr,
    WorkHours(TimeWindowError),
    QuietHours(TimeWindowError),
}

/// Why a reminder time window is rejected.
#[derive(Clone, Copy, Debug, PartialEq, Eq, Structural)]
pub enum TimeWindowError {
    /// Only one of start and end is given.
    MissingBound,
    /// The start is not `HH:MM`.
    InvalidStart,
    /// The end is not `HH:MM`.
    InvalidEnd,
    /// Start and end are the same time.
    SameBounds,
}

/// A daily time window in seconds after local midnight; when `start > end` it
/// wraps past midnight.
#[derive(Clone, Copy, Debug, PartialEq, Eq, Structural)]
pub struct DailyTimeWindow {
    pub start: u32,
    pub end: u32,
}

impl DailyTimeWindow {
    pub open spec fn contains_spec(self, time: int) -> bool {
        if self.start < self.end {
            self.start <= time && time < self.end
        } else {
            time >= self.start || time < self.end
        }
    }

    /// Whether a local time of day falls in the window.
    pub fn contains(self, time: u32) -> (r: bool)
        ensures
            r == self.contains_spec(time as int),
    {
        if self.start < self.end {
            time >= self.start && time < self.end
        } else {
            time >= self.start || time < self.end
        }
    }

    /// The window given by optional `HH:MM` texts (`None` when both are absent).
    pub fn from_optional_strings(start: Option<&str>, end: Option<&str>) -> (r: Result<
        Option<DailyTimeWindow>,
        TimeWindowError,
    >)
        ensures
            match r {
                Ok(Some(w)) => window_outcome(opt_str_view(start), opt_str_view(end)) == Ok::<
                    Option<(int, int)>,
                    TimeWindowError,
                >(Some((w.start as int, w.end as int))),
                Ok(None) => window_outcome(opt_str_view(start), opt_str_view(end)) == Ok::<
                    Option<(int, int)>,
                    TimeWindowError,
                >(None),
                Err(e) => window_outcome(opt_str_view(start), opt_str_view(end)) == Err::<
                    Option<(int, int)>,
                    TimeWindowError,
                >(e),
            },
    {
        match validate_optional_time_window(start, end) {
            Ok(Some((s, e))) => Ok(Some(DailyTimeWindow { start: s, end: e })),
            Ok(None) => Ok(None),
            Err(e) => Err(e),
        }
    }
}

pub open spec fn opt_str_view(v: Option<&str>) -> Option<Seq<char>> {
    match v {
        Some(s) => Some(s@),
        None => None,
    }
}

/// A bound is given when, trimmed, it is not empty.
pub open spec fn normalized_time(v: Option<Seq<char>>) -> Option<Seq<char>> {
    match v {
        Some(s) => if trim_spec(s).len() > 0 {
            Some(trim_spec(s))
        } else {
            None
        },
        None => None,
    }
}

/// The outcome of validating an optional time window: no window when neither bound
/// is given, both bounds parsed and distinct otherwise.
pub open spec fn window_outcome(start: Option<Seq<char>>, end: Option<Seq<char>>) -> Result<
    Option<(int, int)>,
    TimeWindowError,
> {
    match (normalized_time(start), normalized_time(end)) {
        (None, None) => Ok(None),
        (Some(s), Some(e)) => match (clock_seconds_of(s), clock_seconds_of(e)) {
            (None, _) => Err(TimeWindowError::InvalidStart),
            (Some(_), None) => Err(TimeWindowError::InvalidEnd),
            (Some(a), Some(b)) => if a == b {
                Err(TimeWindowError::SameBounds)
            } else {
                Ok(Some((a, b)))
            },
        },
        _ => Err(TimeWindowError::MissingBound),
    }
}

/// Trims an optional bound and drops it when empty.
pub fn normalize_time_value(value: Option<&str>) -> (r: Option<String>)
    ensures
        match r {
            Some(s) => normalized_time(opt_str_view(value)) == Some(s@),
            None => normalized_time(opt_str_view(value)) is None,
        },
{
    match value {
        Some(v) => {
            let t = trim(&chars_of(v));
            if t.len() > 0 {
                Some(string_from(&t))
            } else {
                None
            }
        },
        None => None,
    }
}

/// Validates an optional `HH:MM` window.
pub fn validate_optional_time_window(start: Option<&str>, end: Option<&str>) -> (r: Result<
    Option<(u32, u32)>,
    TimeWindowError,
>)
    ensures
        match r {
            Ok(Some((s, e))) => window_outcome(opt_str_view(start), opt_str_view(end)) == Ok::<
                Option<(int, int)>,
                TimeWindowError,
            >(Some((s as int, e as int))) && s < 86400 && e < 86400,
            Ok(None) => window_outcome(opt_str_view(start), opt_str_view(end)) == Ok::<
                Option<(int, int)>,
                TimeWindowError,
            >(None),
            Err(e) => window_outcome(opt_str_view(start), opt_str_view(end)) == Err::<
                Option<(int, int)>,
                TimeWindowError,
            >(e),
        },
{
    match (normalize_time_value(start), normalize_time_value(end)) {
        (None, None) => Ok(None),
        (Some(s), Some(e)) => {
            let a = parse_clock_time(s.as_str());
            let b = parse_clock_time(e.as_str());
            match (a, b) {
                (None, _) => Err(TimeWindowError::InvalidStart),
                (Some(_), None) => Err(TimeWindowError::InvalidEnd),
                (Some(x), Some(y)) => {
                    if x == y {
                        Err(TimeWindowError::SameBounds)
                    } else {
                        Ok(Some((x, y)))
                    }
                },
            }
        },
        _ => Err(TimeWindowError::MissingBound),
    }
}

/// A reminder may fire inside the work window (when configured) and outside the
/// quiet window (when configured).
pub open spec fn health_reminder_allowed_spec(
    work_hours: Option<DailyTimeWindow>,
    quiet_hours: Option<DailyTimeWindow>,
    local_time: int,
) -> bool {
    (match work_hours {
        Some(w) => w.contains_spec(local_time),
        None => true,
    }) && (match quiet_hours {
        Some(q) => !q.contains_spec(local_time),
        None => true,
    })
}

/// Whether a reminder may fire at `local_time` (seconds after local midnight).
pub fn health_reminder_allowed(
    work_hours: Option<DailyTimeWindow>,
    quiet_hours: Option<DailyTimeWindow>,
    local_time: u32,
) -> (r: bool)
    ensures
        r == health_reminder_allowed_spec(work_hours, quiet_hours, local_time as int),
{
    let in_work = match work_hours {
        Some(w) => w.contains(local_time),
        None => true,
    };
    let outside_quiet = match quiet_hours {
        Some(q) => !q.contains(local_time),
        None => true,
    };
    in_work && outside_quiet
}

// ---------------------------------------------------------------------------
// Listen address and web UI URL
// ---------------------------------------------------------------------------

/// Host text for URLs: trimmed, brackets removed, wildcard and empty hosts mapped to
/// `127.0.0.1`, and IPv6 hosts bracketed again.
pub open spec fn normalize_host_spec(host: Seq<char>) -> Seq<char> {
    let t = trim_end_by(trim_start_by(trim_spec(host), char_pred('[')), char_pred(']'));
    let n = if t.len() == 0 || t == "0.0.0.0"@ || t == "::"@ {
        "127.0.0.1"@
    } else {
        t
    };
    if n.contains(':') {
        seq!['['] + n + seq![']']
    } else {
        n
    }
}

pub fn normalize_host(host: &Vec<char>) -> (r: Vec<char>)
    ensures
        r@ == normalize_host_spec(host@),
{
    let t = trim_end_char(&trim_start_char(&trim(host), '['), ']');
    let any_v4 = chars_of("0.0.0.0");
    let any_v6 = chars_of("::");
    let n = if t.len() == 0 || seq_equal(&t, &any_v4) || seq_equal(&t, &any_v6) {
        chars_of("127.0.0.1")
    } else {
        t
    };
    if contains_char(&n, ':') {
        let mut open: Vec<char> = Vec::new();
        open.push('[');
        let mut close: Vec<char> = Vec::new();
        close.push(']');
        assert(open@ =~= seq!['[']);
        assert(close@ =~= seq![']']);
        concat(&concat(&open, &n), &close)
    } else {
        n
    }
}

/// `http://{host}:{port}/#/stats` from the listen address: the host and port around
/// its last `:`, or `127.0.0.1:46215` when it has none.
pub open spec fn self_hosted_url(listen_addr: Seq<char>) -> Seq<char> {
    let (host, port) = if listen_addr.contains(':') {
        let i = choose|i: int| crate::text::is_last_index_of(listen_addr, ':', i);
        (
            normalize_host_spec(listen_addr.subrange(0, i)),
            trim_spec(listen_addr.subrange(i + 1, listen_addr.len() as int)),
        )
    } else {
        ("127.0.0.1"@, "46215"@)
    };
    "http://"@ + host + ":"@ + port + "/#/stats"@
}

proof fn lemma_last_index_unique(s: Seq<char>, c: char, i: int, j: int)
    requires
        crate::text::is_last_index_of(s, c, i),
        crate::text::is_last_index_of(s, c, j),
    ensures
        i == j,
{
    if i < j {
        assert(s[j] != c);
    } else if j < i {
        assert(s[i] != c);
    }
}

/// The self-hosted web UI address for the listen address `listen_addr`.
pub fn self_hosted_url_text(listen_addr: &str) -> (r: String)
    ensures
        r@ == self_hosted_url(listen_addr@),
{
    string_from(&self_hosted_url_chars(&chars_of(listen_addr)))
}

fn self_hosted_url_chars(listen_addr: &Vec<char>) -> (r: Vec<char>)
    ensures
        r@ == self_hosted_url(listen_addr@),
{
    let (host, port) = match rfind_char(listen_addr, ':') {
        Some(i) => {
            proof {
                assert(crate::text::is_last_index_of(listen_addr@, ':', i as int));
                assert(listen_addr@.contains(':'));
                let j = choose|j: int| crate::text::is_last_index_of(listen_addr@, ':', j);
                lemma_last_index_unique(listen_addr@, ':', i as int, j);
            }
            let host = normalize_host(&slice_copy(listen_addr, 0, i));
            let n: usize = listen_addr.len();
            let port = trim(&slice_copy(listen_addr, i + 1, n));
            (host, port)
        },
        None => (chars_of("127.0.0.1"), chars_of("46215")),
    };
    let scheme = chars_of("http://");
    let colon = chars_of(":");
    let tail = chars_of("/#/stats");
    concat(&concat(&concat(&concat(&scheme, &host), &colon), &port), &tail)
}

// ---------------------------------------------------------------------------
// Paths
// ---------------------------------------------------------------------------

/// A relative path is taken relative to `base`; an absolute one is kept.
pub open spec fn resolve_path_spec(base: Seq<char>, path: Seq<char>) -> Seq<char> {
    if is_absolute_spec(path) {
        path
    } else {
        join_spec(base, path)
    }
}

pub fn resolve_path(base: &str, path: &str) -> (r: String)
    ensures
        r@ == resolve_path_spec(base@, path@),
{
    let p = chars_of(path);
    if is_absolute(&p) {
        return String::from_str(path);
    }
    string_from(&join(&chars_of(base), &p))
}

/// Makes an explicitly given path absolute against `base` (the working directory).
pub fn absolutize_from(base: &str, path: &str) -> (r: String)
    ensures
        r@ == resolve_path_spec(base@, path@),
{
    resolve_path(base, path)
}

/// `base`, its parent and its grandparent, in that order.
pub fn parent_candidates(base: &str) -> (r: Vec<String>)
    ensures
        r@.len() >= 1,
        r@[0]@ == base@,
        parent_spec(base@) is None ==> r@.len() == 1,
        parent_spec(base@) matches Some(p) ==> r@.len() >= 2 && r@[1]@ == p && (parent_spec(p) is None
            ==> r@.len() == 2) && (parent_spec(p) matches Some(g) ==> r@.len() == 3 && r@[2]@ == g),
{
    let mut out: Vec<String> = Vec::new();
    out.push(String::from_str(base));
    if let Some(p) = parent(&chars_of(base)) {
        out.push(string_from(&p));
        if let Some(g) = parent(&p) {
            out.push(string_from(&g));
        }
    }
    out
}

/// Adds `path` unless an equal path (component-wise) is already listed.
pub fn push_unique(candidates: &mut Vec<String>, path: String)
    ensures
        (exists|i: int| 0 <= i < old(candidates)@.len() && same_path(
            (#[trigger] old(candidates)@[i])@,
            path@,
        )) ==> final(candidates)@ == old(candidates)@,
        !(exists|i: int| 0 <= i < old(candidates)@.len() && same_path(
            (#[trigger] old(candidates)@[i])@,
            path@,
        )) ==> final(candidates)@ == old(candidates)@.push(path),
{
    let p = chars_of(path.as_str());
    let mut i: usize = 0;
    while i < candidates.len()
        invariant
            i <= candidates@.len(),
            candidates@ == old(candidates)@,
            p@ == path@,
            forall|k: int| 0 <= k < i ==> !same_path((#[trigger] candidates@[k])@, path@),
        decreases candidates@.len() - i,
    {
        if paths_equal(&chars_of(candidates[i].as_str()), &p) {
            return;
        }
        i += 1;
    }
    candidates.push(path);
}

/// The parent of `path` as a list of at most one directory.
pub open spec fn parent_list(path: Seq<char>) -> Seq<Seq<char>> {
    match parent_spec(path) {
        Some(p) => seq![p],
        None => seq![],
    }
}

/// The views of a list of strings.
pub open spec fn string_views(c: Seq<String>) -> Seq<Seq<char>> {
    c.map_values(|s: String| s@)
}

/// `c` with `p` added at the end, unless an equal path is already in it.
pub open spec fn push_unique_spec(c: Seq<Seq<char>>, p: Seq<char>) -> Seq<Seq<char>> {
    if exists|i: int| 0 <= i < c.len() && same_path(#[trigger] c[i], p) {
        c
    } else {
        c.push(p)
    }
}

/// `c` after adding each of `items` in turn with [`push_unique_spec`].
pub open spec fn push_all_unique(c: Seq<Seq<char>>, items: Seq<Seq<char>>) -> Seq<Seq<char>>
    decreases items.len(),
{
    if items.len() == 0 {
        c
    } else {
        push_unique_spec(push_all_unique(c, items.drop_last()), items.last())
    }
}

/// The web UI locations tried around the executable: next to it, then one and two
/// levels up.
pub open spec fn exe_dist_candidates(current_exe: Option<Seq<char>>) -> Seq<Seq<char>> {
    match current_exe {
        None => seq![],
        Some(exe) => match parent_spec(exe) {
            None => seq![],
            Some(d) => {
                let near = seq![join_spec(d, "web-ui/dist"@), join_spec(d, "dist"@)];
                match parent_spec(d) {
                    None => near,
                    Some(p) => {
                        let up = near + seq![join_spec(p, "web-ui/dist"@), join_spec(p, "dist"@)];
                        match parent_spec(p) {
                            None => up,
                            Some(g) => up.push(join_spec(g, "apps/web-ui/dist"@)),
                        }
                    },
                }
            },
        },
    }
}

/// The web UI locations tried under the working directory.
pub open spec fn cwd_dist_candidates(current_dir: Option<Seq<char>>) -> Seq<Seq<char>> {
    match current_dir {
        None => seq![],
        Some(d) => seq![
            join_spec(d, "apps/web-ui/dist"@),
            join_spec(d, "web-ui/dist"@),
            join_spec(d, "dist"@),
        ],
    }
}

/// Where the built web UI may be: next to the executable and up to two levels
/// above it first, then under the working directory; a path equal to one already
/// listed is left out.
pub fn web_ui_dist_candidates(current_dir: Option<&str>, current_exe: Option<&str>) -> (r: Vec<String>)
    ensures
        string_views(r@) == push_all_unique(
            seq![],
            exe_dist_candidates(opt_str_view(current_exe)) + cwd_dist_candidates(opt_str_view(current_dir)),
        ),
        forall|i: int, j: int| 0 <= i < j < r@.len() ==> !same_path((#[trigger] r@[i])@, (#[trigger] r@[j])@),
{
    let mut candidates: Vec<String> = Vec::new();
    let ghost mut items: Seq<Seq<char>> = seq![];
    assert(string_views(candidates@) =~= push_all_unique(seq![], items));
    if let Some(exe) = current_exe {
        if let Some(exe_dir) = parent(&chars_of(exe)) {
            push_unique_join(&mut candidates, &exe_dir, "web-ui/dist", Ghost(items));
            proof { items = items.push(join_spec(exe_dir@, "web-ui/dist"@)); }
            push_unique_join(&mut candidates, &exe_dir, "dist", Ghost(items));
            proof { items = items.push(join_spec(exe_dir@, "dist"@)); }
            if let Some(p) = parent(&exe_dir) {
                push_unique_join(&mut candidates, &p, "web-ui/dist", Ghost(items));
                proof { items = items.push(join_spec(p@, "web-ui/dist"@)); }
                push_unique_join(&mut candidates, &p, "dist", Ghost(items));
                proof { items = items.push(join_spec(p@, "dist"@)); }
                if let Some(g) = parent(&p) {
                    push_unique_join(&mut candidates, &g, "apps/web-ui/dist", Ghost(items));
                    proof { items = items.push(join_spec(g@, "apps/web-ui/dist"@)); }
                }
            }
        }
    }
    assert(items =~= exe_dist_candidates(opt_str_view(current_exe)));
    let ghost exe_items = items;
    if let Some(dir) = current_dir {
        let d = chars_of(dir);
        push_unique_join(&mut candidates, &d, "apps/web-ui/dist", Ghost(items));
        proof { items = items.push(join_spec(d@, "apps/web-ui/dist"@)); }
        push_unique_join(&mut candidates, &d, "web-ui/dist", Ghost(items));
        proof { items = items.push(join_spec(d@, "web-ui/dist"@)); }
        push_unique_join(&mut candidates, &d, "dist", Ghost(items));
        proof { items = items.push(join_spec(d@, "dist"@)); }
    }
    assert(items =~= exe_items + cwd_dist_candidates(opt_str_view(current_dir)));
    candidates
}

fn push_unique_join(candidates: &mut Vec<String>, base: &Vec<char>, rel: &str, Ghost(items): Ghost<Seq<Seq<char>>>)
    requires
        string_views(old(candidates)@) == push_all_unique(seq![], items),
        forall|i: int, j: int|
            0 <= i < j < old(candidates)@.len() ==> !same_path(
                (#[trigger] old(candidates)@[i])@,
                (#[trigger] old(candidates)@[j])@,
            ),
    ensures
        string_views(final(candidates)@) == push_all_unique(seq![], items.push(join_spec(base@, rel@))),
        forall|i: int, j: int|
            0 <= i < j < final(candidates)@.len() ==> !same_path(
                (#[trigger] final(candidates)@[i])@,
                (#[trigger] final(candidates)@[j])@,
            ),
{
    let joined = string_from(&join(base, &chars_of(rel)));
    let ghost before = candidates@;
    push_unique(candidates, joined);
    proof {
        let next = items.push(join_spec(base@, rel@));
        assert(next.drop_last() =~= items);
        let vb = string_views(before);
        if exists|i: int| 0 <= i < before.len() && same_path((#[trigger] before[i])@, joined@) {
            let i = choose|i: int| 0 <= i < before.len() && same_path((#[trigger] before[i])@, joined@);
            assert(vb[i] == before[i]@);
            assert(string_views(candidates@) == push_unique_spec(vb, joined@));
        } else {
            assert forall|i: int| 0 <= i < vb.len() implies !same_path(#[trigger] vb[i], joined@) by {
                assert(vb[i] == before[i]@);
            }
            assert(string_views(candidates@) =~= vb.push(joined@));
        }
        if candidates@ != before {
            assert forall|i: int, j: int|
                0 <= i < j < candidates@.len() implies !same_path(
                    (#[trigger] candidates@[i])@,
                    (#[trigger] candidates@[j])@,
                ) by {
                if j == before.len() {
                    assert(candidates@[i] == before[i]);
                    lemma_same_path_symmetric(candidates@[i]@, candidates@[j]@);
                } else {
                    assert(candidates@[i] == before[i] && candidates@[j] == before[j]);
                }
            }
        }
    }
}

proof fn lemma_same_path_symmetric(a: Seq<char>, b: Seq<char>)
    ensures
        same_path(a, b) == same_path(b, a),
{
}

/// The installation directory a configuration file implies: the parent of its
/// directory when that directory is named `config` (any ASCII case), else the
/// directory itself; `.` when the path has no parent.
pub open spec fn runtime_root_spec(config_path: Seq<char>) -> Seq<char> {
    match parent_spec(config_path) {
        None => "."@,
        Some(p) => if (file_name_spec(p) matches Some(name) && eq_ignore_case_spec(name, "config"@)) {
            match parent_spec(p) {
                Some(g) => g,
                None => p,
            }
        } else {
            p
        },
    }
}

pub fn runtime_root_from_config_path(config_path: &str) -> (r: String)
    ensures
        r@ == runtime_root_spec(config_path@),
{
    let Some(p) = parent(&chars_of(config_path)) else {
        return String::from_str(".");
    };
    let is_config_dir = match file_name(&p) {
        Some(name) => eq_ignore_ascii_case(&name, &chars_of("config")),
        None => false,
    };
    if is_config_dir {
        match parent(&p) {
            Some(g) => string_from(&g),
            None => string_from(&p),
        }
    } else {
        string_from(&p)
    }
}

/// The configuration file to use: an explicit path made absolute against the working
/// directory; otherwise `config/timeline.toml` under the runtime root, or the legacy
/// `config/timeline-agent.toml` when only that one exists.
pub fn resolve_config_path(
    explicit_path: Option<&str>,
    current_dir: &str,
    runtime_root: &str,
    primary_exists: bool,
    legacy_exists: bool,
) -> (r: String)
    ensures
        explicit_path matches Some(p) ==> r@ == resolve_path_spec(current_dir@, p@),
        explicit_path is None && (primary_exists || !legacy_exists) ==> r@ == join_spec(
            runtime_root@,
            DEFAULT_CONFIG_PATH@,
        ),
        explicit_path is None && !primary_exists && legacy_exists ==> r@ == join_spec(
            runtime_root@,
            LEGACY_CONFIG_PATH@,
        ),
{
    match explicit_path {
        Some(p) => absolutize_from(current_dir, p),
        None => {
            let root = chars_of(runtime_root);
            if primary_exists || !legacy_exists {
                string_from(&join(&root, &chars_of(DEFAULT_CONFIG_PATH)))
            } else {
                string_from(&join(&root, &chars_of(LEGACY_CONFIG_PATH)))
            }
        },
    }
}

/// The directory that relative data paths are resolved against when loading: the
/// configuration file's directory (`.` when it has none) for a file that exists or
/// was named explicitly, else the runtime root.
pub fn load_base_dir(config_path: &str, runtime_root: &str, file_exists: bool, explicit: bool) -> (r: String)
    ensures
        (file_exists || explicit) ==> r@ == (match parent_spec(config_path@) {
            Some(p) => p,
            None => "."@,
        }),
        !(file_exists || explicit) ==> r@ == runtime_root@,
{
    if file_exists || explicit {
        match parent(&chars_of(config_path)) {
            Some(p) => string_from(&p),
            None => String::from_str("."),
        }
    } else {
        String::from_str(runtime_root)
    }
}

/// The paths whose presence marks `root` as a runtime root: files first, then
/// directories.
pub fn runtime_root_markers(root: &str) -> (r: (Vec<String>, Vec<String>))
    ensures
        string_views(r.0@) == seq![
            join_spec(root@, DEFAULT_CONFIG_PATH@),
            join_spec(root@, LEGACY_CONFIG_PATH@),
            join_spec(root@, "Cargo.toml"@),
            join_spec(root@, "web-ui/dist/index.html"@),
        ],
        string_views(r.1@) == seq![join_spec(root@, "apps/web-ui"@)],
{
    let base = chars_of(root);
    let mut files: Vec<String> = Vec::new();
    files.push(string_from(&join(&base, &chars_of(DEFAULT_CONFIG_PATH))));
    files.push(string_from(&join(&base, &chars_of(LEGACY_CONFIG_PATH))));
    files.push(string_from(&join(&base, &chars_of("Cargo.toml"))));
    files.push(string_from(&join(&base, &chars_of("web-ui/dist/index.html"))));
    let mut dirs: Vec<String> = Vec::new();
    dirs.push(string_from(&join(&base, &chars_of("apps/web-ui"))));
    assert(string_views(files@) =~= seq![
        join_spec(root@, DEFAULT_CONFIG_PATH@),
        join_spec(root@, LEGACY_CONFIG_PATH@),
        join_spec(root@, "Cargo.toml"@),
        join_spec(root@, "web-ui/dist/index.html"@),
    ]);
    assert(string_views(dirs@) =~= seq![join_spec(root@, "apps/web-ui"@)]);
    (files, dirs)
}

/// The runtime root: an existing install-root directory from the environment; else
/// the first candidate around the executable that looks like a runtime root, else
/// the executable's directory; else the first candidate around the working
/// directory that looks like one; else the working directory. Each candidate
/// comes with whether it looks like a runtime root.
pub fn discover_runtime_root(
    install_root_dir: Option<String>,
    exe_candidates: &Vec<(String, bool)>,
    cwd_candidates: &Vec<(String, bool)>,
    current_dir: String,
) -> (r: String)
    ensures
        install_root_dir matches Some(d) ==> r == d,
        install_root_dir is None && (exists|i: int| 0 <= i < exe_candidates@.len() && (#[trigger] exe_candidates@[i]).1)
            ==> exists|i: int| 0 <= i < exe_candidates@.len() && exe_candidates@[i].1 && r == (#[trigger] exe_candidates@[i]).0 && forall|k: int| 0 <= k < i ==> !(#[trigger] exe_candidates@[k]).1,
        install_root_dir is None && !(exists|i: int| 0 <= i < exe_candidates@.len() && (#[trigger] exe_candidates@[i]).1)
            && exe_candidates@.len() > 0 ==> r == exe_candidates@[0].0,
        install_root_dir is None && exe_candidates@.len() == 0 && (exists|i: int| 0 <= i < cwd_candidates@.len() && (#[trigger] cwd_candidates@[i]).1)
            ==> exists|i: int| 0 <= i < cwd_candidates@.len() && cwd_candidates@[i].1 && r == (#[trigger] cwd_candidates@[i]).0 && forall|k: int| 0 <= k < i ==> !(#[trigger] cwd_candidates@[k]).1,
        install_root_dir is None && exe_candidates@.len() == 0 && !(exists|i: int| 0 <= i < cwd_candidates@.len() && (#[trigger] cwd_candidates@[i]).1)
            ==> r == current_dir,
{
    if let Some(d) = install_root_dir {
        return d;
    }
    let mut i: usize = 0;
    while i < exe_candidates.len()
        invariant
            i <= exe_candidates@.len(),
            install_root_dir is None,
            forall|k: int| 0 <= k < i ==> !(#[trigger] exe_candidates@[k]).1,
        decreases exe_candidates@.len() - i,
    {
        if exe_candidates[i].1 {
            return exe_candidates[i].0.clone();
        }
        i += 1;
    }
    if exe_candidates.len() > 0 {
        return exe_candidates[0].0.clone();
    }
    let mut j: usize = 0;
    while j < cwd_candidates.len()
        invariant
            j <= cwd_candidates@.len(),
            install_root_dir is None,
            exe_candidates@.len() == 0,
            forall|k: int| 0 <= k < j ==> !(#[trigger] cwd_candidates@[k]).1,
        decreases cwd_candidates@.len() - j,
    {
        if cwd_candidates[j].1 {
            return cwd_candidates[j].0.clone();
        }
        j += 1;
    }
    current_dir
}

} // verus!
