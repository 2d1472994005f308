//! Decisions of the collectors. Each observation (a foreground window, a presence
//! state, a browser event) is turned into the store operations to perform and the
//! new in-memory state; the caller performs the operations and reports the ids the
//! store assigned.

use vstd::prelude::*;
use crate::text::{
    chars_of, string_from, concat, slice_copy, to_ascii_lowercase, lower_seq, eq_ignore_ascii_case,
    eq_ignore_case_spec, seq_equal, trim_end_matches, strip_suffixes, split_chars_by, split_on,
    keep_nonempty, nonempty_pieces, views_of, join_pieces, join_with, char_to_uppercase, upper_of,
    trim_end_by, char_pred, trim_end_char,
};
use crate::paths::{file_name, file_name_spec};
use crate::config::{
    AppConfig, DailyTimeWindow, ConfigError, window_outcome, opt_view, loopback_of, health_reminder_allowed,
    health_reminder_allowed_spec,
};
use crate::model::{AppInfo, BrowserEventPayload, BrowserEventAck, PresenceState, TrackingStateResponse};
use crate::state::{
    RuntimeState, OpenFocusSegment, OpenPresenceSegment, OpenBrowserSegment, HealthReminderRuntime,
};
use crate::window::ForegroundWindowSnapshot;
use crate::zone::valid_instant;

verus! {

/// Seconds between two writes of an unchanged segment's last-seen time.
pub const HEARTBEAT_FLUSH_SECONDS: i64 = 10;

/// Whether an unchanged segment's last-seen time is due to be written again.
pub open spec fn flush_due_spec(last_persisted_at: int, observed_at: int) -> bool {
    observed_at - last_persisted_at >= HEARTBEAT_FLUSH_SECONDS
}

// ---------------------------------------------------------------------------
// Presence and the foreground process
// ---------------------------------------------------------------------------

/// A desktop name as Windows reports it, without its trailing NUL characters.
pub open spec fn without_trailing_nuls(s: Seq<char>) -> Seq<char> {
    trim_end_by(s, char_pred('\0'))
}

/// The workstation is locked when the input desktop is not the interactive
/// `Default` desktop (compared without ASCII case), as when Windows switches to
/// `Winlogon`.
pub fn desktop_is_locked(input_desktop_name: &str) -> (r: bool)
    ensures
        r == !eq_ignore_case_spec(without_trailing_nuls(input_desktop_name@), "Default"@),
{
    let name = trim_end_char(&chars_of(input_desktop_name), '\0');
    !eq_ignore_ascii_case(&name, &chars_of("Default"))
}

/// The presence rule: locked wins over idle; idle once the time since the last
/// input reaches the idle threshold; otherwise active.
pub fn classify_presence(locked: bool, idle_for_millis: u64, idle_threshold_millis: u64) -> (r: PresenceState)
    ensures
        r == if locked {
            PresenceState::Locked
        } else if idle_for_millis >= idle_threshold_millis {
            PresenceState::Idle
        } else {
            PresenceState::Active
        },
{
    if locked {
        PresenceState::Locked
    } else if idle_for_millis >= idle_threshold_millis {
        PresenceState::Idle
    } else {
        PresenceState::Active
    }
}

/// The process name recorded for a foreground window: the file name of its image
/// path, or `unknown.exe` when the path has none.
pub open spec fn process_name_spec(exe_path: Seq<char>) -> Seq<char> {
    match file_name_spec(exe_path) {
        Some(n) => n,
        None => "unknown.exe"@,
    }
}

/// The file name of a process image path, `unknown.exe` when there is none.
pub fn process_name_from_path(exe_path: &str) -> (r: String)
    ensures
        r@ == process_name_spec(exe_path@),
{
    match file_name(&chars_of(exe_path)) {
        Some(n) => string_from(&n),
        None => string_from(&chars_of("unknown.exe")),
    }
}

/// True once at least ten seconds have passed since the last write.
pub fn heartbeat_flush_due(last_persisted_at: i64, observed_at: i64) -> (r: bool)
    ensures
        r == flush_due_spec(last_persisted_at as int, observed_at as int),
{
    (observed_at as i128) - (last_persisted_at as i128) >= HEARTBEAT_FLUSH_SECONDS as i128
}

/// Some entry of `list` equals `name` up to ASCII case.
pub open spec fn listed_spec(list: Seq<String>, name: Seq<char>) -> bool {
    exists|i: int| 0 <= i < list.len() && eq_ignore_case_spec((#[trigger] list[i])@, name)
}

/// Whether `name` is in `list`, comparing ASCII letters without case.
pub fn is_listed(list: &Vec<String>, name: &str) -> (r: bool)
    ensures
        r == listed_spec(list@, name@),
{
    let n = chars_of(name);
    let mut i: usize = 0;
    while i < list.len()
        invariant
            i <= list@.len(),
            n@ == name@,
            forall|k: int| 0 <= k < i ==> !eq_ignore_case_spec((#[trigger] list@[k])@, name@),
        decreases list@.len() - i,
    {
        if eq_ignore_ascii_case(&chars_of(list[i].as_str()), &n) {
            return true;
        }
        i += 1;
    }
    false
}

/// The settings the collectors read on every observation.
#[derive(Clone, Debug)]
pub struct RuntimeConfigSnapshot {
    pub idle_threshold_secs: u64,
    pub poll_interval_millis: u64,
    pub health_reminder_enabled: bool,
    pub health_reminder_threshold_secs: u64,
    pub health_reminder_work_start: Option<String>,
    pub health_reminder_work_end: Option<String>,
    pub health_reminder_quiet_start: Option<String>,
    pub health_reminder_quiet_end: Option<String>,
    pub health_reminder_work_hours: Option<DailyTimeWindow>,
    pub health_reminder_quiet_hours: Option<DailyTimeWindow>,
    pub record_window_titles: bool,
    pub record_page_titles: bool,
    pub ignored_apps: Vec<String>,
    pub ignored_domains: Vec<String>,
}

/// The window that a validated pair of bounds describes.
pub open spec fn window_of(outcome: Result<Option<(int, int)>, crate::config::TimeWindowError>) -> Option<
    DailyTimeWindow,
> {
    match outcome {
        Ok(Some((s, e))) => Some(DailyTimeWindow { start: s as u32, end: e as u32 }),
        _ => None,
    }
}

impl RuntimeConfigSnapshot {
    /// The reminder windows of `config` are valid.
    pub open spec fn windows_valid(config: AppConfig) -> bool {
        &&& window_outcome(opt_view(config.health_reminder_work_start), opt_view(config.health_reminder_work_end)) is Ok
        &&& window_outcome(opt_view(config.health_reminder_quiet_start), opt_view(config.health_reminder_quiet_end)) is Ok
    }

    /// The snapshot of a configuration whose reminder windows were validated.
    pub fn from_config(config: &AppConfig) -> (r: RuntimeConfigSnapshot)
        requires
            Self::windows_valid(*config),
        ensures
            r.idle_threshold_secs == config.idle_threshold_secs,
            r.poll_interval_millis == config.poll_interval_millis,
            r.health_reminder_enabled == config.health_reminder_enabled,
            r.health_reminder_threshold_secs == config.health_reminder_threshold_secs,
            r.health_reminder_work_start == config.health_reminder_work_start,
            r.health_reminder_work_end == config.health_reminder_work_end,
            r.health_reminder_quiet_start == config.health_reminder_quiet_start,
            r.health_reminder_quiet_end == config.health_reminder_quiet_end,
            r.health_reminder_work_hours == window_of(
                window_outcome(opt_view(config.health_reminder_work_start), opt_view(config.health_reminder_work_end)),
            ),
            r.health_reminder_quiet_hours == window_of(
                window_outcome(opt_view(config.health_reminder_quiet_start), opt_view(config.health_reminder_quiet_end)),
            ),
            r.record_window_titles == config.record_window_titles,
            r.record_page_titles == config.record_page_titles,
            r.ignored_apps@ == config.ignored_apps@,
            r.ignored_domains@ == config.ignored_domains@,
    {
        let copy = config.clone_config();
        let work = DailyTimeWindow::from_optional_strings(
            opt_as_str(&config.health_reminder_work_start),
            opt_as_str(&config.health_reminder_work_end),
        );
        let quiet = DailyTimeWindow::from_optional_strings(
            opt_as_str(&config.health_reminder_quiet_start),
            opt_as_str(&config.health_reminder_quiet_end),
        );
        let work_hours = match work {
            Ok(w) => w,
            Err(_) => None,
        };
        let quiet_hours = match quiet {
            Ok(w) => w,
            Err(_) => None,
        };
        RuntimeConfigSnapshot {
            idle_threshold_secs: copy.idle_threshold_secs,
            poll_interval_millis: copy.poll_interval_millis,
            health_reminder_enabled: copy.health_reminder_enabled,
            health_reminder_threshold_secs: copy.health_reminder_threshold_secs,
            health_reminder_work_start: copy.health_reminder_work_start,
            health_reminder_work_end: copy.health_reminder_work_end,
            health_reminder_quiet_start: copy.health_reminder_quiet_start,
            health_reminder_quiet_end: copy.health_reminder_quiet_end,
            health_reminder_work_hours: work_hours,
            health_reminder_quiet_hours: quiet_hours,
            record_window_titles: copy.record_window_titles,
            record_page_titles: copy.record_page_titles,
            ignored_apps: copy.ignored_apps,
            ignored_domains: copy.ignored_domains,
        }
    }

    /// Validates `config` and takes its snapshot.
    pub fn from_checked_config(config: &AppConfig) -> (r: Result<
        RuntimeConfigSnapshot,
        ConfigError,
    >)
        ensures
            match r {
                Ok(s) => config.validate_spec(loopback_of(config.listen_addr@)) == Ok::<(), ConfigError>(())
                    && s.health_reminder_work_hours == window_of(
                    window_outcome(opt_view(config.health_reminder_work_start), opt_view(config.health_reminder_work_end)),
                ) && s.health_reminder_quiet_hours == window_of(
                    window_outcome(opt_view(config.health_reminder_quiet_start), opt_view(config.health_reminder_quiet_end)),
                ) && s.ignored_apps@ == config.ignored_apps@ && s.ignored_domains@ == config.ignored_domains@
                    && s.health_reminder_enabled == config.health_reminder_enabled
                    && s.health_reminder_threshold_secs == config.health_reminder_threshold_secs
                    && s.record_window_titles == config.record_window_titles
                    && s.record_page_titles == config.record_page_titles,
                Err(e) => config.validate_spec(loopback_of(config.listen_addr@)) == Err::<(), ConfigError>(e),
            },
    {
        match config.validate() {
            Err(e) => Err(e),
            Ok(()) => Ok(Self::from_config(config)),
        }
    }

    pub open spec fn ignores_app(self, process_name: Seq<char>) -> bool {
        listed_spec(self.ignored_apps@, process_name)
    }

    pub open spec fn ignores_domain(self, domain: Seq<char>) -> bool {
        listed_spec(self.ignored_domains@, domain)
    }

    pub fn is_ignored_app(&self, process_name: &str) -> (r: bool)
        ensures
            r == self.ignores_app(process_name@),
    {
        is_listed(&self.ignored_apps, process_name)
    }

    pub fn is_ignored_domain(&self, domain: &str) -> (r: bool)
        ensures
            r == self.ignores_domain(domain@),
    {
        is_listed(&self.ignored_domains, domain)
    }
}

fn opt_as_str(v: &Option<String>) -> (r: Option<&str>)
    ensures
        match r {
            Some(s) => opt_view(*v) == Some(s@),
            None => opt_view(*v) is None,
        },
{
    match v {
        Some(s) => Some(s.as_str()),
        None => None,
    }
}

/// The payload as stored: the page title dropped unless page titles are recorded.
pub fn browser_payload_for_storage(payload: BrowserEventPayload, record_page_titles: bool) -> (r:
    BrowserEventPayload)
    ensures
        r.domain == payload.domain,
        r.browser_window_id == payload.browser_window_id,
        r.tab_id == payload.tab_id,
        r.observed_at == payload.observed_at,
        r.page_title == if record_page_titles {
            payload.page_title
        } else {
            None
        },
{
    BrowserEventPayload {
        page_title: if record_page_titles {
            payload.page_title
        } else {
            None
        },
        ..payload
    }
}

// ---------------------------------------------------------------------------
// Display names
// ---------------------------------------------------------------------------

/// A word with its first character upper-cased (Unicode) and the rest in ASCII
/// lower case.
pub open spec fn title_case_spec(w: Seq<char>) -> Seq<char> {
    if w.len() == 0 {
        Seq::empty()
    } else {
        upper_of(w[0]) + lower_seq(w.drop_first())
    }
}

pub fn title_case_word(value: &str) -> (r: String)
    ensures
        r@ == title_case_spec(value@),
{
    let v = chars_of(value);
    if v.len() == 0 {
        return String::new();
    }
    let first = char_to_uppercase(v[0]);
    let rest = to_ascii_lowercase(&slice_copy(&v, 1, v.len()));
    proof {
        assert(v@.subrange(1, v@.len() as int) =~= v@.drop_first());
    }
    string_from(&concat(&first, &rest))
}

/// Names for well-known executables.
pub open spec fn known_display_name(lower: Seq<char>) -> Option<Seq<char>> {
    if lower == "msedge.exe"@ {
        Some("Microsoft Edge"@)
    } else if lower == "chrome.exe"@ {
        Some("Google Chrome"@)
    } else if lower == "firefox.exe"@ {
        Some("Mozilla Firefox"@)
    } else if lower == "code.exe"@ {
        Some("Visual Studio Code"@)
    } else if lower == "explorer.exe"@ {
        Some("Windows Explorer"@)
    } else if lower == "wezterm-gui.exe"@ {
        Some("WezTerm"@)
    } else {
        None
    }
}

/// The words of a lower-cased executable name: `.exe` suffixes removed, split at
/// `-` and `_`, empty pieces dropped.
pub open spec fn name_words(lower: Seq<char>) -> Seq<Seq<char>> {
    nonempty_pieces(split_on(strip_suffixes(lower, ".exe"@), |c: char| c == '-' || c == '_'))
}

/// A readable application name: a fixed name for well-known executables, else the
/// title-cased words of the executable name joined with spaces.
pub open spec fn display_name_spec(process_name: Seq<char>) -> Seq<char> {
    let lower = lower_seq(process_name);
    match known_display_name(lower) {
        Some(n) => n,
        None => join_with(name_words(lower).map_values(|w: Seq<char>| title_case_spec(w)), " "@),
    }
}

pub fn display_name_for_process(process_name: &str) -> (r: String)
    ensures
        r@ == display_name_spec(process_name@),
{
    let lower = to_ascii_lowercase(&chars_of(process_name));
    if seq_equal(&lower, &chars_of("msedge.exe")) {
        return String::from_str("Microsoft Edge");
    }
    if seq_equal(&lower, &chars_of("chrome.exe")) {
        return String::from_str("Google Chrome");
    }
    if seq_equal(&lower, &chars_of("firefox.exe")) {
        return String::from_str("Mozilla Firefox");
    }
    if seq_equal(&lower, &chars_of("code.exe")) {
        return String::from_str("Visual Studio Code");
    }
    if seq_equal(&lower, &chars_of("explorer.exe")) {
        return String::from_str("Windows Explorer");
    }
    if seq_equal(&lower, &chars_of("wezterm-gui.exe")) {
        return String::from_str("WezTerm");
    }
    let stem = trim_end_matches(&lower, &chars_of(".exe"));
    let words = keep_nonempty(split_chars_by(&stem, '-', '_'));
    let ghost ws = views_of(words@);
    let mut titled: Vec<Vec<char>> = Vec::new();
    let mut i: usize = 0;
    while i < words.len()
        invariant
            i <= words@.len(),
            ws == views_of(words@),
            views_of(titled@) == ws.subrange(0, i as int).map_values(|w: Seq<char>| title_case_spec(w)),
        decreases words@.len() - i,
    {
        let t = title_case_word(string_from(&words[i]).as_str());
        let ghost before = views_of(titled@);
        titled.push(chars_of(t.as_str()));
        proof {
            assert(views_of(titled@) =~= before.push(title_case_spec(ws[i as int])));
            assert(ws.subrange(0, i + 1).map_values(|w: Seq<char>| title_case_spec(w)) =~= ws.subrange(
                0,
                i as int,
            ).map_values(|w: Seq<char>| title_case_spec(w)).push(title_case_spec(ws[i as int])));
        }
        i += 1;
    }
    proof {
        assert(ws.subrange(0, ws.len() as int) =~= ws);
    }
    string_from(&join_pieces(&titled, &chars_of(" ")))
}

// ---------------------------------------------------------------------------
// Open segments
// ---------------------------------------------------------------------------

/// A heartbeat of the open segment `id`; `persist_at` is the last-seen time to
/// write, present only when a write is due.
#[derive(Clone, Copy, Debug, PartialEq, Eq, Structural)]
pub struct Touch {
    pub id: i64,
    pub persist_at: Option<i64>,
}

pub open spec fn later(a: i64, b: i64) -> i64 {
    if a >= b {
        a
    } else {
        b
    }
}

/// The heartbeat of a segment last seen at `last_observed_at`, last written at
/// `last_persisted_at`, and observed again at `observed_at`.
pub open spec fn touch_of(id: i64, last_observed_at: i64, last_persisted_at: i64, observed_at: i64) -> Touch {
    let seen = later(last_observed_at, observed_at);
    Touch {
        id,
        persist_at: if flush_due_spec(last_persisted_at as int, seen as int) {
            Some(seen)
        } else {
            None
        },
    }
}

fn touch_for(id: i64, last_observed_at: i64, last_persisted_at: i64, observed_at: i64) -> (r: Touch)
    ensures
        r == touch_of(id, last_observed_at, last_persisted_at, observed_at),
{
    let seen = if last_observed_at >= observed_at {
        last_observed_at
    } else {
        observed_at
    };
    Touch {
        id,
        persist_at: if heartbeat_flush_due(last_persisted_at, seen) {
            Some(seen)
        } else {
            None
        },
    }
}

pub open spec fn focus_id(f: Option<OpenFocusSegment>) -> Option<i64> {
    match f {
        Some(s) => Some(s.id),
        None => None,
    }
}

pub open spec fn browser_id(b: Option<OpenBrowserSegment>) -> Option<i64> {
    match b {
        Some(s) => Some(s.id),
        None => None,
    }
}

pub open spec fn presence_id(p: Option<OpenPresenceSegment>) -> Option<i64> {
    match p {
        Some(s) => Some(s.id),
        None => None,
    }
}

/// Nothing but the open focus and browser segments changed.
pub open spec fn same_except_focus_browser(a: RuntimeState, b: RuntimeState) -> bool {
    &&& a.current_presence == b.current_presence
    &&& a.health_reminder == b.health_reminder
    &&& a.tracking_paused == b.tracking_paused
    &&& a.paused_since == b.paused_since
    &&& a.pause_until == b.pause_until
}

// ---------------------------------------------------------------------------
// Focus
// ---------------------------------------------------------------------------

/// The store operations a foreground-window observation calls for, all at the
/// observation instant: a heartbeat of the open focus segment, or ending it (and
/// the browser segment when the foreground is no longer a browser) and starting one
/// for the new application.
#[derive(Clone, Debug)]
pub struct FocusSyncPlan {
    pub touch: Option<Touch>,
    pub end_focus: Option<i64>,
    pub end_browser: Option<i64>,
    pub start: Option<AppInfo>,
}

/// Browser segments end when the foreground is empty, ignored or not a browser.
pub open spec fn leaves_browser(snapshot: Option<ForegroundWindowSnapshot>, config: RuntimeConfigSnapshot) -> bool {
    match snapshot {
        None => true,
        Some(s) => config.ignores_app(s.process_name@) || !s.is_browser,
    }
}

/// The open focus segment is the observed window.
pub open spec fn same_focus(current: Option<OpenFocusSegment>, snapshot: Option<ForegroundWindowSnapshot>, config: RuntimeConfigSnapshot) -> bool {
    match (current, snapshot) {
        (Some(c), Some(s)) => !config.ignores_app(s.process_name@) && c.fingerprint@ == s.fingerprint_view(),
        _ => false,
    }
}

/// How the new focus segment describes the application.
pub open spec fn app_info_matches(app: AppInfo, s: ForegroundWindowSnapshot, record_window_titles: bool) -> bool {
    &&& app.process_name == s.process_name
    &&& app.display_name@ == display_name_spec(s.process_name@)
    &&& app.exe_path == Some(s.exe_path)
    &&& app.window_title == if record_window_titles {
        s.window_title
    } else {
        None
    }
    &&& app.is_browser == s.is_browser
}

/// Turns a foreground-window observation into store operations and updates the
/// open segments: the same window is touched; otherwise the open focus segment is
/// taken for ending, the browser segment too when the foreground leaves the
/// browsers, and a segment for the new window is to be started unless the window is
/// absent or ignored.
pub fn plan_focus_sync(
    runtime: &mut RuntimeState,
    snapshot: &Option<ForegroundWindowSnapshot>,
    observed_at: i64,
    config: &RuntimeConfigSnapshot,
) -> (r: FocusSyncPlan)
    ensures
        same_except_focus_browser(*old(runtime), *final(runtime)),
        same_focus(old(runtime).current_focus, *snapshot, *config) ==> {
            let c = old(runtime).current_focus->Some_0;
            &&& r.touch == Some(touch_of(c.id, c.last_observed_at, c.last_persisted_at, observed_at))
            &&& final(runtime).current_focus == Some(OpenFocusSegment {
                last_observed_at: later(c.last_observed_at, observed_at),
                ..c
            })
            &&& final(runtime).current_browser == old(runtime).current_browser
            &&& r.end_focus is None && r.end_browser is None && r.start is None
        },
        !same_focus(old(runtime).current_focus, *snapshot, *config) ==> {
            &&& r.touch is None
            &&& final(runtime).current_focus is None
            &&& r.end_focus == focus_id(old(runtime).current_focus)
            &&& leaves_browser(*snapshot, *config) ==> final(runtime).current_browser is None
                && r.end_browser == browser_id(old(runtime).current_browser)
            &&& !leaves_browser(*snapshot, *config) ==> final(runtime).current_browser
                == old(runtime).current_browser && r.end_browser is None
            &&& match *snapshot {
                Some(s) => if config.ignores_app(s.process_name@) {
                    r.start is None
                } else {
                    r.start matches Some(app) && app_info_matches(app, s, config.record_window_titles)
                },
                None => r.start is None,
            }
        },
{
    let ignored = match snapshot {
        Some(s) => config.is_ignored_app(s.process_name.as_str()),
        None => false,
    };
    let same = match (&runtime.current_focus, snapshot) {
        (Some(c), Some(s)) => !ignored && seq_equal(
            &chars_of(c.fingerprint.as_str()),
            &chars_of(s.fingerprint().as_str()),
        ),
        _ => false,
    };
    if same {
        let cur = runtime.current_focus.take();
        match cur {
            Some(c) => {
                let t = touch_for(c.id, c.last_observed_at, c.last_persisted_at, observed_at);
                let mut next = c;
                if observed_at > next.last_observed_at {
                    next.last_observed_at = observed_at;
                }
                runtime.current_focus = Some(next);
                return FocusSyncPlan { touch: Some(t), end_focus: None, end_browser: None, start: None };
            },
            None => {
                return FocusSyncPlan { touch: None, end_focus: None, end_browser: None, start: None };
            },
        }
    }
    let previous = runtime.current_focus.take();
    let end_focus = match previous {
        Some(p) => Some(p.id),
        None => None,
    };
    let leaving_browser = match snapshot {
        Some(s) => ignored || !s.is_browser,
        None => true,
    };
    let end_browser = if leaving_browser {
        match runtime.current_browser.take() {
            Some(b) => Some(b.id),
            None => None,
        }
    } else {
        None
    };
    let start = match snapshot {
        Some(s) => if ignored {
            None
        } else {
            Some(
                AppInfo {
                    process_name: s.process_name.clone(),
                    display_name: display_name_for_process(s.process_name.as_str()),
                    exe_path: Some(s.exe_path.clone()),
                    window_title: if config.record_window_titles {
                        s.window_title.clone()
                    } else {
                        None
                    },
                    is_browser: s.is_browser,
                },
            )
        },
        None => None,
    };
    FocusSyncPlan { touch: None, end_focus, end_browser, start }
}

/// Records the focus segment the store started for `snapshot`.
pub fn record_focus_started(runtime: &mut RuntimeState, id: i64, snapshot: &ForegroundWindowSnapshot, observed_at: i64)
    ensures
        same_except_focus_browser(*old(runtime), *final(runtime)),
        final(runtime).current_browser == old(runtime).current_browser,
        final(runtime).current_focus matches Some(f) && f.id == id && f.fingerprint@
            == snapshot.fingerprint_view() && f.process_name == snapshot.process_name && f.is_browser
            == snapshot.is_browser && f.last_observed_at == observed_at && f.last_persisted_at
            == observed_at,
{
    runtime.current_focus = Some(
        OpenFocusSegment {
            id,
            fingerprint: snapshot.fingerprint(),
            process_name: snapshot.process_name.clone(),
            is_browser: snapshot.is_browser,
            last_observed_at: observed_at,
            last_persisted_at: observed_at,
        },
    );
}

/// Records that the heartbeat `persist_at` of focus segment `id` was written; a
/// segment that was replaced meanwhile is left alone.
pub fn record_focus_persisted(runtime: &mut RuntimeState, id: i64, persist_at: i64)
    ensures
        same_except_focus_browser(*old(runtime), *final(runtime)),
        final(runtime).current_browser == old(runtime).current_browser,
        (old(runtime).current_focus matches Some(f) && f.id == id) ==> final(runtime).current_focus
            == Some(OpenFocusSegment { last_persisted_at: persist_at, ..old(runtime).current_focus->Some_0 }),
        !(old(runtime).current_focus matches Some(f) && f.id == id) ==> final(runtime).current_focus
            == old(runtime).current_focus,
{
    let cur = runtime.current_focus.take();
    match cur {
        Some(c) => {
            let mut next = c;
            if next.id == id {
                next.last_persisted_at = persist_at;
            }
            runtime.current_focus = Some(next);
        },
        None => {},
    }
}

// ---------------------------------------------------------------------------
// Presence
// ---------------------------------------------------------------------------

/// The store operations a presence observation calls for: a heartbeat of the open
/// presence segment when the state is unchanged, else ending it and starting one
/// in the new state.
#[derive(Clone, Copy, Debug)]
pub struct PresenceSyncPlan {
    pub touch: Option<Touch>,
    pub end_presence: Option<i64>,
    pub start: Option<PresenceState>,
}

/// Nothing but the open presence segment changed.
pub open spec fn same_except_presence(a: RuntimeState, b: RuntimeState) -> bool {
    &&& a.current_focus == b.current_focus
    &&& a.current_browser == b.current_browser
    &&& a.health_reminder == b.health_reminder
    &&& a.tracking_paused == b.tracking_paused
    &&& a.paused_since == b.paused_since
    &&& a.pause_until == b.pause_until
}

pub fn plan_presence_sync(runtime: &mut RuntimeState, presence: PresenceState, observed_at: i64) -> (r:
    PresenceSyncPlan)
    ensures
        same_except_presence(*old(runtime), *final(runtime)),
        (old(runtime).current_presence matches Some(c) && c.state == presence) ==> {
            let c = old(runtime).current_presence->Some_0;
            &&& r.touch == Some(touch_of(c.id, c.last_observed_at, c.last_persisted_at, observed_at))
            &&& final(runtime).current_presence == Some(OpenPresenceSegment {
                last_observed_at: later(c.last_observed_at, observed_at),
                ..c
            })
            &&& r.end_presence is None && r.start is None
        },
        !(old(runtime).current_presence matches Some(c) && c.state == presence) ==> {
            &&& r.touch is None
            &&& final(runtime).current_presence is None
            &&& r.end_presence == presence_id(old(runtime).current_presence)
            &&& r.start == Some(presence)
        },
{
    let cur = runtime.current_presence.take();
    match cur {
        Some(c) => {
            if c.state == presence {
                let t = touch_for(c.id, c.last_observed_at, c.last_persisted_at, observed_at);
                let mut next = c;
                if observed_at > next.last_observed_at {
                    next.last_observed_at = observed_at;
                }
                runtime.current_presence = Some(next);
                PresenceSyncPlan { touch: Some(t), end_presence: None, start: None }
            } else {
                PresenceSyncPlan { touch: None, end_presence: Some(c.id), start: Some(presence) }
            }
        },
        None => PresenceSyncPlan { touch: None, end_presence: None, start: Some(presence) },
    }
}

/// Records the presence segment the store started.
pub fn record_presence_started(runtime: &mut RuntimeState, id: i64, presence: PresenceState, observed_at: i64)
    ensures
        same_except_presence(*old(runtime), *final(runtime)),
        final(runtime).current_presence == Some(OpenPresenceSegment {
            id,
            state: presence,
            last_observed_at: observed_at,
            last_persisted_at: observed_at,
        }),
{
    runtime.current_presence = Some(
        OpenPresenceSegment { id, state: presence, last_observed_at: observed_at, last_persisted_at: observed_at },
    );
}

/// Records that the heartbeat `persist_at` of presence segment `id` was written.
pub fn record_presence_persisted(runtime: &mut RuntimeState, id: i64, persist_at: i64)
    ensures
        same_except_presence(*old(runtime), *final(runtime)),
        (old(runtime).current_presence matches Some(p) && p.id == id) ==> final(runtime).current_presence
            == Some(OpenPresenceSegment { last_persisted_at: persist_at, ..old(runtime).current_presence->Some_0 }),
        !(old(runtime).current_presence matches Some(p) && p.id == id) ==> final(runtime).current_presence
            == old(runtime).current_presence,
{
    let cur = runtime.current_presence.take();
    match cur {
        Some(c) => {
            let mut next = c;
            if next.id == id {
                next.last_persisted_at = persist_at;
            }
            runtime.current_presence = Some(next);
        },
        None => {},
    }
}

// ---------------------------------------------------------------------------
// Browser events
// ---------------------------------------------------------------------------

pub const REASON_PAUSED: &'static str = "tracking is paused";

pub const REASON_STALE: &'static str = "stale browser observation";

pub const REASON_IGNORED_DOMAIN: &'static str = "domain is ignored by local config";

pub const REASON_NOT_FOREGROUND: &'static str = "browser is not the foreground app";

/// Why a browser event is not recorded.
#[derive(Clone, Copy, Debug, PartialEq, Eq, Structural)]
pub enum BrowserRejection {
    Paused,
    Stale,
    IgnoredDomain,
    NotForeground,
}

impl BrowserRejection {
    pub open spec fn reason_spec(self) -> Seq<char> {
        match self {
            BrowserRejection::Paused => REASON_PAUSED@,
            BrowserRejection::Stale => REASON_STALE@,
            BrowserRejection::IgnoredDomain => REASON_IGNORED_DOMAIN@,
            BrowserRejection::NotForeground => REASON_NOT_FOREGROUND@,
        }
    }

    /// The reason text sent back to the extension.
    pub fn reason(self) -> (r: &'static str)
        ensures
            r@ == self.reason_spec(),
    {
        match self {
            BrowserRejection::Paused => REASON_PAUSED,
            BrowserRejection::Stale => REASON_STALE,
            BrowserRejection::IgnoredDomain => REASON_IGNORED_DOMAIN,
            BrowserRejection::NotForeground => REASON_NOT_FOREGROUND,
        }
    }
}

/// The store operations a browser event calls for and the answer to it. When
/// `start` is set, a browser segment for the payload is to be started.
#[derive(Clone, Debug)]
pub struct BrowserEventPlan {
    pub end_browser: Option<i64>,
    pub touch: Option<Touch>,
    pub start: bool,
    pub ack: BrowserEventAck,
}

/// The answer accepts the event.
pub open spec fn ack_accepts(ack: BrowserEventAck) -> bool {
    ack.accepted && ack.reason is None
}

/// The answer rejects the event for `why`.
pub open spec fn ack_rejects(ack: BrowserEventAck, why: BrowserRejection) -> bool {
    !ack.accepted && (ack.reason matches Some(t) && t@ == why.reason_spec())
}

/// A browser is in the foreground: the open focus segment is a browser's, or the
/// window just read belongs to a browser that is not ignored.
pub open spec fn browser_in_foreground(runtime: RuntimeState, snapshot: Option<ForegroundWindowSnapshot>, config: RuntimeConfigSnapshot) -> bool {
    (runtime.current_focus matches Some(f) && f.is_browser) || (snapshot matches Some(s) && (s.is_browser
        && !config.ignores_app(s.process_name@)))
}

/// Which rule decides a browser event: pause, staleness, the ignored domains and
/// the foreground, in that order; `None` when the event is recorded.
pub open spec fn browser_rejection(runtime: RuntimeState, payload: BrowserEventPayload, observed_at: i64, snapshot: Option<ForegroundWindowSnapshot>, config: RuntimeConfigSnapshot) -> Option<BrowserRejection> {
    if runtime.tracking_paused {
        Some(BrowserRejection::Paused)
    } else if (runtime.current_browser matches Some(c) && observed_at < c.last_observed_at) {
        Some(BrowserRejection::Stale)
    } else if config.ignores_domain(payload.domain@) {
        Some(BrowserRejection::IgnoredDomain)
    } else if !browser_in_foreground(runtime, snapshot, config) {
        Some(BrowserRejection::NotForeground)
    } else {
        None
    }
}

/// The open browser segment is the payload's tab.
pub open spec fn same_tab(current: Option<OpenBrowserSegment>, payload: BrowserEventPayload) -> bool {
    current matches Some(c) && (c.domain@ == payload.domain@ && c.browser_window_id
        == payload.browser_window_id && c.tab_id == payload.tab_id)
}

/// Nothing but the open browser segment changed.
pub open spec fn same_except_browser(a: RuntimeState, b: RuntimeState) -> bool {
    &&& a.current_focus == b.current_focus
    &&& a.current_presence == b.current_presence
    &&& a.health_reminder == b.health_reminder
    &&& a.tracking_paused == b.tracking_paused
    &&& a.paused_since == b.paused_since
    &&& a.pause_until == b.pause_until
}

fn reject(why: BrowserRejection) -> (r: BrowserEventAck)
    ensures
        ack_rejects(r, why),
{
    BrowserEventAck { accepted: false, reason: Some(String::from_str(why.reason())) }
}

/// What a browser event does: a rejected one is answered with its reason, changes
/// nothing when paused or stale, and ends the open browser segment when its domain
/// is ignored or no browser is in the foreground; an accepted one touches the open
/// segment of the same domain, window and tab, and otherwise ends the open segment
/// and starts one for the payload.
pub open spec fn browser_plan_spec(
    before: RuntimeState,
    after: RuntimeState,
    payload: BrowserEventPayload,
    observed_at: i64,
    snapshot: Option<ForegroundWindowSnapshot>,
    config: RuntimeConfigSnapshot,
    r: BrowserEventPlan,
) -> bool {
    match browser_rejection(before, payload, observed_at, snapshot, config) {
        Some(why) => {
            &&& ack_rejects(r.ack, why)
            &&& r.touch is None && !r.start
            &&& (why == BrowserRejection::Paused || why == BrowserRejection::Stale) ==> {
                &&& r.end_browser is None
                &&& after.current_browser == before.current_browser
            }
            &&& (why == BrowserRejection::IgnoredDomain || why == BrowserRejection::NotForeground)
                ==> {
                &&& r.end_browser == browser_id(before.current_browser)
                &&& after.current_browser is None
            }
        },
        None => {
            &&& ack_accepts(r.ack)
            &&& same_tab(before.current_browser, payload) ==> {
                let c = before.current_browser->Some_0;
                &&& r.touch == Some(touch_of(c.id, c.last_observed_at, c.last_persisted_at, observed_at))
                &&& after.current_browser == Some(OpenBrowserSegment {
                    last_observed_at: later(c.last_observed_at, observed_at),
                    ..c
                })
                &&& r.end_browser is None && !r.start
            }
            &&& !same_tab(before.current_browser, payload) ==> {
                &&& r.touch is None && r.start
                &&& r.end_browser == browser_id(before.current_browser)
                &&& after.current_browser is None
            }
        },
    }
}

/// Decides a browser event (its payload already as stored). `snapshot` is the
/// foreground window read for the event, `None` when none could be read. Paused
/// and stale events change nothing; an ignored domain or a browser out of the
/// foreground ends the open browser segment; the same tab is touched; another tab
/// ends the open segment and starts one for the payload.
pub fn plan_browser_event(
    runtime: &mut RuntimeState,
    payload: &BrowserEventPayload,
    observed_at: i64,
    snapshot: &Option<ForegroundWindowSnapshot>,
    config: &RuntimeConfigSnapshot,
) -> (r: BrowserEventPlan)
    ensures
        same_except_browser(*old(runtime), *final(runtime)),
        browser_plan_spec(*old(runtime), *final(runtime), *payload, observed_at, *snapshot, *config, r),
{
    let none_plan = BrowserEventPlan {
        end_browser: None,
        touch: None,
        start: false,
        ack: BrowserEventAck { accepted: false, reason: None },
    };
    if runtime.tracking_paused {
        return BrowserEventPlan { ack: reject(BrowserRejection::Paused), ..none_plan };
    }
    let stale = match &runtime.current_browser {
        Some(c) => observed_at < c.last_observed_at,
        None => false,
    };
    if stale {
        return BrowserEventPlan { ack: reject(BrowserRejection::Stale), ..none_plan };
    }
    if config.is_ignored_domain(payload.domain.as_str()) {
        let end_browser = match runtime.current_browser.take() {
            Some(b) => Some(b.id),
            None => None,
        };
        return BrowserEventPlan { end_browser, ack: reject(BrowserRejection::IgnoredDomain), ..none_plan };
    }
    let in_runtime = match &runtime.current_focus {
        Some(f) => f.is_browser,
        None => false,
    };
    let in_snapshot = match snapshot {
        Some(s) => s.is_browser && !config.is_ignored_app(s.process_name.as_str()),
        None => false,
    };
    if !(in_runtime || in_snapshot) {
        let end_browser = match runtime.current_browser.take() {
            Some(b) => Some(b.id),
            None => None,
        };
        return BrowserEventPlan { end_browser, ack: reject(BrowserRejection::NotForeground), ..none_plan };
    }
    let accepted = BrowserEventAck { accepted: true, reason: None };
    let cur = runtime.current_browser.take();
    match cur {
        Some(c) => {
            let same = seq_equal(&chars_of(c.domain.as_str()), &chars_of(payload.domain.as_str()))
                && c.browser_window_id == payload.browser_window_id && c.tab_id == payload.tab_id;
            if same {
                let t = touch_for(c.id, c.last_observed_at, c.last_persisted_at, observed_at);
                let mut next = c;
                if observed_at > next.last_observed_at {
                    next.last_observed_at = observed_at;
                }
                runtime.current_browser = Some(next);
                BrowserEventPlan { end_browser: None, touch: Some(t), start: false, ack: accepted }
            } else {
                BrowserEventPlan { end_browser: Some(c.id), touch: None, start: true, ack: accepted }
            }
        },
        None => BrowserEventPlan { end_browser: None, touch: None, start: true, ack: accepted },
    }
}

/// Records the browser segment the store started for `payload`.
pub fn record_browser_started(runtime: &mut RuntimeState, id: i64, payload: &BrowserEventPayload, observed_at: i64)
    ensures
        same_except_browser(*old(runtime), *final(runtime)),
        final(runtime).current_browser matches Some(b) && b.id == id && b.domain == payload.domain
            && b.browser_window_id == payload.browser_window_id && b.tab_id == payload.tab_id
            && b.last_observed_at == observed_at && b.last_persisted_at == observed_at,
{
    runtime.current_browser = Some(
        OpenBrowserSegment {
            id,
            domain: payload.domain.clone(),
            browser_window_id: payload.browser_window_id,
            tab_id: payload.tab_id,
            last_observed_at: observed_at,
            last_persisted_at: observed_at,
        },
    );
}

/// Records that the heartbeat `persist_at` of browser segment `id` was written.
pub fn record_browser_persisted(runtime: &mut RuntimeState, id: i64, persist_at: i64)
    ensures
        same_except_browser(*old(runtime), *final(runtime)),
        (old(runtime).current_browser matches Some(b) && b.id == id) ==> final(runtime).current_browser
            == Some(OpenBrowserSegment { last_persisted_at: persist_at, ..old(runtime).current_browser->Some_0 }),
        !(old(runtime).current_browser matches Some(b) && b.id == id) ==> final(runtime).current_browser
            == old(runtime).current_browser,
{
    let cur = runtime.current_browser.take();
    match cur {
        Some(c) => {
            let mut next = c;
            if next.id == id {
                next.last_persisted_at = persist_at;
            }
            runtime.current_browser = Some(next);
        },
        None => {},
    }
}

// ---------------------------------------------------------------------------
// Break reminders
// ---------------------------------------------------------------------------

/// Seconds of rest after which the activity streak starts over.
pub const REST_RESET_SECONDS: i64 = 180;

/// The reminder state can be stepped without overflow: the streak and rest starts
/// are valid instants.
pub open spec fn reminder_wf(r: HealthReminderRuntime) -> bool {
    &&& (r.active_streak_started_at matches Some(t) ==> valid_instant(t as int))
    &&& (r.rest_started_at matches Some(t) ==> valid_instant(t as int))
}

/// The configured threshold, at least one second.
pub open spec fn effective_threshold(threshold_secs: u64) -> u64 {
    if threshold_secs == 0 {
        1
    } else {
        threshold_secs
    }
}

/// The threshold as the signed number it is compared with.
pub open spec fn threshold_as_signed(t: u64) -> int {
    if t <= i64::MAX as u64 {
        t as int
    } else {
        t - 0x1_0000_0000_0000_0000
    }
}

/// A rest that lasted long enough ends the streak.
pub open spec fn reset_streak(r: HealthReminderRuntime) -> HealthReminderRuntime {
    HealthReminderRuntime {
        active_streak_started_at: None,
        reminded_for_current_streak: false,
        snoozed_until: None,
        ..r
    }
}

/// A break reminder to show: the threshold and the streak length, in seconds.
#[derive(Clone, Copy, Debug, PartialEq, Eq, Structural)]
pub struct BreakReminder {
    pub threshold_secs: u64,
    pub streak_secs: i64,
}

/// One presence observation applied to the reminder state. Returns the new state
/// and the reminder to show, if any.
pub open spec fn reminder_step_spec(
    r0: HealthReminderRuntime,
    enabled: bool,
    threshold_secs: u64,
    presence: PresenceState,
    observed_at: i64,
    local_date: i64,
    allowed: bool,
) -> (HealthReminderRuntime, Option<BreakReminder>) {
    if !enabled {
        (HealthReminderRuntime::new_spec(), None)
    } else {
        let r1 = if (r0.dismissed_local_date matches Some(d) && d != local_date) {
            HealthReminderRuntime { dismissed_local_date: None, reminded_for_current_streak: false, ..r0 }
        } else {
            r0
        };
        let r2 = if (r1.snoozed_until matches Some(u) && observed_at >= u) {
            HealthReminderRuntime { snoozed_until: None, ..r1 }
        } else {
            r1
        };
        let suppressed = (r2.snoozed_until matches Some(u) && observed_at < u) || r2.dismissed_local_date
            == Some(local_date);
        let threshold = effective_threshold(threshold_secs);
        match presence {
            PresenceState::Active => {
                let r3 = match r2.rest_started_at {
                    Some(rest) => {
                        let cleared = HealthReminderRuntime { rest_started_at: None, ..r2 };
                        if observed_at - rest >= REST_RESET_SECONDS {
                            reset_streak(cleared)
                        } else {
                            cleared
                        }
                    },
                    None => r2,
                };
                let start = match r3.active_streak_started_at {
                    Some(t) => t,
                    None => observed_at,
                };
                let r4 = HealthReminderRuntime { active_streak_started_at: Some(start), ..r3 };
                let elapsed = if observed_at - start >= 0 {
                    observed_at - start
                } else {
                    0
                };
                if elapsed >= threshold_as_signed(threshold) && !r4.reminded_for_current_streak && allowed
                    && !suppressed {
                    (
                        HealthReminderRuntime { reminded_for_current_streak: true, ..r4 },
                        Some(BreakReminder { threshold_secs: threshold, streak_secs: elapsed as i64 }),
                    )
                } else {
                    (r4, None)
                }
            },
            _ => {
                let rest = match r2.rest_started_at {
                    Some(t) => t,
                    None => observed_at,
                };
                let r3 = HealthReminderRuntime { rest_started_at: Some(rest), ..r2 };
                if observed_at - rest >= REST_RESET_SECONDS {
                    (reset_streak(r3), None)
                } else {
                    (r3, None)
                }
            },
        }
    }
}

/// Applies one presence observation to the break-reminder state: a disabled
/// reminder forgets everything; a dismissal from another day lapses; an expired
/// snooze lapses; three minutes of rest end the streak; an active streak that
/// reaches the threshold (at least one second) reminds once, inside the work hours,
/// outside the quiet hours, and unless snoozed or dismissed for today.
/// `local_date` and `local_time` are the observation's local date and seconds after
/// local midnight.
pub fn health_reminder_step(
    reminder: &mut HealthReminderRuntime,
    config: &RuntimeConfigSnapshot,
    presence: PresenceState,
    observed_at: i64,
    local_date: i64,
    local_time: u32,
) -> (r: Option<BreakReminder>)
    requires
        valid_instant(observed_at as int),
        reminder_wf(*old(reminder)),
    ensures
        (*final(reminder), r) == reminder_step_spec(
            *old(reminder),
            config.health_reminder_enabled,
            config.health_reminder_threshold_secs,
            presence,
            observed_at,
            local_date,
            health_reminder_allowed_spec(config.health_reminder_work_hours, config.health_reminder_quiet_hours, local_time as int),
        ),
        reminder_wf(*final(reminder)),
{
    let allowed = health_reminder_allowed(
        config.health_reminder_work_hours,
        config.health_reminder_quiet_hours,
        local_time,
    );
    if !config.health_reminder_enabled {
        *reminder = HealthReminderRuntime::new();
        return None;
    }
    let mut cur = *reminder;
    match cur.dismissed_local_date {
        Some(d) => {
            if d != local_date {
                cur.dismissed_local_date = None;
                cur.reminded_for_current_streak = false;
            }
        },
        None => {},
    }
    match cur.snoozed_until {
        Some(u) => {
            if observed_at >= u {
                cur.snoozed_until = None;
            }
        },
        None => {},
    }
    let snoozed = match cur.snoozed_until {
        Some(u) => observed_at < u,
        None => false,
    };
    let dismissed_today = match cur.dismissed_local_date {
        Some(d) => d == local_date,
        None => false,
    };
    let suppressed = snoozed || dismissed_today;
    let threshold: u64 = if config.health_reminder_threshold_secs == 0 {
        1
    } else {
        config.health_reminder_threshold_secs
    };
    let mut notice: Option<BreakReminder> = None;
    match presence {
        PresenceState::Active => {
            match cur.rest_started_at {
                Some(rest) => {
                    cur.rest_started_at = None;
                    if observed_at - rest >= REST_RESET_SECONDS {
                        cur.active_streak_started_at = None;
                        cur.reminded_for_current_streak = false;
                        cur.snoozed_until = None;
                    }
                },
                None => {},
            }
            let start = match cur.active_streak_started_at {
                Some(t) => t,
                None => observed_at,
            };
            cur.active_streak_started_at = Some(start);
            let elapsed: i64 = if observed_at - start >= 0 {
                observed_at - start
            } else {
                0
            };
            let limit: i64 = signed_threshold(threshold);
            if elapsed >= limit && !cur.reminded_for_current_streak && allowed && !suppressed {
                cur.reminded_for_current_streak = true;
                notice = Some(BreakReminder { threshold_secs: threshold, streak_secs: elapsed });
            }
        },
        _ => {
            let rest = match cur.rest_started_at {
                Some(t) => t,
                None => observed_at,
            };
            cur.rest_started_at = Some(rest);
            if observed_at - rest >= REST_RESET_SECONDS {
                cur.active_streak_started_at = None;
                cur.reminded_for_current_streak = false;
                cur.snoozed_until = None;
            }
        },
    }
    *reminder = cur;
    notice
}

/// `t as i64`: thresholds above `i64::MAX` wrap to negative numbers.
fn signed_threshold(t: u64) -> (r: i64)
    ensures
        r == threshold_as_signed(t),
{
    if t <= i64::MAX as u64 {
        t as i64
    } else {
        let below: u64 = t - (i64::MAX as u64) - 1;
        (below as i64) + i64::MIN
    }
}

/// At most one reminder per activity streak: after a reminder, the next active
/// observation on the same local date does not remind again, whatever its time.
pub proof fn law_reminder_once_per_streak(
    r0: HealthReminderRuntime,
    threshold_secs: u64,
    local_date: i64,
    t1: i64,
    allowed1: bool,
    t2: i64,
    allowed2: bool,
    threshold2: u64,
)
    requires
        reminder_step_spec(r0, true, threshold_secs, PresenceState::Active, t1, local_date, allowed1).1 is Some,
    ensures
        ({
            let r1 = reminder_step_spec(r0, true, threshold_secs, PresenceState::Active, t1, local_date, allowed1).0;
            reminder_step_spec(r1, true, threshold2, PresenceState::Active, t2, local_date, allowed2).1 is None
        }),
{
}

/// Break-reminder state and number of reminders after a run of active
/// observations on one local date, each given as its instant and whether the work
/// and quiet hours allowed a reminder then, with no user action in between.
pub open spec fn replay_active_day(
    r0: HealthReminderRuntime,
    threshold_secs: u64,
    local_date: i64,
    observations: Seq<(i64, bool)>,
) -> (HealthReminderRuntime, nat)
    decreases observations.len(),
{
    if observations.len() == 0 {
        (r0, 0)
    } else {
        let prev = replay_active_day(r0, threshold_secs, local_date, observations.drop_last());
        let (t, allowed) = observations.last();
        let step = reminder_step_spec(prev.0, true, threshold_secs, PresenceState::Active, t, local_date, allowed);
        (step.0, prev.1 + if step.1 is Some { 1nat } else { 0nat })
    }
}

/// After a reminder: the streak is marked reminded, no rest is running and no
/// dismissal from another day is pending.
spec fn reminded_on(r: HealthReminderRuntime, local_date: i64) -> bool {
    &&& r.reminded_for_current_streak
    &&& r.rest_started_at is None
    &&& !(r.dismissed_local_date matches Some(d) && d != local_date)
}

proof fn lemma_replay_active_day(r0: HealthReminderRuntime, threshold_secs: u64, local_date: i64, observations: Seq<(i64, bool)>)
    ensures
        replay_active_day(r0, threshold_secs, local_date, observations).1 <= 1,
        replay_active_day(r0, threshold_secs, local_date, observations).1 == 1 ==> reminded_on(
            replay_active_day(r0, threshold_secs, local_date, observations).0,
            local_date,
        ),
    decreases observations.len(),
{
    if observations.len() > 0 {
        lemma_replay_active_day(r0, threshold_secs, local_date, observations.drop_last());
    }
}

/// Law: over consecutive active observations on one local date, with the reminder
/// enabled and no snooze or dismissal chosen in between, at most one break
/// reminder is given.
pub proof fn law_one_reminder_per_active_run(
    r0: HealthReminderRuntime,
    threshold_secs: u64,
    local_date: i64,
    observations: Seq<(i64, bool)>,
)
    ensures
        replay_active_day(r0, threshold_secs, local_date, observations).1 <= 1,
{
    lemma_replay_active_day(r0, threshold_secs, local_date, observations);
}

/// During a run of active observations that began in the initial state: the
/// streak started at the run's first observation, and no rest, snooze or
/// dismissal is pending.
spec fn in_run_from(r: HealthReminderRuntime, t0: i64) -> bool {
    &&& r.active_streak_started_at == Some(t0)
    &&& r.rest_started_at is None
    &&& r.snoozed_until is None
    &&& r.dismissed_local_date is None
}

proof fn lemma_run_from_start(threshold_secs: u64, local_date: i64, observations: Seq<(i64, bool)>)
    requires
        observations.len() >= 1,
    ensures
        in_run_from(
            replay_active_day(HealthReminderRuntime::new_spec(), threshold_secs, local_date, observations).0,
            observations[0].0,
        ),
    decreases observations.len(),
{
    let p = observations.drop_last();
    if observations.len() > 1 {
        lemma_run_from_start(threshold_secs, local_date, p);
        assert(p[0] == observations[0]);
    } else {
        assert(p.len() == 0);
        assert(replay_active_day(HealthReminderRuntime::new_spec(), threshold_secs, local_date, p).0
            == HealthReminderRuntime::new_spec());
        assert(observations.last() == observations[0]);
    }
}

/// Law: in a run of active observations on one local date that starts from the
/// initial reminder state, with no user action in between, the observation at
/// index `i` gives a reminder only when the work and quiet hours allow it and at
/// least the threshold (at least one second) has passed since the run's first
/// observation.
pub proof fn law_reminder_waits_for_threshold(
    threshold_secs: u64,
    local_date: i64,
    observations: Seq<(i64, bool)>,
    i: int,
)
    requires
        threshold_secs <= i64::MAX as u64,
        0 <= i < observations.len(),
        reminder_step_spec(
            replay_active_day(HealthReminderRuntime::new_spec(), threshold_secs, local_date, observations.take(i)).0,
            true,
            threshold_secs,
            PresenceState::Active,
            observations[i].0,
            local_date,
            observations[i].1,
        ).1 is Some,
    ensures
        observations[i].1,
        observations[i].0 - observations[0].0 >= effective_threshold(threshold_secs),
{
    if i > 0 {
        let p = observations.take(i);
        lemma_run_from_start(threshold_secs, local_date, p);
        assert(p[0] == observations[0]);
    } else {
        assert(observations.take(0).len() == 0);
    }
}

/// Law: an accepted browser event whose domain differs from the open browser
/// segment's ends that segment and starts a new one for the event's domain; it
/// never extends the open segment.
pub proof fn law_other_domain_starts_new_segment(
    before: RuntimeState,
    after: RuntimeState,
    payload: BrowserEventPayload,
    observed_at: i64,
    snapshot: Option<ForegroundWindowSnapshot>,
    config: RuntimeConfigSnapshot,
    r: BrowserEventPlan,
)
    requires
        browser_plan_spec(before, after, payload, observed_at, snapshot, config, r),
        r.ack.accepted,
        before.current_browser matches Some(c) && c.domain@ != payload.domain@,
    ensures
        r.end_browser == Some(before.current_browser->Some_0.id),
        r.start,
        r.touch is None,
        after.current_browser is None,
{
}

/// Law: an accepted browser event for the open segment's domain, window and tab
/// extends that segment and starts none.
pub proof fn law_same_tab_extends_segment(
    before: RuntimeState,
    after: RuntimeState,
    payload: BrowserEventPayload,
    observed_at: i64,
    snapshot: Option<ForegroundWindowSnapshot>,
    config: RuntimeConfigSnapshot,
    r: BrowserEventPlan,
)
    requires
        browser_plan_spec(before, after, payload, observed_at, snapshot, config, r),
        r.ack.accepted,
        before.current_browser matches Some(c) && c.domain@ == payload.domain@ && c.browser_window_id
            == payload.browser_window_id && c.tab_id == payload.tab_id,
    ensures
        r.touch matches Some(t) && t.id == before.current_browser->Some_0.id,
        !r.start,
        r.end_browser is None,
        after.current_browser matches Some(c) && c.id == before.current_browser->Some_0.id && c.domain@
            == payload.domain@,
{
}

/// A snoozed or dismissed reminder stays silent: no reminder while the snooze runs,
/// nor on the local date it was dismissed.
pub proof fn law_suppressed_reminder_is_silent(
    r0: HealthReminderRuntime,
    enabled: bool,
    threshold_secs: u64,
    presence: PresenceState,
    observed_at: i64,
    local_date: i64,
    allowed: bool,
)
    requires
        (r0.snoozed_until matches Some(u) && observed_at < u) || r0.dismissed_local_date == Some(local_date),
    ensures
        reminder_step_spec(r0, enabled, threshold_secs, presence, observed_at, local_date, allowed).1 is None,
{
}

/// A reminder comes only when allowed, and only once the streak has lasted the
/// threshold (at least one second).
pub proof fn law_reminder_needs_threshold(
    r0: HealthReminderRuntime,
    enabled: bool,
    threshold_secs: u64,
    presence: PresenceState,
    observed_at: i64,
    local_date: i64,
    allowed: bool,
)
    requires
        reminder_wf(r0),
        valid_instant(observed_at as int),
        threshold_secs <= i64::MAX as u64,
        reminder_step_spec(r0, enabled, threshold_secs, presence, observed_at, local_date, allowed).1 is Some,
    ensures
        ({
            let b = reminder_step_spec(r0, enabled, threshold_secs, presence, observed_at, local_date, allowed).1->Some_0;
            &&& enabled && allowed && presence == PresenceState::Active
            &&& b.threshold_secs == effective_threshold(threshold_secs)
            &&& b.streak_secs >= b.threshold_secs >= 1
        }),
{
}

/// Three minutes of rest start a new streak: after an inactive observation at `t0`
/// that begins a rest, an active observation at least three minutes later starts
/// the streak at its own instant.
pub proof fn law_rest_restarts_streak(
    r0: HealthReminderRuntime,
    threshold_secs: u64,
    rest_presence: PresenceState,
    t0: i64,
    t1: i64,
    local_date: i64,
    allowed0: bool,
    allowed1: bool,
)
    requires
        r0.rest_started_at is None,
        rest_presence != PresenceState::Active,
        t1 - t0 >= REST_RESET_SECONDS,
    ensures
        ({
            let r1 = reminder_step_spec(r0, true, threshold_secs, rest_presence, t0, local_date, allowed0).0;
            let r2 = reminder_step_spec(r1, true, threshold_secs, PresenceState::Active, t1, local_date, allowed1).0;
            r2.active_streak_started_at == Some(t1) && r2.rest_started_at is None
        }),
{
}

/// A rest shorter than three minutes keeps the streak: after an inactive
/// observation at `t0` that begins a rest, an active observation less than three
/// minutes later continues the streak that was running.
pub proof fn law_short_rest_keeps_streak(
    r0: HealthReminderRuntime,
    threshold_secs: u64,
    rest_presence: PresenceState,
    t0: i64,
    t1: i64,
    local_date: i64,
    allowed0: bool,
    allowed1: bool,
)
    requires
        r0.rest_started_at is None,
        r0.active_streak_started_at is Some,
        rest_presence != PresenceState::Active,
        t1 - t0 < REST_RESET_SECONDS,
    ensures
        ({
            let r1 = reminder_step_spec(r0, true, threshold_secs, rest_presence, t0, local_date, allowed0).0;
            let r2 = reminder_step_spec(r1, true, threshold_secs, PresenceState::Active, t1, local_date, allowed1).0;
            r2.active_streak_started_at == r0.active_streak_started_at && r2.rest_started_at is None
        }),
{
}

/// Seeing the window that a focus segment was started for again only touches
/// that segment (unless the application became ignored meanwhile).
pub proof fn law_same_window_is_touched(f: OpenFocusSegment, s: ForegroundWindowSnapshot, config: RuntimeConfigSnapshot)
    requires
        f.fingerprint@ == s.fingerprint_view(),
        !config.ignores_app(s.process_name@),
    ensures
        same_focus(Some(f), Some(s), config),
{
}

// ---------------------------------------------------------------------------
// Configuration changes, pause and shutdown
// ---------------------------------------------------------------------------

/// Open segments to end, in the order they are ended: browser, focus, presence.
#[derive(Clone, Copy, Debug, PartialEq, Eq, Structural)]
pub struct SegmentsToEnd {
    pub browser: Option<i64>,
    pub focus: Option<i64>,
    pub presence: Option<i64>,
}

/// After the ignore lists changed: an open focus segment of a now ignored
/// application is ended together with the browser segment; a browser segment of a
/// now ignored domain is ended alone.
pub fn plan_config_reconcile(runtime: &mut RuntimeState, config: &RuntimeConfigSnapshot) -> (r: SegmentsToEnd)
    ensures
        same_except_focus_browser(*old(runtime), *final(runtime)),
        r.presence is None,
        ({
            let focus_ignored = old(runtime).current_focus matches Some(f) && config.ignores_app(f.process_name@);
            let browser_ignored = old(runtime).current_browser matches Some(b) && config.ignores_domain(b.domain@);
            &&& focus_ignored ==> final(runtime).current_focus is None && r.focus == focus_id(old(runtime).current_focus)
            &&& !focus_ignored ==> final(runtime).current_focus == old(runtime).current_focus && r.focus is None
            &&& (focus_ignored || browser_ignored) ==> final(runtime).current_browser is None && r.browser
                == browser_id(old(runtime).current_browser)
            &&& !(focus_ignored || browser_ignored) ==> final(runtime).current_browser
                == old(runtime).current_browser && r.browser is None
        }),
{
    let focus_ignored = match &runtime.current_focus {
        Some(f) => config.is_ignored_app(f.process_name.as_str()),
        None => false,
    };
    let browser_ignored = match &runtime.current_browser {
        Some(b) => config.is_ignored_domain(b.domain.as_str()),
        None => false,
    };
    let focus = if focus_ignored {
        match runtime.current_focus.take() {
            Some(f) => Some(f.id),
            None => None,
        }
    } else {
        None
    };
    let browser = if focus_ignored || browser_ignored {
        match runtime.current_browser.take() {
            Some(b) => Some(b.id),
            None => None,
        }
    } else {
        None
    };
    SegmentsToEnd { browser, focus, presence: None }
}

/// Takes every open segment for ending (pause and shutdown).
pub fn take_open_segments(runtime: &mut RuntimeState) -> (r: SegmentsToEnd)
    ensures
        r == (SegmentsToEnd {
            browser: browser_id(old(runtime).current_browser),
            focus: focus_id(old(runtime).current_focus),
            presence: presence_id(old(runtime).current_presence),
        }),
        final(runtime).current_focus is None,
        final(runtime).current_browser is None,
        final(runtime).current_presence is None,
        final(runtime).health_reminder == old(runtime).health_reminder,
        final(runtime).tracking_paused == old(runtime).tracking_paused,
        final(runtime).paused_since == old(runtime).paused_since,
        final(runtime).pause_until == old(runtime).pause_until,
{
    let focus = match runtime.current_focus.take() {
        Some(f) => Some(f.id),
        None => None,
    };
    let browser = match runtime.current_browser.take() {
        Some(b) => Some(b.id),
        None => None,
    };
    let presence = match runtime.current_presence.take() {
        Some(p) => Some(p.id),
        None => None,
    };
    SegmentsToEnd { browser, focus, presence }
}

/// Enters the paused state once the open segments were ended and a `paused`
/// presence segment `presence_id` was started at `observed_at`.
pub fn enter_pause(runtime: &mut RuntimeState, presence_id: i64, observed_at: i64, pause_until: Option<i64>) -> (r:
    TrackingStateResponse)
    ensures
        final(runtime).current_presence == Some(OpenPresenceSegment {
            id: presence_id,
            state: PresenceState::Paused,
            last_observed_at: observed_at,
            last_persisted_at: observed_at,
        }),
        final(runtime).tracking_paused && final(runtime).paused_since == Some(observed_at)
            && final(runtime).pause_until == pause_until,
        final(runtime).current_focus == old(runtime).current_focus,
        final(runtime).current_browser == old(runtime).current_browser,
        final(runtime).health_reminder == old(runtime).health_reminder,
        r == (TrackingStateResponse { tracking_paused: true, paused_since: Some(observed_at), pause_until }),
{
    runtime.current_presence = Some(
        OpenPresenceSegment {
            id: presence_id,
            state: PresenceState::Paused,
            last_observed_at: observed_at,
            last_persisted_at: observed_at,
        },
    );
    runtime.set_tracking_pause_state(true, Some(observed_at), pause_until);
    TrackingStateResponse { tracking_paused: true, paused_since: Some(observed_at), pause_until }
}

/// Takes the open presence segment for ending when tracking resumes.
pub fn take_presence(runtime: &mut RuntimeState) -> (r: Option<i64>)
    ensures
        r == presence_id(old(runtime).current_presence),
        final(runtime).current_presence is None,
        same_except_presence(*old(runtime), *final(runtime)),
{
    match runtime.current_presence.take() {
        Some(p) => Some(p.id),
        None => None,
    }
}

/// Leaves the paused state.
pub fn leave_pause(runtime: &mut RuntimeState) -> (r: TrackingStateResponse)
    ensures
        !final(runtime).tracking_paused && final(runtime).paused_since is None && final(runtime).pause_until is None,
        final(runtime).current_focus == old(runtime).current_focus,
        final(runtime).current_browser == old(runtime).current_browser,
        final(runtime).current_presence == old(runtime).current_presence,
        final(runtime).health_reminder == old(runtime).health_reminder,
        r == (TrackingStateResponse { tracking_paused: false, paused_since: None, pause_until: None }),
{
    runtime.set_tracking_pause_state(false, None, None);
    TrackingStateResponse { tracking_paused: false, paused_since: None, pause_until: None }
}

/// A persisted pause is restored at start-up when it has a start and has no end,
/// or an end still in the future; otherwise the persisted settings are cleared.
pub fn should_restore_pause(paused_since: Option<i64>, pause_until: Option<i64>, now: i64) -> (r: bool)
    ensures
        r == (paused_since is Some && match pause_until {
            Some(until) => until > now,
            None => true,
        }),
{
    paused_since.is_some() && match pause_until {
        Some(until) => until > now,
        None => true,
    }
}

/// A timed pause has run out.
pub fn pause_expired(pause_until: Option<i64>, observed_at: i64) -> (r: bool)
    ensures
        r == (pause_until matches Some(until) && until <= observed_at),
{
    match pause_until {
        Some(until) => until <= observed_at,
        None => false,
    }
}

/// Longest wait, in milliseconds, before a failed collector is retried.
pub const MAX_BACKOFF_MILLIS: u64 = 30_000;

/// The next retry delay: double the last one, at most thirty seconds.
pub fn next_backoff_millis(backoff_millis: u64) -> (r: u64)
    ensures
        r == if backoff_millis as int * 2 >= MAX_BACKOFF_MILLIS {
            MAX_BACKOFF_MILLIS as int
        } else {
            backoff_millis as int * 2
        },
{
    if backoff_millis >= MAX_BACKOFF_MILLIS / 2 {
        MAX_BACKOFF_MILLIS
    } else {
        backoff_millis * 2
    }
}

} // verus!
