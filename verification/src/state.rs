//! Runtime state held by the agent between observations: open segments, monitor
//! health probes, the health-reminder streak and the pause state.

use vstd::prelude::*;
use crate::model::PresenceState;

verus! {

/// Health of one collector.
#[derive(Clone, Debug)]
pub struct MonitorProbe {
    pub last_seen: Option<i64>,
    pub last_error: Option<String>,
    pub consecutive_failures: u32,
    pub restart_count: u64,
    pub recovering: bool,
}

impl MonitorProbe {
    /// A probe that has seen nothing yet.
    pub open spec fn fresh_spec() -> MonitorProbe {
        MonitorProbe {
            last_seen: None,
            last_error: None,
            consecutive_failures: 0,
            restart_count: 0,
            recovering: false,
        }
    }

    pub fn new() -> (r: MonitorProbe)
        ensures
            r == MonitorProbe::fresh_spec(),
            r.last_seen is None,
            r.last_error is None,
            r.consecutive_failures == 0,
            r.restart_count == 0,
            !r.recovering,
    {
        MonitorProbe {
            last_seen: None,
            last_error: None,
            consecutive_failures: 0,
            restart_count: 0,
            recovering: false,
        }
    }

    /// A successful observation clears the failure streak.
    pub fn mark_success(&mut self, seen_at: i64)
        ensures
            final(self).last_seen == Some(seen_at),
            final(self).last_error is None,
            final(self).consecutive_failures == 0,
            final(self).restart_count == old(self).restart_count,
            !final(self).recovering,
    {
        self.last_seen = Some(seen_at);
        self.last_error = None;
        self.consecutive_failures = 0;
        self.recovering = false;
    }

    /// A failed observation records the error and extends the failure streak.
    pub fn mark_failure(&mut self, error: &str)
        ensures
            final(self).last_seen == old(self).last_seen,
            final(self).last_error matches Some(e) && e@ == error@,
            final(self).consecutive_failures == if old(self).consecutive_failures == u32::MAX {
                u32::MAX
            } else {
                (old(self).consecutive_failures + 1) as u32
            },
            final(self).restart_count == old(self).restart_count,
            !final(self).recovering,
    {
        self.last_error = Some(String::from_str(error));
        self.consecutive_failures = self.consecutive_failures.saturating_add(1);
        self.recovering = false;
    }

    /// A collector restart marks the probe as recovering.
    pub fn mark_restart(&mut self)
        ensures
            final(self).last_seen == old(self).last_seen,
            final(self).last_error == old(self).last_error,
            final(self).consecutive_failures == old(self).consecutive_failures,
            final(self).restart_count == if old(self).restart_count == u64::MAX {
                u64::MAX
            } else {
                (old(self).restart_count + 1) as u64
            },
            final(self).recovering,
    {
        self.restart_count = self.restart_count.saturating_add(1);
        self.recovering = true;
    }

    pub open spec fn status_spec(self, freshness: int, now: int) -> Seq<char> {
        if self.recovering {
            "recovering"@
        } else if self.consecutive_failures >= 3 {
            "offline"@
        } else if self.consecutive_failures > 0 {
            "degraded"@
        } else {
            match self.last_seen {
                Some(seen_at) => if now - seen_at <= freshness {
                    "online"@
                } else {
                    "offline"@
                },
                None => "recovering"@,
            }
        }
    }

    /// Health label: recovering after a restart, offline after three failures in a
    /// row, degraded after fewer, otherwise online while the last success is fresh.
    pub fn status(&self, freshness: i64, now: i64) -> (r: &'static str)
        ensures
            r@ == self.status_spec(freshness as int, now as int),
    {
        if self.recovering {
            "recovering"
        } else if self.consecutive_failures >= 3 {
            "offline"
        } else if self.consecutive_failures > 0 {
            "degraded"
        } else {
            match self.last_seen {
                Some(seen_at) => {
                    if (now as i128) - (seen_at as i128) <= freshness as i128 {
                        "online"
                    } else {
                        "offline"
                    }
                },
                None => "recovering",
            }
        }
    }
}

/// Health probes of all collectors.
#[derive(Clone, Debug)]
pub struct MonitorTelemetry {
    pub focus: MonitorProbe,
    pub presence: MonitorProbe,
    pub browser: MonitorProbe,
    pub tray: MonitorProbe,
}

impl MonitorTelemetry {
    pub fn new() -> (r: MonitorTelemetry)
        ensures
            r.focus == MonitorProbe::fresh_spec(),
            r.presence == MonitorProbe::fresh_spec(),
            r.browser == MonitorProbe::fresh_spec(),
            r.tray == MonitorProbe::fresh_spec(),
    {
        MonitorTelemetry {
            focus: MonitorProbe::new(),
            presence: MonitorProbe::new(),
            browser: MonitorProbe::new(),
            tray: MonitorProbe::new(),
        }
    }
}

/// The focus segment currently open.
#[derive(Clone, Debug)]
pub struct OpenFocusSegment {
    pub id: i64,
    pub fingerprint: String,
    pub process_name: String,
    pub is_browser: bool,
    pub last_observed_at: i64,
    pub last_persisted_at: i64,
}

/// The presence segment currently open.
#[derive(Clone, Copy, Debug)]
pub struct OpenPresenceSegment {
    pub id: i64,
    pub state: PresenceState,
    pub last_observed_at: i64,
    pub last_persisted_at: i64,
}

/// The browser segment currently open.
#[derive(Clone, Debug)]
pub struct OpenBrowserSegment {
    pub id: i64,
    pub domain: String,
    pub browser_window_id: i64,
    pub tab_id: i64,
    pub last_observed_at: i64,
    pub last_persisted_at: i64,
}

/// What the user chose in a break reminder.
#[derive(Clone, Copy, Debug, PartialEq, Eq, Structural)]
pub enum HealthReminderAction {
    SnoozeTenMinutes,
    Rested,
    DismissToday,
}

impl HealthReminderAction {
    pub open spec fn as_str_spec(self) -> Seq<char> {
        match self {
            HealthReminderAction::SnoozeTenMinutes => "snooze_10_minutes"@,
            HealthReminderAction::Rested => "rested"@,
            HealthReminderAction::DismissToday => "dismiss_today"@,
        }
    }

    /// The action's wire name.
    pub fn as_str(self) -> (r: &'static str)
        ensures
            r@ == self.as_str_spec(),
    {
        match self {
            HealthReminderAction::SnoozeTenMinutes => "snooze_10_minutes",
            HealthReminderAction::Rested => "rested",
            HealthReminderAction::DismissToday => "dismiss_today",
        }
    }
}

/// Seconds a snooze lasts.
pub const SNOOZE_SECONDS: i64 = 600;

/// The continuous-activity streak tracked for break reminders.
#[derive(Clone, Copy, Debug, PartialEq, Eq, Structural)]
pub struct HealthReminderRuntime {
    pub active_streak_started_at: Option<i64>,
    pub reminded_for_current_streak: bool,
    pub rest_started_at: Option<i64>,
    pub snoozed_until: Option<i64>,
    pub dismissed_local_date: Option<i64>,
}

impl HealthReminderRuntime {
    pub fn new() -> (r: HealthReminderRuntime)
        ensures
            r == (HealthReminderRuntime {
                active_streak_started_at: None,
                reminded_for_current_streak: false,
                rest_started_at: None,
                snoozed_until: None,
                dismissed_local_date: None,
            }),
    {
        HealthReminderRuntime {
            active_streak_started_at: None,
            reminded_for_current_streak: false,
            rest_started_at: None,
            snoozed_until: None,
            dismissed_local_date: None,
        }
    }

    /// Applies the user's answer to a reminder.
    pub fn apply_action(&mut self, action: HealthReminderAction, observed_at: i64, local_date: i64)
        requires
            observed_at <= i64::MAX - SNOOZE_SECONDS,
        ensures
            action == HealthReminderAction::SnoozeTenMinutes ==> *final(self) == (HealthReminderRuntime {
                snoozed_until: Some((observed_at + SNOOZE_SECONDS) as i64),
                reminded_for_current_streak: false,
                ..*old(self)
            }),
            action == HealthReminderAction::Rested ==> *final(self) == (HealthReminderRuntime {
                active_streak_started_at: None,
                reminded_for_current_streak: false,
                rest_started_at: None,
                snoozed_until: None,
                ..*old(self)
            }),
            action == HealthReminderAction::DismissToday ==> *final(self) == (HealthReminderRuntime {
                dismissed_local_date: Some(local_date),
                snoozed_until: None,
                reminded_for_current_streak: true,
                ..*old(self)
            }),
    {
        match action {
            HealthReminderAction::SnoozeTenMinutes => {
                self.snoozed_until = Some(observed_at + SNOOZE_SECONDS);
                self.reminded_for_current_streak = false;
            },
            HealthReminderAction::Rested => {
                self.active_streak_started_at = None;
                self.reminded_for_current_streak = false;
                self.rest_started_at = None;
                self.snoozed_until = None;
            },
            HealthReminderAction::DismissToday => {
                self.dismissed_local_date = Some(local_date);
                self.snoozed_until = None;
                self.reminded_for_current_streak = true;
            },
        }
    }
}

/// Everything the collectors keep in memory between observations.
#[derive(Clone, Debug)]
pub struct RuntimeState {
    pub current_focus: Option<OpenFocusSegment>,
    pub current_presence: Option<OpenPresenceSegment>,
    pub current_browser: Option<OpenBrowserSegment>,
    pub health_reminder: HealthReminderRuntime,
    pub tracking_paused: bool,
    pub paused_since: Option<i64>,
    pub pause_until: Option<i64>,
}

impl RuntimeState {
    pub fn new() -> (r: RuntimeState)
        ensures
            r.current_focus is None && r.current_presence is None && r.current_browser is None,
            !r.tracking_paused && r.paused_since is None && r.pause_until is None,
            r.health_reminder == HealthReminderRuntime::new_spec(),
    {
        RuntimeState {
            current_focus: None,
            current_presence: None,
            current_browser: None,
            health_reminder: HealthReminderRuntime::new(),
            tracking_paused: false,
            paused_since: None,
            pause_until: None,
        }
    }

    /// `(tracking_paused, paused_since, pause_until)`.
    pub fn tracking_pause_state(&self) -> (r: (bool, Option<i64>, Option<i64>))
        ensures
            r == (self.tracking_paused, self.paused_since, self.pause_until),
    {
        (self.tracking_paused, self.paused_since, self.pause_until)
    }

    pub fn set_tracking_pause_state(&mut self, paused: bool, paused_since: Option<i64>, pause_until: Option<i64>)
        ensures
            final(self).tracking_paused == paused,
            final(self).paused_since == paused_since,
            final(self).pause_until == pause_until,
            final(self).current_focus == old(self).current_focus,
            final(self).current_presence == old(self).current_presence,
            final(self).current_browser == old(self).current_browser,
            final(self).health_reminder == old(self).health_reminder,
    {
        self.tracking_paused = paused;
        self.paused_since = paused_since;
        self.pause_until = pause_until;
    }
}

impl HealthReminderRuntime {
    pub open spec fn new_spec() -> HealthReminderRuntime {
        HealthReminderRuntime {
            active_streak_started_at: None,
            reminded_for_current_streak: false,
            rest_started_at: None,
            snoozed_until: None,
            dismissed_local_date: None,
        }
    }
}

} // verus!
