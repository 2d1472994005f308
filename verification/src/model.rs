//! Shared records exchanged between the collectors, the store and the HTTP layer.
//! Instants are UTC seconds since the Unix epoch; dates are Julian day numbers of
//! local dates.

use vstd::prelude::*;

verus! {

/// The user's presence as the presence monitor classifies it.
#[derive(Clone, Copy, Debug, PartialEq, Eq, Structural)]
pub enum PresenceState {
    Active,
    Idle,
    Locked,
    Paused,
}

impl PresenceState {
    pub open spec fn label_spec(self) -> Seq<char> {
        match self {
            PresenceState::Active => "active"@,
            PresenceState::Idle => "idle"@,
            PresenceState::Locked => "locked"@,
            PresenceState::Paused => "paused"@,
        }
    }

    /// The label stored in the `state` column.
    pub fn label(&self) -> (r: &'static str)
        ensures
            r@ == self.label_spec(),
    {
        match self {
            PresenceState::Active => "active",
            PresenceState::Idle => "idle",
            PresenceState::Locked => "locked",
            PresenceState::Paused => "paused",
        }
    }

    /// Reads a stored `state` label back.
    pub fn parse(value: &str) -> (r: Option<PresenceState>)
        ensures
            match r {
                Some(p) => p.label_spec() == value@,
                None => forall|p: PresenceState| p.label_spec() != value@,
            },
    {
        proof {
            reveal_strlit("active");
            reveal_strlit("idle");
            reveal_strlit("locked");
            reveal_strlit("paused");
        }
        let v = crate::text::chars_of(value);
        let active = crate::text::chars_of("active");
        let idle = crate::text::chars_of("idle");
        let locked = crate::text::chars_of("locked");
        let paused = crate::text::chars_of("paused");
        if crate::text::seq_equal(&v, &active) {
            Some(PresenceState::Active)
        } else if crate::text::seq_equal(&v, &idle) {
            Some(PresenceState::Idle)
        } else if crate::text::seq_equal(&v, &locked) {
            Some(PresenceState::Locked)
        } else if crate::text::seq_equal(&v, &paused) {
            Some(PresenceState::Paused)
        } else {
            proof {
                assert forall|p: PresenceState| p.label_spec() != value@ by {
                    match p {
                        PresenceState::Active => {},
                        PresenceState::Idle => {},
                        PresenceState::Locked => {},
                        PresenceState::Paused => {},
                    }
                }
            }
            None
        }
    }
}

/// A foreground application as it is recorded in a focus segment.
#[derive(Clone, Debug)]
pub struct AppInfo {
    pub process_name: String,
    pub display_name: String,
    pub exe_path: Option<String>,
    pub window_title: Option<String>,
    pub is_browser: bool,
}

/// An active-tab report from the browser extension.
#[derive(Clone, Debug)]
pub struct BrowserEventPayload {
    pub domain: String,
    pub page_title: Option<String>,
    pub browser_window_id: i64,
    pub tab_id: i64,
    pub observed_at: Option<i64>,
}

/// The answer to a browser event.
#[derive(Clone, Debug)]
pub struct BrowserEventAck {
    pub accepted: bool,
    pub reason: Option<String>,
}

/// Pause state as the tracking endpoints report it.
#[derive(Clone, Copy, Debug, PartialEq, Eq, Structural)]
pub struct TrackingStateResponse {
    pub tracking_paused: bool,
    pub paused_since: Option<i64>,
    pub pause_until: Option<i64>,
}

} // verus!
