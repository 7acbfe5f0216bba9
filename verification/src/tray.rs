//! The menu bar icon: the statuses the dictation loop reports, and what the
//! icon shows for them over time.
use vstd::prelude::*;

use crate::text::{chars_of, push_str, string_from_chars};

verus! {

/// Status messages sent from the dictation loop to the menu bar.
#[derive(Debug)]
pub enum TrayStatus {
    Idle,
    Recording,
    Processing,
    /// Pasted successfully: shown briefly before reverting to idle.
    Success,
    Error(String),
}

/// The icon's colour for each status.
#[derive(Debug, Clone, Copy, PartialEq, Eq, Structural)]
pub enum IconColor {
    Idle,
    Recording,
    Processing,
    Success,
    Error,
}

pub open spec fn tint_spec(c: IconColor) -> (u8, u8, u8) {
    match c {
        IconColor::Idle => (130, 130, 130),
        IconColor::Recording => (220, 40, 40),
        IconColor::Processing => (200, 160, 0),
        IconColor::Success => (40, 180, 40),
        IconColor::Error => (200, 0, 0),
    }
}

impl IconColor {
    /// Grey when idle, red while recording, amber while processing, green
    /// on success, deep red on error.
    pub fn tint(&self) -> (r: (u8, u8, u8))
        ensures
            r == tint_spec(*self),
    {
        match self {
            IconColor::Idle => (130, 130, 130),
            IconColor::Recording => (220, 40, 40),
            IconColor::Processing => (200, 160, 0),
            IconColor::Success => (40, 180, 40),
            IconColor::Error => (200, 0, 0),
        }
    }
}

/// How long the success icon stays before reverting to idle.
pub const SUCCESS_FLASH_MS: u64 = 1_200;

/// What the icon shows: a tooltip and a colour.
pub struct TrayDisplay {
    pub tooltip: String,
    pub icon: IconColor,
}

pub open spec fn display_spec(s: TrayStatus) -> (Seq<char>, IconColor) {
    match s {
        TrayStatus::Idle => ("OpenFlow \u{2013} idle"@, IconColor::Idle),
        TrayStatus::Recording => ("OpenFlow \u{2013} recording\u{2026}"@, IconColor::Recording),
        TrayStatus::Processing => ("OpenFlow \u{2013} processing\u{2026}"@, IconColor::Processing),
        TrayStatus::Success => ("OpenFlow \u{2013} pasted \u{2713}"@, IconColor::Success),
        TrayStatus::Error(m) => ("OpenFlow \u{2013} error: "@ + m@, IconColor::Error),
    }
}

pub open spec fn display_view(d: TrayDisplay) -> (Seq<char>, IconColor) {
    (d.tooltip@, d.icon)
}

fn owned(s: &str) -> (r: String)
    ensures
        r@ == s@,
{
    string_from_chars(&chars_of(s))
}

/// The tooltip and icon for a status.
pub fn status_display(s: &TrayStatus) -> (d: TrayDisplay)
    ensures
        display_view(d) == display_spec(*s),
{
    match s {
        TrayStatus::Idle => TrayDisplay { tooltip: owned("OpenFlow \u{2013} idle"), icon: IconColor::Idle },
        TrayStatus::Recording => TrayDisplay {
            tooltip: owned("OpenFlow \u{2013} recording\u{2026}"),
            icon: IconColor::Recording,
        },
        TrayStatus::Processing => TrayDisplay {
            tooltip: owned("OpenFlow \u{2013} processing\u{2026}"),
            icon: IconColor::Processing,
        },
        TrayStatus::Success => TrayDisplay {
            tooltip: owned("OpenFlow \u{2013} pasted \u{2713}"),
            icon: IconColor::Success,
        },
        TrayStatus::Error(m) => {
            let mut v: Vec<char> = Vec::new();
            push_str(&mut v, "OpenFlow \u{2013} error: ");
            push_str(&mut v, m.as_str());
            TrayDisplay { tooltip: string_from_chars(&v), icon: IconColor::Error }
        },
    }
}

/// What one wake-up of the menu bar loop does.
pub struct TrayTick {
    /// Quit was chosen: leave the event loop.
    pub exit: bool,
    /// Displays to apply, in order.
    pub updates: Vec<TrayDisplay>,
}

/// The menu bar's memory: when the success flash started, if one is on.
pub struct TrayState {
    success_since_ms: Option<u64>,
}

/// Whether a success flash that started at `since` is over at `now`.
pub open spec fn flash_over(since: Option<u64>, now: u64) -> bool {
    match since {
        Some(t) => now >= t && now - t >= SUCCESS_FLASH_MS,
        None => false,
    }
}

impl TrayState {
    pub fn new() -> (s: TrayState)
        ensures
            s.flash_started().is_none(),
    {
        TrayState { success_since_ms: None }
    }

    pub closed spec fn flash_started(&self) -> Option<u64> {
        self.success_since_ms
    }

    /// The display the icon starts with.
    pub fn initial_display() -> (d: TrayDisplay)
        ensures
            display_view(d) == display_spec(TrayStatus::Idle),
    {
        status_display(&TrayStatus::Idle)
    }

    /// One wake-up at `now_ms` (a monotonic clock): an expired success flash
    /// reverts to idle; a quit request ends the loop; otherwise the last of
    /// the received statuses is shown, and a success starts a flash.
    pub fn tick(&mut self, now_ms: u64, quit_requested: bool, statuses: Vec<TrayStatus>) -> (t: TrayTick)
        ensures
            t.exit == quit_requested,
            ({
                let expired = flash_over(old(self).flash_started(), now_ms);
                let first: Seq<(Seq<char>, IconColor)> = if expired {
                    seq![display_spec(TrayStatus::Idle)]
                } else {
                    seq![]
                };
                let after_expiry = if expired {
                    None
                } else {
                    old(self).flash_started()
                };
                if quit_requested || statuses@.len() == 0 {
                    &&& t.updates@.map_values(|d: TrayDisplay| display_view(d)) == first
                    &&& final(self).flash_started() == after_expiry
                } else {
                    let last = statuses@.last();
                    &&& t.updates@.map_values(|d: TrayDisplay| display_view(d)) == first.push(display_spec(last))
                    &&& final(self).flash_started() == (if last is Success {
                        Some(now_ms)
                    } else {
                        None
                    })
                }
            }),
    {
        let mut updates: Vec<TrayDisplay> = Vec::new();
        let expired = match self.success_since_ms {
            Some(t) => now_ms >= t && now_ms - t >= SUCCESS_FLASH_MS,
            None => false,
        };
        if expired {
            self.success_since_ms = None;
            updates.push(status_display(&TrayStatus::Idle));
        }
        let ghost first = updates@;
        if quit_requested {
            assert(updates@.map_values(|d: TrayDisplay| display_view(d)) =~= (if expired {
                seq![display_spec(TrayStatus::Idle)]
            } else {
                Seq::<(Seq<char>, IconColor)>::empty()
            }));
            return TrayTick { exit: true, updates };
        }
        let mut statuses = statuses;
        match statuses.pop() {
            None => {
                assert(updates@.map_values(|d: TrayDisplay| display_view(d)) =~= (if expired {
                    seq![display_spec(TrayStatus::Idle)]
                } else {
                    Seq::<(Seq<char>, IconColor)>::empty()
                }));
            },
            Some(last) => {
                let d = status_display(&last);
                updates.push(d);
                self.success_since_ms = match last {
                    TrayStatus::Success => Some(now_ms),
                    _ => None,
                };
                assert(updates@.map_values(|d: TrayDisplay| display_view(d)) =~= (if expired {
                    seq![display_spec(TrayStatus::Idle)]
                } else {
                    Seq::<(Seq<char>, IconColor)>::empty()
                }).push(display_view(d)));
            },
        }
        TrayTick { exit: false, updates }
    }
}

/// A flash that has run its course is always turned back to idle, whatever
/// else arrives in the same wake-up, unless a new status replaces it.
pub proof fn lemma_flash_expires(since: u64, now: u64)
    requires
        now >= since,
        now - since >= SUCCESS_FLASH_MS,
    ensures
        flash_over(Some(since), now),
{
}

} // verus!
