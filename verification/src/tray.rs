//! Tray state and the popover toggle decisions.
//!
//! Click-away dismissal hides the popover when it loses focus; when that
//! click was on the tray icon itself, the tray click arrives right after
//! the hide. Tray clicks within [`REOPEN_SUPPRESS_WINDOW_MS`] of an
//! auto-hide therefore leave the popover closed.
use vstd::prelude::*;
use crate::text::str_eq;

verus! {

pub const MAIN_WINDOW: &'static str = "main";
pub const POPOVER_WINDOW: &'static str = "popover";

/// How long after an auto-hide a tray click is taken as "close".
pub const REOPEN_SUPPRESS_WINDOW_MS: u64 = 300;

/// Capture-pause flag and the popover auto-hide time (milliseconds on a
/// monotonic clock).
#[derive(Debug, Clone, Copy, PartialEq, Eq, Structural)]
pub struct TrayState {
    pub paused: bool,
    pub popover_hidden_at_ms: Option<u64>,
}

impl Default for TrayState {
    fn default() -> (r: TrayState)
        ensures
            r == (TrayState { paused: false, popover_hidden_at_ms: None }),
    {
        TrayState { paused: false, popover_hidden_at_ms: None }
    }
}

impl TrayState {
    pub fn paused(&self) -> (r: bool)
        ensures
            r == self.paused,
    {
        self.paused
    }

    pub fn set_paused(&mut self, paused: bool)
        ensures
            final(self).paused == paused,
            final(self).popover_hidden_at_ms == old(self).popover_hidden_at_ms,
    {
        self.paused = paused;
    }

    /// The popover was auto-hidden at `now_ms`.
    pub fn note_popover_hidden(&mut self, now_ms: u64)
        ensures
            final(self).popover_hidden_at_ms == Some(now_ms),
            final(self).paused == old(self).paused,
    {
        self.popover_hidden_at_ms = Some(now_ms);
    }

    /// Whether a tray click at `now_ms` falls within the suppress window
    /// of the last auto-hide (a clock that went backwards counts as 0 ms
    /// elapsed).
    pub fn suppress_reopen_at(&self, now_ms: u64) -> (r: bool)
        ensures
            r == (match self.popover_hidden_at_ms {
                Some(h) => (if now_ms >= h { now_ms - h } else { 0 }) < REOPEN_SUPPRESS_WINDOW_MS,
                None => false,
            }),
    {
        match self.popover_hidden_at_ms {
            Some(h) => now_ms.saturating_sub(h) < REOPEN_SUPPRESS_WINDOW_MS,
            None => false,
        }
    }
}

/// What a left tray click does to the popover.
#[derive(Debug, Clone, Copy, PartialEq, Eq, Structural)]
pub enum PopoverAction {
    /// It was showing: hide it.
    Hide,
    /// It was just auto-hidden by this same click: leave it closed.
    StayClosed,
    /// Anchor it under the tray icon and show it.
    Show,
}

pub fn toggle_popover(state: &TrayState, visible: bool, now_ms: u64) -> (r: PopoverAction)
    ensures
        r == (if visible {
            PopoverAction::Hide
        } else if (match state.popover_hidden_at_ms {
            Some(h) => (if now_ms >= h { now_ms - h } else { 0 }) < REOPEN_SUPPRESS_WINDOW_MS,
            None => false,
        }) {
            PopoverAction::StayClosed
        } else {
            PopoverAction::Show
        }),
{
    if visible {
        PopoverAction::Hide
    } else if state.suppress_reopen_at(now_ms) {
        PopoverAction::StayClosed
    } else {
        PopoverAction::Show
    }
}

/// The window events the tray reacts to.
#[derive(Debug, Clone, Copy, PartialEq, Eq, Structural)]
pub enum WindowEventKind {
    FocusLost,
    CloseRequested,
    Other,
}

/// What to do about a window event.
#[derive(Debug, Clone, Copy, PartialEq, Eq, Structural)]
pub enum WindowAction {
    /// Click-away: hide the popover and note when.
    HidePopover,
    /// Keep the app running in the menu bar: prevent the close and hide
    /// the main window.
    HideMain,
    Nothing,
}

pub fn window_event_action(label: &str, event: WindowEventKind, visible: bool) -> (r: WindowAction)
    ensures
        r == (if label@ == POPOVER_WINDOW@ && event == WindowEventKind::FocusLost && visible {
            WindowAction::HidePopover
        } else if label@ == MAIN_WINDOW@ && event == WindowEventKind::CloseRequested {
            WindowAction::HideMain
        } else {
            WindowAction::Nothing
        }),
{
    if str_eq(label, POPOVER_WINDOW) && event == WindowEventKind::FocusLost && visible {
        WindowAction::HidePopover
    } else if str_eq(label, MAIN_WINDOW) && event == WindowEventKind::CloseRequested {
        WindowAction::HideMain
    } else {
        WindowAction::Nothing
    }
}

} // verus!
