//! Capture pause: while paused, arriving events are acknowledged and
//! discarded; the flag persists across restarts as `"1"`/`"0"`.
use vstd::prelude::*;

verus! {

/// `meta` key of the persisted pause flag.
pub const PAUSED_KEY: &'static str = "capture_paused";

/// Event emitted when the pause state changes.
pub const PAUSED_CHANGED_EVENT: &'static str = "capture:paused-changed";

/// Pause state for the frontend.
#[derive(Debug, Clone, Copy, PartialEq, Eq, Structural)]
pub struct CaptureStatus {
    pub paused: bool,
}

/// The stored text of a pause flag.
pub fn persisted_value(paused: bool) -> (r: &'static str)
    ensures
        r@ == (if paused { "1"@ } else { "0"@ }),
{
    if paused { "1" } else { "0" }
}

/// The pause flag a stored row means: paused only for exactly `"1"`; a
/// missing or unreadable row is not paused.
pub fn paused_from_persisted(value: Option<&str>) -> (r: bool)
    ensures
        r == (match value {
            Some(v) => v@ == "1"@,
            None => false,
        }),
{
    match value {
        Some(v) => crate::text::str_eq(v, "1"),
        None => false,
    }
}

/// The status the frontend sees for a pause flag.
pub fn status(paused: bool) -> (r: CaptureStatus)
    ensures
        r.paused == paused,
{
    CaptureStatus { paused }
}

} // verus!
