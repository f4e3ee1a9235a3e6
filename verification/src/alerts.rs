//! Cost-alert state that is not floating point: quiet windows and the
//! dedup bookkeeping the alert engine persists between evaluations.
use vstd::prelude::*;
use vstd::string::StringExecFns;

verus! {

/// Default rolling window of the burst rule, in minutes.
pub fn default_burst_window_minutes() -> (r: u32)
    ensures
        r == 10,
{
    10
}

/// Default minimum gap between burst alerts, in minutes.
pub fn default_burst_cooldown_minutes() -> (r: u32)
    ensures
        r == 15,
{
    15
}

/// Burst is the only rule enabled by default.
pub fn default_burst_enabled() -> (r: bool)
    ensures
        r,
{
    true
}

/// A quiet-hours window as local `"HH:MM"` times; `start` later than
/// `end` wraps overnight.
#[derive(Debug, Clone, PartialEq, Eq)]
pub struct QuietWindow {
    /// Inclusive start, local `"HH:MM"`.
    pub start: String,
    /// Exclusive end, local `"HH:MM"`.
    pub end: String,
}

/// Delta-rule dedup: the calendar month the baseline tracks and the
/// highest step already fired in it.
#[derive(Debug, Clone, PartialEq, Eq)]
pub struct DeltaRuntime {
    /// Calendar month of the baseline (e.g. `"2026-06"`).
    pub month_key: String,
    /// Highest milestone index already fired this month.
    pub last_step: i64,
}

impl Default for DeltaRuntime {
    fn default() -> (r: DeltaRuntime)
        ensures
            r.month_key@ == Seq::<char>::empty(),
            r.last_step == 0,
    {
        DeltaRuntime { month_key: String::new(), last_step: 0 }
    }
}

/// Burst-rule dedup: the cooldown deadline a fire arms.
#[derive(Debug, Clone, Copy, PartialEq, Eq, Structural)]
pub struct BurstRuntime {
    /// Unix ms before which burst will not fire again; `0` is unarmed.
    pub cooldown_until_ms: i64,
}

impl Default for BurstRuntime {
    fn default() -> (r: BurstRuntime)
        ensures
            r.cooldown_until_ms == 0,
    {
        BurstRuntime { cooldown_until_ms: 0 }
    }
}

/// The alert runtime persisted between evaluations.
#[derive(Debug, Clone, PartialEq, Eq)]
pub struct AlertRuntime {
    pub delta: DeltaRuntime,
    pub burst: BurstRuntime,
    /// Set when a notification came back permission-denied.
    pub permission_lost: bool,
}

impl Default for AlertRuntime {
    fn default() -> (r: AlertRuntime)
        ensures
            r.delta.month_key@ == Seq::<char>::empty(),
            r.delta.last_step == 0,
            r.burst.cooldown_until_ms == 0,
            !r.permission_lost,
    {
        AlertRuntime { delta: DeltaRuntime::default(), burst: BurstRuntime::default(), permission_lost: false }
    }
}

} // verus!
