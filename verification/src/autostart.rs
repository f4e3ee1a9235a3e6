//! Login-item registration: enabling is refused in dev builds (the login
//! item would point at the dev binary); disabling is idempotent.
use vstd::prelude::*;

verus! {

/// The refusal a dev build gives to enabling.
pub const DEV_BUILD_REFUSAL: &'static str =
    "autostart is disabled in dev builds: the LaunchAgent would point at the dev binary";

/// Current login-item state.
#[derive(Debug, Clone, Copy, PartialEq, Eq, Structural)]
pub struct AutostartStatus {
    /// Whether the login item is registered right now.
    pub enabled: bool,
    /// Dev build: enabling is refused.
    pub dev_build: bool,
}

/// Best-effort outcome of the onboarding auto-enable.
#[derive(Debug, Clone, PartialEq, Eq)]
pub struct OnboardingAutostart {
    pub enabled: bool,
    /// Why autostart is not enabled, for the done screen.
    pub note: Option<String>,
}

/// What setting the login-item state does.
#[derive(Debug, Clone, Copy, PartialEq, Eq, Structural)]
pub enum AutostartStep {
    /// Enabling in a dev build: refuse with [`DEV_BUILD_REFUSAL`].
    Refuse,
    Enable,
    /// Disabling while registered.
    Disable,
    /// Disabling while not registered: nothing to remove.
    Nothing,
}

/// The step for a request to set the state to `enabled`; `registered` is
/// only consulted when disabling.
pub fn autostart_step(enabled: bool, dev_build: bool, registered: bool) -> (r: AutostartStep)
    ensures
        r == (if enabled {
            if dev_build { AutostartStep::Refuse } else { AutostartStep::Enable }
        } else if registered {
            AutostartStep::Disable
        } else {
            AutostartStep::Nothing
        }),
{
    if enabled {
        if dev_build { AutostartStep::Refuse } else { AutostartStep::Enable }
    } else if registered {
        AutostartStep::Disable
    } else {
        AutostartStep::Nothing
    }
}

/// The onboarding outcome of an enable attempt: never an error, the
/// failure becomes the note.
pub fn onboarding_autostart(result: Result<AutostartStatus, String>) -> (r: OnboardingAutostart)
    ensures
        match result {
            Ok(s) => r.enabled == s.enabled && r.note is None,
            Err(note) => !r.enabled && r.note == Some(note),
        },
{
    match result {
        Ok(s) => OnboardingAutostart { enabled: s.enabled, note: None },
        Err(note) => OnboardingAutostart { enabled: false, note: Some(note) },
    }
}

} // verus!
