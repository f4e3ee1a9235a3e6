//! Permission-checked desktop notifications: delivery happens only when the
//! OS permission is granted, and test notifications use fixed sample copy.
use vstd::prelude::*;
use crate::text::{str_eq, cat3};

verus! {

/// The `rule_type` values a test notification accepts.
pub const RULE_TYPE_BURST: &'static str = "burst";
pub const RULE_TYPE_DELTA: &'static str = "delta";

/// Outcome of a show attempt; a denied permission is reported, not raised.
#[derive(Debug, Clone, Copy, PartialEq, Eq, Structural)]
pub enum ShowOutcome {
    /// Permission was granted; the notification was handed to the OS.
    Delivered,
    /// Permission was not granted; nothing was delivered.
    PermissionDenied,
}

/// The OS notification permission states.
#[derive(Debug, Clone, Copy, PartialEq, Eq, Structural)]
pub enum Permission {
    Granted,
    Denied,
    Prompt,
    PromptWithRationale,
}

/// The permission check: deliver if and only if permission is granted. The caller
/// hands the notification to the OS exactly when this says `Delivered`.
pub fn show_outcome(permission: Permission) -> (r: ShowOutcome)
    ensures
        (r == ShowOutcome::Delivered) == (permission == Permission::Granted),
{
    match permission {
        Permission::Granted => ShowOutcome::Delivered,
        _ => ShowOutcome::PermissionDenied,
    }
}

pub open spec fn spec_test_copy(rule_type: Seq<char>) -> Result<(Seq<char>, Seq<char>), Seq<char>> {
    if rule_type == RULE_TYPE_BURST@ {
        Ok(("Usage spike"@, "$12.40 in the last 10 minutes (sample)"@))
    } else if rule_type == RULE_TYPE_DELTA@ {
        Ok(("Usage milestone"@, "$50 of usage so far (sample)"@))
    } else {
        Err("cannot send test notification: unknown rule type '"@ + rule_type + "'"@)
    }
}

/// Fixed sample title and body for a test notification of a rule type;
/// an unknown rule type is an error that names it.
pub fn test_copy(rule_type: &str) -> (r: Result<(&'static str, &'static str), String>)
    ensures
        match r {
            Ok((t, b)) => spec_test_copy(rule_type@) == Ok::<(Seq<char>, Seq<char>), Seq<char>>((t@, b@)),
            Err(e) => spec_test_copy(rule_type@) == Err::<(Seq<char>, Seq<char>), Seq<char>>(e@),
        },
{
    if str_eq(rule_type, RULE_TYPE_BURST) {
        Ok(("Usage spike", "$12.40 in the last 10 minutes (sample)"))
    } else if str_eq(rule_type, RULE_TYPE_DELTA) {
        Ok(("Usage milestone", "$50 of usage so far (sample)"))
    } else {
        Err(cat3("cannot send test notification: unknown rule type '", rule_type, "'"))
    }
}

} // verus!
