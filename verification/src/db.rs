//! Database bookkeeping decisions: the stored schema version, which
//! migrations an open applies, and the one-time move of a legacy data
//! directory.
use vstd::prelude::*;
use crate::numparse::{parse_u64, parse_u64_spec};
use crate::text::{decimal, decimal_text, utf8};

verus! {

/// File name of the database inside the data directory.
pub const DB_FILE_NAME: &'static str = "usage.db";

/// The schema version a stored `meta` value means: its `u64`, or 0 when
/// absent or unparseable.
pub open spec fn spec_schema_version(value: Option<Seq<char>>) -> int {
    match value {
        Some(v) => match parse_u64_spec(utf8(v)) {
            Some(n) => n,
            None => 0,
        },
        None => 0,
    }
}

pub fn schema_version_of(value: Option<&str>) -> (r: u64)
    ensures
        r == spec_schema_version(crate::text::opt_chars(value)),
{
    match value {
        Some(v) => match parse_u64(v.as_bytes()) {
            Some(n) => n,
            None => 0,
        },
        None => 0,
    }
}

/// The migrations an open applies, by version: every version after the
/// stored one up to the newest this build has; a stored version newer
/// than that refuses the open (`Err((found, supported))`).
pub fn plan_migrations(current: u64, supported: u64) -> (r: Result<Vec<u64>, (u64, u64)>)
    ensures
        match r {
            Ok(v) => current <= supported && v@.len() == supported - current
                && forall|i: int| 0 <= i < v@.len() ==> #[trigger] v@[i] == current + 1 + i,
            Err(e) => current > supported && e == (current, supported),
        },
{
    if current > supported {
        return Err((current, supported));
    }
    let mut v: Vec<u64> = Vec::new();
    let mut next: u64 = current;
    while next < supported
        invariant
            current <= next <= supported,
            v@.len() == next - current,
            forall|i: int| 0 <= i < v@.len() ==> #[trigger] v@[i] == current + 1 + i,
        decreases supported - next,
    {
        next = next + 1;
        v.push(next);
    }
    Ok(v)
}

/// The refusal for a database newer than this build.
pub fn future_schema_message(found: u64, supported: u64) -> (r: String)
    ensures
        r@ == "database schema version "@ + decimal_text(found as nat) + " is newer than supported version "@
            + decimal_text(supported as nat) + "; refusing to open"@,
{
    let f = decimal(found);
    let s = decimal(supported);
    let mut out = crate::text::cat("database schema version ", f.as_str());
    vstd::string::StringExecFns::append(&mut out, " is newer than supported version ");
    vstd::string::StringExecFns::append(&mut out, s.as_str());
    vstd::string::StringExecFns::append(&mut out, "; refusing to open");
    out
}

/// Whether the legacy data directory's database moves over: only when the
/// new directory has none and the old one has one.
pub fn should_migrate_legacy(new_db_exists: bool, old_db_exists: bool) -> (r: bool)
    ensures
        r == (!new_db_exists && old_db_exists),
{
    !new_db_exists && old_db_exists
}

} // verus!
