//! SessionStart hook payloads: the `session_id → cwd` mapping to upsert.
//!
//! Only a non-empty string `session_id` is required; an empty or absent
//! `cwd` is dropped, and unknown fields are ignored.
use vstd::prelude::*;
use crate::json::Json;
use crate::codec::{json_from_slice, parse_json_slice};
use crate::text::cat;
use crate::transcript::{str_field, opt_str};
use vstd::string::StringExecFns;

verus! {

/// The fields kept from a SessionStart hook payload.
#[derive(Debug, Clone, PartialEq, Eq)]
pub struct SessionMapping {
    pub session_id: String,
    pub cwd: Option<String>,
}

pub open spec fn non_empty(s: Option<Seq<char>>) -> Option<Seq<char>> {
    match s {
        Some(t) => if t.len() > 0 { Some(t) } else { None },
        None => None,
    }
}

pub open spec fn spec_parse_hook_payload(payload: crate::json::JsonV) -> Option<(Seq<char>, Option<Seq<char>>)> {
    match non_empty(str_field(payload, "session_id"@)) {
        Some(id) => Some((id, non_empty(str_field(payload, "cwd"@)))),
        None => None,
    }
}

fn non_empty_str<'a>(v: &'a Json, key: &str) -> (r: Option<&'a str>)
    ensures
        crate::text::opt_chars(r) == non_empty(str_field(v@, key@)),
{
    match v.get(key) {
        Some(x) => match x.as_str() {
            Some(s) => if s.unicode_len() > 0 { Some(s) } else { None },
            None => None,
        },
        None => None,
    }
}

/// The mapping of a hook payload; `None` when `session_id` is missing,
/// empty, or not a string.
pub fn parse_hook_payload(payload: &Json) -> (r: Option<SessionMapping>)
    ensures
        match r {
            Some(m) => spec_parse_hook_payload(payload@) == Some((m.session_id@, opt_str(m.cwd))),
            None => spec_parse_hook_payload(payload@) is None,
        },
{
    let id = match non_empty_str(payload, "session_id") {
        Some(s) => String::from_str(s),
        None => { return None; },
    };
    let cwd = match non_empty_str(payload, "cwd") {
        Some(s) => Some(String::from_str(s)),
        None => None,
    };
    Some(SessionMapping { session_id: id, cwd })
}

/// How the database write of a mapping went, within the wait budget.
#[derive(Debug, Clone, Copy, PartialEq, Eq, Structural)]
pub enum WriteResult {
    Written,
    Failed,
    Panicked,
    /// Still in flight when the wait budget ran out.
    TimedOut,
}

/// The HTTP status the hook gets for a write: 200 written, 500 failed,
/// 202 accepted while the write finishes in the background.
pub open spec fn spec_write_status(w: WriteResult) -> u16 {
    match w {
        WriteResult::Written => 200u16,
        WriteResult::Failed => 500u16,
        WriteResult::Panicked => 500u16,
        WriteResult::TimedOut => 202u16,
    }
}

/// The HTTP status the hook gets (see [`spec_write_status`]).
pub fn write_status(w: WriteResult) -> (r: u16)
    ensures
        r == spec_write_status(w),
{
    match w {
        WriteResult::Written => 200,
        WriteResult::Failed => 500,
        WriteResult::Panicked => 500,
        WriteResult::TimedOut => 202,
    }
}

/// What `POST /session` does with one request body.
#[derive(Debug, Clone, PartialEq, Eq)]
pub enum SessionRequest {
    /// An unusable body: answer 400 with this message.
    BadRequest(String),
    /// A usable body while capture is paused: answer 200, write nothing.
    Acknowledge,
    /// A usable body: upsert this mapping.
    Upsert(SessionMapping),
}

/// `POST /session` on a raw body: a body that is not JSON, or holds no
/// non-empty `session_id`, is a 400 whatever the pause; a usable one is
/// acknowledged without writing while capture is paused, and otherwise its
/// mapping is upserted.
pub fn session_request(body: &[u8], paused: bool) -> (r: SessionRequest)
    ensures
        match json_from_slice(body@) {
            Err(e) => r matches SessionRequest::BadRequest(m) && m@ == "invalid JSON payload: "@ + e,
            Ok(v) => match spec_parse_hook_payload(v) {
                None => r matches SessionRequest::BadRequest(m) && m@ == "missing or empty session_id"@,
                Some(p) => if paused {
                    r is Acknowledge
                } else {
                    r matches SessionRequest::Upsert(mp) && mp.session_id@ == p.0 && opt_str(mp.cwd) == p.1
                },
            },
        },
{
    match parse_json_slice(body) {
        Err(e) => SessionRequest::BadRequest(cat("invalid JSON payload: ", e.as_str())),
        Ok(payload) => match parse_hook_payload(&payload) {
            None => SessionRequest::BadRequest(String::from_str("missing or empty session_id")),
            Some(mapping) => {
                if paused {
                    SessionRequest::Acknowledge
                } else {
                    SessionRequest::Upsert(mapping)
                }
            },
        },
    }
}

/// The HTTP status of a `POST /session` answer: 400 for an unusable body,
/// 200 for one acknowledged while paused, and for an upsert the status of
/// how its write went (`write` is read only then).
pub fn session_status(request: &SessionRequest, write: WriteResult) -> (r: u16)
    ensures
        r == (match request {
            SessionRequest::BadRequest(_) => 400u16,
            SessionRequest::Acknowledge => 200u16,
            SessionRequest::Upsert(_) => spec_write_status(write),
        }),
{
    match request {
        SessionRequest::BadRequest(_) => 400,
        SessionRequest::Acknowledge => 200,
        SessionRequest::Upsert(_) => write_status(write),
    }
}

} // verus!
