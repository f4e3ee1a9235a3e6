//! Lifecycle state of the embedded OTLP receiver on its fixed port, and
//! what its logs endpoint does with a request.
//!
//! The port is never auto-rebound: settings.json holds the literal
//! endpoint, so a port conflict is recorded and surfaced instead.
use vstd::prelude::*;
use crate::text::cat;
use crate::codec::{json_from_slice, parse_json_slice};
use crate::ingest::{plan_ingest, outcome_views, spec_log_records, spec_classify, RecordOutcome};

verus! {

/// Fixed OTLP ingest port, off the standard OTLP ports 4317/4318.
pub const OTLP_PORT: u16 = 43177;

/// Lifecycle state of the receiver.
#[derive(Debug, Clone, PartialEq, Eq)]
pub enum ReceiverStatus {
    /// Bind not attempted or completed yet.
    Starting,
    /// Bound and serving.
    Listening { port: u16 },
    /// Another process holds the port; never auto-rebound.
    PortInUse { port: u16 },
    /// Bind or serve failed for any other reason.
    Failed { message: String },
}

/// The value of a [`ReceiverStatus`].
pub enum ReceiverStatusV {
    Starting,
    Listening { port: u16 },
    PortInUse { port: u16 },
    Failed { message: Seq<char> },
}

impl View for ReceiverStatus {
    type V = ReceiverStatusV;

    open spec fn view(&self) -> ReceiverStatusV {
        match self {
            ReceiverStatus::Starting => ReceiverStatusV::Starting,
            ReceiverStatus::Listening { port } => ReceiverStatusV::Listening { port: *port },
            ReceiverStatus::PortInUse { port } => ReceiverStatusV::PortInUse { port: *port },
            ReceiverStatus::Failed { message } => ReceiverStatusV::Failed { message: message@ },
        }
    }
}

impl ReceiverStatus {
    /// A copy with the same value.
    pub fn duplicate(&self) -> (r: ReceiverStatus)
        ensures
            r@ == self@,
    {
        match self {
            ReceiverStatus::Starting => ReceiverStatus::Starting,
            ReceiverStatus::Listening { port } => ReceiverStatus::Listening { port: *port },
            ReceiverStatus::PortInUse { port } => ReceiverStatus::PortInUse { port: *port },
            ReceiverStatus::Failed { message } => ReceiverStatus::Failed { message: message.clone() },
        }
    }
}

/// The receiver status cell the app shares between the server task and
/// its queries.
pub struct ReceiverState(pub ReceiverStatus);

/// The status a fresh receiver starts in.
pub fn new_status() -> (r: ReceiverStatus)
    ensures
        r@ == ReceiverStatusV::Starting,
{
    ReceiverStatus::Starting
}

/// Records a state transition.
pub fn set_status(status: &mut ReceiverStatus, next: ReceiverStatus)
    ensures
        final(status)@ == next@,
{
    *status = next;
}

/// How an attempt to bind and serve ended.
pub enum ServeOutcome {
    /// The port is held by another process.
    AddrInUse { port: u16 },
    /// The bind failed otherwise; `address` and `error` as displayed.
    BindFailed { address: String, error: String },
    /// Bound; the port actually obtained.
    Bound { port: u16 },
    /// The server stopped with an error (as displayed).
    ServeFailed { error: String },
}

/// The status a serve outcome leaves the receiver in.
pub open spec fn spec_status_after(outcome: ServeOutcome) -> ReceiverStatusV {
    match outcome {
        ServeOutcome::AddrInUse { port } => ReceiverStatusV::PortInUse { port },
        ServeOutcome::BindFailed { address, error } => ReceiverStatusV::Failed {
            message: "failed to bind "@ + address@ + ": "@ + error@,
        },
        ServeOutcome::Bound { port } => ReceiverStatusV::Listening { port },
        ServeOutcome::ServeFailed { error } => ReceiverStatusV::Failed {
            message: "server stopped: "@ + error@,
        },
    }
}

/// The status to record after a bind or serve outcome: a held port is
/// reported as such and never rebound.
pub fn status_after(outcome: &ServeOutcome) -> (r: ReceiverStatus)
    ensures
        r@ == spec_status_after(*outcome),
{
    match outcome {
        ServeOutcome::AddrInUse { port } => ReceiverStatus::PortInUse { port: *port },
        ServeOutcome::BindFailed { address, error } => {
            let head = cat("failed to bind ", address.as_str());
            let mid = cat(head.as_str(), ": ");
            ReceiverStatus::Failed { message: cat(mid.as_str(), error.as_str()) }
        },
        ServeOutcome::Bound { port } => ReceiverStatus::Listening { port: *port },
        ServeOutcome::ServeFailed { error } => ReceiverStatus::Failed {
            message: cat("server stopped: ", error.as_str()),
        },
    }
}

/// What `POST /v1/logs` does with a request body.
#[derive(Debug, Clone, Copy, PartialEq, Eq, Structural)]
pub enum LogsAction {
    /// Not JSON: answer 400 with an OTLP Status body (code 3).
    RejectInvalidJson,
    /// Valid, but capture is paused: answer 200 and store nothing, leaving
    /// the counters alone.
    AcknowledgeOnly,
    /// Valid: ingest its records, then answer 200.
    Ingest,
}

/// The `/v1/logs` decision: a body that is not JSON is rejected; a valid
/// one is dropped while capture is paused and ingested otherwise. An
/// export is never failed for what its records hold.
pub fn logs_action(body_is_json: bool, paused: bool) -> (r: LogsAction)
    ensures
        r == (if !body_is_json {
            LogsAction::RejectInvalidJson
        } else if paused {
            LogsAction::AcknowledgeOnly
        } else {
            LogsAction::Ingest
        }),
{
    if !body_is_json {
        LogsAction::RejectInvalidJson
    } else if paused {
        LogsAction::AcknowledgeOnly
    } else {
        LogsAction::Ingest
    }
}

/// The HTTP status of a `/v1/logs` answer.
pub fn logs_status(action: LogsAction) -> (r: u16)
    ensures
        r == (if action == LogsAction::RejectInvalidJson { 400u16 } else { 200u16 }),
{
    match action {
        LogsAction::RejectInvalidJson => 400,
        _ => 200,
    }
}

/// The message of the 400 answer to a body that is not JSON.
pub fn invalid_json_message(error: &str) -> (r: String)
    ensures
        r@ == "invalid JSON payload: "@ + error@,
{
    cat("invalid JSON payload: ", error)
}

/// What `POST /v1/logs` does with one request body.
pub enum LogsRequest {
    /// Not JSON: answer 400 with this message in an OTLP Status body
    /// (code 3).
    RejectInvalidJson(String),
    /// Valid, but capture is paused: answer 200 and store nothing.
    AcknowledgeOnly,
    /// Valid: what becomes of each log record (see
    /// [`crate::ingest::plan_ingest`]), then answer 200.
    Ingest(Vec<RecordOutcome>),
}

/// `POST /v1/logs` on a raw body: the body is parsed as JSON; one that is
/// not is rejected with the parser's message, whatever the pause; a valid
/// one is dropped while capture is paused, and otherwise every log record
/// in it is classified for storing. An export is never failed for what its
/// records hold.
pub fn logs_request(body: &[u8], paused: bool) -> (r: LogsRequest)
    ensures
        match json_from_slice(body@) {
            Err(e) => r matches LogsRequest::RejectInvalidJson(m) && m@ == "invalid JSON payload: "@ + e,
            Ok(v) => if paused {
                r is AcknowledgeOnly
            } else {
                r matches LogsRequest::Ingest(o)
                    && outcome_views(o@) == spec_log_records(v).map_values(|j: crate::json::JsonV| spec_classify(j))
            },
        },
{
    match parse_json_slice(body) {
        Err(e) => LogsRequest::RejectInvalidJson(invalid_json_message(e.as_str())),
        Ok(payload) => {
            if paused {
                LogsRequest::AcknowledgeOnly
            } else {
                LogsRequest::Ingest(plan_ingest(&payload))
            }
        },
    }
}

} // verus!
