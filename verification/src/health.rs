//! Health diagnostics: the settings.json config state, the "configured
//! but no events" detector, and the assembled health snapshot.
use vstd::prelude::*;
use crate::settings::{Conflict, SettingsError, SettingsErrorV, JsonMap, read_settings, spec_read_settings, is_installed, spec_is_installed, detect_conflicts, spec_detect_conflicts, conflicts_view, describe, describe_settings_error};
use crate::json::{Entries, JsonV};
use crate::receiver::{ReceiverStatus, ReceiverStatusV};
use crate::ingest::{IngestStatsSnapshot, trunc_div};
use crate::backfill::BackfillInfo;
use crate::text::{cat, cat3, decimal, decimal_text};
use vstd::string::StringExecFns;

verus! {

/// Minutes without events, with the config installed, before the
/// no-events detector fires.
pub const NO_EVENTS_THRESHOLD_MINUTES: i64 = 10;

/// settings.json config state as the health view reports it.
#[derive(Debug, PartialEq)]
pub enum ConfigState {
    /// All app env keys and the SessionStart hook present, no conflicts.
    Installed,
    /// App config absent or partial (a missing file too).
    Missing,
    /// Pre-existing telemetry config; `installed` tells whether the app's
    /// own config is in place beside it.
    Conflicting { installed: bool, conflicts: Vec<Conflict> },
    /// settings.json could not be read or parsed.
    Error { message: String },
}

pub enum ConfigStateV {
    Installed,
    Missing,
    Conflicting { installed: bool, conflicts: Seq<(Seq<char>, JsonV, Option<Seq<char>>)> },
    Error { message: Seq<char> },
}

impl View for ConfigState {
    type V = ConfigStateV;

    open spec fn view(&self) -> ConfigStateV {
        match self {
            ConfigState::Installed => ConfigStateV::Installed,
            ConfigState::Missing => ConfigStateV::Missing,
            ConfigState::Conflicting { installed, conflicts } => ConfigStateV::Conflicting {
                installed: *installed,
                conflicts: conflicts_view(conflicts@),
            },
            ConfigState::Error { message } => ConfigStateV::Error { message: message@ },
        }
    }
}

impl ConfigStateV {
    /// Whether the app's export config is in place (events should flow).
    pub open spec fn is_configured(self) -> bool {
        match self {
            ConfigStateV::Installed => true,
            ConfigStateV::Conflicting { installed, conflicts: _ } => installed,
            _ => false,
        }
    }
}

impl ConfigState {
    /// Whether the app's export config is in place (events should flow).
    pub fn is_configured(&self) -> (r: bool)
        ensures
            r == self@.is_configured(),
    {
        match self {
            ConfigState::Installed => true,
            ConfigState::Conflicting { installed, conflicts: _ } => *installed,
            _ => false,
        }
    }
}

/// The config state of parsed settings.
pub open spec fn config_state_of(m: Entries) -> ConfigStateV {
    let installed = spec_is_installed(m);
    let conflicts = spec_detect_conflicts(m);
    if conflicts.len() > 0 {
        ConfigStateV::Conflicting { installed, conflicts }
    } else if installed {
        ConfigStateV::Installed
    } else {
        ConfigStateV::Missing
    }
}

/// The config state of a settings file, from what reading it gave
/// (`Ok(None)` when it does not exist) and its display path.
pub open spec fn spec_config_state(read: Result<Option<Seq<char>>, SettingsErrorV>, path: Seq<char>) -> ConfigStateV {
    let parsed = match read {
        Ok(contents) => spec_read_settings(contents),
        Err(e) => Err(e),
    };
    match parsed {
        Ok(m) => config_state_of(m),
        Err(e) => ConfigStateV::Error { message: describe(e, path) },
    }
}

/// Computes the config state from the settings file as read (see
/// [`spec_config_state`]). Read-only.
pub fn config_state(read: &Result<Option<String>, SettingsError>, settings_path: &str) -> (r: ConfigState)
    ensures
        r@ == spec_config_state(
            match read {
                Ok(Some(s)) => Ok(Some(s@)),
                Ok(None) => Ok(None),
                Err(e) => Err(e@),
            },
            settings_path@,
        ),
{
    let parsed = match read {
        Ok(Some(s)) => read_settings(Some(s.as_str())),
        Ok(None) => read_settings(None),
        Err(e) => {
            return ConfigState::Error { message: describe_settings_error(e, settings_path) };
        },
    };
    let current: JsonMap = match parsed {
        Ok(m) => m,
        Err(e) => {
            return ConfigState::Error { message: describe_settings_error(&e, settings_path) };
        },
    };
    let installed = is_installed(&current);
    let conflicts = detect_conflicts(&current);
    if conflicts.len() > 0 {
        ConfigState::Conflicting { installed, conflicts }
    } else if installed {
        ConfigState::Installed
    } else {
        ConfigState::Missing
    }
}

/// One likely cause of missing events: a stable kind and a remediation.
#[derive(Debug, Clone, PartialEq, Eq)]
pub struct Cause {
    /// `"capture_paused"`, `"port_conflict"`, `"receiver_failed"`,
    /// `"receiver_starting"`, `"sessions_predate_config"`, or `"idle"`.
    pub kind: &'static str,
    pub detail: String,
}

impl View for Cause {
    type V = (Seq<char>, Seq<char>);

    open spec fn view(&self) -> (Seq<char>, Seq<char>) {
        (self.kind@, self.detail@)
    }
}

/// The "configured but no events in N minutes" state.
#[derive(Debug, Clone, PartialEq, Eq)]
pub struct NoEventsDiagnosis {
    pub threshold_minutes: i64,
    /// Minutes since the last event; `None` when none was ever received.
    pub minutes_since_last: Option<i64>,
    /// Likely causes, most definitive first.
    pub causes: Vec<Cause>,
}

pub struct NoEventsDiagnosisV {
    pub threshold_minutes: int,
    pub minutes_since_last: Option<int>,
    pub causes: Seq<(Seq<char>, Seq<char>)>,
}

impl View for NoEventsDiagnosis {
    type V = NoEventsDiagnosisV;

    open spec fn view(&self) -> NoEventsDiagnosisV {
        NoEventsDiagnosisV {
            threshold_minutes: self.threshold_minutes as int,
            minutes_since_last: match self.minutes_since_last {
                Some(m) => Some(m as int),
                None => None,
            },
            causes: self.causes@.map_values(|c: Cause| c@),
        }
    }
}

pub open spec fn paused_detail() -> Seq<char> {
    "Capture is paused, so incoming events are acknowledged but discarded. Resume capture to store events again; the paused window can be recovered later with a backfill pass."@
}

pub open spec fn starting_detail() -> Seq<char> {
    "The receiver is still starting up; check again in a moment."@
}

pub open spec fn predate_detail() -> Seq<char> {
    "Agent sessions started before setup never export telemetry. Restart any sessions that are still running."@
}

pub open spec fn idle_detail() -> Seq<char> {
    "The agent may simply not be in use right now. No usage means no events; this is normal."@
}

/// The causes a receiver state points to, with a healthy receiver giving
/// the ambiguous pair the user must check.
pub open spec fn receiver_causes(receiver: ReceiverStatusV) -> Seq<(Seq<char>, Seq<char>)> {
    match receiver {
        ReceiverStatusV::PortInUse { port } => seq![("port_conflict"@,
            "Another process is holding port "@ + decimal_text(port as nat)
                + ", so the agent cannot deliver events. Quit whatever is using the port and relaunch this app."@)],
        ReceiverStatusV::Failed { message } => seq![("receiver_failed"@,
            "The receiver stopped and is not accepting events: "@ + message + ". Relaunch this app."@)],
        ReceiverStatusV::Starting => seq![("receiver_starting"@, starting_detail())],
        ReceiverStatusV::Listening { port: _ } => seq![
            ("sessions_predate_config"@, predate_detail()),
            ("idle"@, idle_detail()),
        ],
    }
}

/// Whole minutes from `last` to `now`, when there was an event.
pub open spec fn minutes_since(last: Option<i64>, now: i64) -> Option<int> {
    match last {
        Some(t) => Some(trunc_div(now - t, 60_000)),
        None => None,
    }
}

/// The no-events detector: silent unless the config is installed and no
/// event arrived within the threshold; paused capture is then the one
/// definitive cause, else the receiver's state decides.
pub open spec fn spec_diagnose(
    config: ConfigStateV,
    receiver: ReceiverStatusV,
    capture_paused: bool,
    last_event_ms: Option<i64>,
    now_ms: i64,
) -> Option<NoEventsDiagnosisV> {
    let since = minutes_since(last_event_ms, now_ms);
    if !config.is_configured() {
        None
    } else if since is Some && since->0 < NO_EVENTS_THRESHOLD_MINUTES {
        None
    } else {
        Some(NoEventsDiagnosisV {
            threshold_minutes: NO_EVENTS_THRESHOLD_MINUTES as int,
            minutes_since_last: since,
            causes: if capture_paused {
                seq![("capture_paused"@, paused_detail())]
            } else {
                receiver_causes(receiver)
            },
        })
    }
}

fn cause(kind: &'static str, detail: String) -> (r: Cause)
    ensures
        r@ == (kind@, detail@),
{
    Cause { kind, detail }
}

fn causes_for(receiver: &ReceiverStatus) -> (r: Vec<Cause>)
    ensures
        r@.map_values(|c: Cause| c@) == receiver_causes(receiver@),
{
    let v = match receiver {
        ReceiverStatus::PortInUse { port } => {
            let p = decimal(*port as u64);
            let head = cat("Another process is holding port ", p.as_str());
            vec![cause("port_conflict", cat(head.as_str(),
                ", so the agent cannot deliver events. Quit whatever is using the port and relaunch this app."))]
        },
        ReceiverStatus::Failed { message } => vec![cause("receiver_failed",
            cat3("The receiver stopped and is not accepting events: ", message.as_str(), ". Relaunch this app."))],
        ReceiverStatus::Starting => vec![cause("receiver_starting",
            String::from_str("The receiver is still starting up; check again in a moment."))],
        ReceiverStatus::Listening { port: _ } => vec![
            cause("sessions_predate_config", String::from_str(
                "Agent sessions started before setup never export telemetry. Restart any sessions that are still running.")),
            cause("idle", String::from_str(
                "The agent may simply not be in use right now. No usage means no events; this is normal.")),
        ],
    };
    assert(v@.map_values(|c: Cause| c@) =~= receiver_causes(receiver@));
    v
}

/// Runs the no-events detector (see [`spec_diagnose`]).
pub fn diagnose_no_events(
    config: &ConfigState,
    receiver: &ReceiverStatus,
    capture_paused: bool,
    last_event_ms: Option<i64>,
    now_ms: i64,
) -> (r: Option<NoEventsDiagnosis>)
    requires
        last_event_ms matches Some(t) ==> i64::MIN <= now_ms - t <= i64::MAX,
    ensures
        match r {
            Some(d) => spec_diagnose(config@, receiver@, capture_paused, last_event_ms, now_ms) == Some(d@),
            None => spec_diagnose(config@, receiver@, capture_paused, last_event_ms, now_ms) is None,
        },
{
    if !config.is_configured() {
        return None;
    }
    let minutes_since_last = match last_event_ms {
        Some(t) => Some(crate::ingest::div_trunc(now_ms - t, 60_000)),
        None => None,
    };
    match minutes_since_last {
        Some(m) => if m < NO_EVENTS_THRESHOLD_MINUTES {
            return None;
        },
        None => {},
    }
    let causes = if capture_paused {
        let v = vec![cause("capture_paused", String::from_str(
            "Capture is paused, so incoming events are acknowledged but discarded. Resume capture to store events again; the paused window can be recovered later with a backfill pass."))];
        assert(v@.map_values(|c: Cause| c@) =~= seq![("capture_paused"@, paused_detail())]);
        v
    } else {
        causes_for(receiver)
    };
    Some(NoEventsDiagnosis { threshold_minutes: NO_EVENTS_THRESHOLD_MINUTES, minutes_since_last, causes })
}

/// The transcripts root backfill reads, and whether it exists.
#[derive(Debug, Clone, PartialEq, Eq)]
pub struct TranscriptsInfo {
    /// Display path of the transcripts root.
    pub path: String,
    pub exists: bool,
}

/// Count and newest event time of live-received rows.
#[derive(Debug, Clone, Copy, PartialEq, Eq, Structural)]
pub struct StoredEvents {
    pub count: u64,
    /// Event time of the newest stored row; `None` when there are none.
    pub last_event_ms: Option<i64>,
}

impl Default for StoredEvents {
    fn default() -> (r: StoredEvents)
        ensures
            r == (StoredEvents { count: 0, last_event_ms: None }),
    {
        StoredEvents { count: 0, last_event_ms: None }
    }
}

/// Everything the health view renders, in one query.
#[derive(Debug, PartialEq)]
pub struct HealthStatus {
    pub receiver: ReceiverStatus,
    pub config: ConfigState,
    /// Display path of the settings file the config state was read from.
    pub settings_path: String,
    /// While `true`, arriving events are acknowledged and discarded.
    pub capture_paused: bool,
    /// Since-launch ingest counters.
    pub ingest: IngestStatsSnapshot,
    /// Unix ms of the most recent event received; `None` when none ever.
    pub last_event_ms: Option<i64>,
    /// All-time rows received live.
    pub events_stored: u64,
    /// Set when the stored-event totals could not be read.
    pub db_error: Option<String>,
    pub transcripts: TranscriptsInfo,
    pub backfill: BackfillInfo,
    /// Present when the no-events detector fired.
    pub no_events: Option<NoEventsDiagnosis>,
}

/// The freshest of the in-memory ingest clock (0 = never this launch) and
/// the newest stored row.
pub open spec fn freshest(ingest_last: i64, stored_last: Option<i64>) -> Option<i64> {
    match stored_last {
        Some(s) => if ingest_last > 0 && ingest_last > s { Some(ingest_last) } else { Some(s) },
        None => if ingest_last > 0 { Some(ingest_last) } else { None },
    }
}

/// The stored totals, degraded to the since-launch counter when the
/// database could not be read.
pub open spec fn effective_stored(ingest: IngestStatsSnapshot, stored: Result<StoredEvents, String>) -> StoredEvents {
    match stored {
        Ok(s) => s,
        Err(_) => StoredEvents { count: ingest.events_ingested, last_event_ms: None },
    }
}

/// Assembles the health snapshot from its inputs. A failed stored-events
/// read degrades to the since-launch counters and carries its message;
/// the last event is the freshest of memory and database.
pub fn compute_health(
    receiver: ReceiverStatus,
    config: ConfigState,
    settings_path: String,
    capture_paused: bool,
    ingest: IngestStatsSnapshot,
    stored: Result<StoredEvents, String>,
    transcripts: TranscriptsInfo,
    backfill: BackfillInfo,
    now_ms: i64,
) -> (r: HealthStatus)
    requires
        freshest(ingest.last_event_ms, effective_stored(ingest, stored).last_event_ms) matches Some(t)
            ==> i64::MIN <= now_ms - t <= i64::MAX,
    ensures
        r.last_event_ms == freshest(ingest.last_event_ms, effective_stored(ingest, stored).last_event_ms),
        r.events_stored == effective_stored(ingest, stored).count,
        r.db_error == (match stored {
            Ok(_) => None::<String>,
            Err(m) => Some(m),
        }),
        match r.no_events {
            Some(d) => spec_diagnose(config@, receiver@, capture_paused, r.last_event_ms, now_ms) == Some(d@),
            None => spec_diagnose(config@, receiver@, capture_paused, r.last_event_ms, now_ms) is None,
        },
        r.receiver == receiver,
        r.config == config,
        r.settings_path == settings_path,
        r.capture_paused == capture_paused,
        r.ingest == ingest,
        r.transcripts == transcripts,
        r.backfill == backfill,
{
    let (stored, db_error) = match stored {
        Ok(s) => (s, None),
        Err(message) => (StoredEvents { count: ingest.events_ingested, last_event_ms: None }, Some(message)),
    };
    let last_event_ms = match stored.last_event_ms {
        Some(s) => if ingest.last_event_ms > 0 && ingest.last_event_ms > s { Some(ingest.last_event_ms) } else { Some(s) },
        None => if ingest.last_event_ms > 0 { Some(ingest.last_event_ms) } else { None },
    };
    let no_events = diagnose_no_events(&config, &receiver, capture_paused, last_event_ms, now_ms);
    HealthStatus {
        receiver,
        config,
        settings_path,
        capture_paused,
        ingest,
        last_event_ms,
        events_stored: stored.count,
        db_error,
        transcripts,
        backfill,
        no_events,
    }
}

} // verus!
