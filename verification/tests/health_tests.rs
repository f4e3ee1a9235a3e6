use usage_tracker::backfill::BackfillInfo;
use usage_tracker::health::{
    compute_health, config_state, diagnose_no_events, ConfigState, StoredEvents, TranscriptsInfo,
    NO_EVENTS_THRESHOLD_MINUTES,
};
use usage_tracker::ingest::IngestStatsSnapshot;
use usage_tracker::receiver::ReceiverStatus;
use usage_tracker::settings::{merge_file, SettingsError};

const MINUTE_MS: i64 = 60_000;
const NOW_MS: i64 = 1_781_200_000_000;

fn listening() -> ReceiverStatus {
    ReceiverStatus::Listening { port: 43177 }
}

fn snapshot(last_event_ms: i64) -> IngestStatsSnapshot {
    IngestStatsSnapshot { events_ingested: 0, ingest_failures: 0, events_skipped: 0, last_event_ms }
}

fn transcripts() -> TranscriptsInfo {
    TranscriptsInfo { path: "/tmp/projects".into(), exists: true }
}

#[test]
fn missing_file_and_unconfigured_file_are_missing() {
    assert_eq!(config_state(&Ok(None), "/x/settings.json"), ConfigState::Missing);
    assert_eq!(config_state(&Ok(Some("{\"theme\":\"dark\"}".into())), "/x/settings.json"), ConfigState::Missing);
}

#[test]
fn merged_file_is_installed() {
    let merged = merge_file(None).unwrap().expect("fresh merge writes");
    assert_eq!(config_state(&Ok(Some(merged)), "/x/settings.json"), ConfigState::Installed);
}

#[test]
fn installed_with_foreign_otel_key_is_conflicting_installed() {
    let merged = merge_file(Some("{\"env\":{\"OTEL_METRICS_EXPORTER\":\"otlp\"}}")).unwrap().unwrap();
    match config_state(&Ok(Some(merged)), "/x/settings.json") {
        ConfigState::Conflicting { installed, conflicts } => {
            assert!(installed);
            assert_eq!(conflicts.len(), 1);
            assert_eq!(conflicts[0].key, "OTEL_METRICS_EXPORTER");
        }
        other => panic!("expected Conflicting, got {other:?}"),
    }
}

#[test]
fn malformed_file_is_error() {
    match config_state(&Ok(Some("{\"env\": ".into())), "/x/settings.json") {
        ConfigState::Error { message } => assert!(message.contains("not valid JSON"), "got: {message}"),
        other => panic!("expected Error, got {other:?}"),
    }
}

#[test]
fn unreadable_file_is_error_with_path() {
    let err = SettingsError::Io { kind: usage_tracker::settings::IoErrorKind::PermissionDenied, message: "denied".into() };
    match config_state(&Err(err), "/x/settings.json") {
        ConfigState::Error { message } => {
            assert!(message.contains("/x/settings.json"));
            assert!(message.contains("chmod u+rw"));
        }
        other => panic!("expected Error, got {other:?}"),
    }
}

#[test]
fn detector_silent_when_not_configured() {
    for config in [
        ConfigState::Missing,
        ConfigState::Error { message: "nope".into() },
        ConfigState::Conflicting { installed: false, conflicts: vec![] },
    ] {
        assert_eq!(diagnose_no_events(&config, &listening(), false, None, NOW_MS), None, "must not fire for {config:?}");
    }
}

#[test]
fn detector_silent_with_recent_event() {
    let recent = NOW_MS - (NO_EVENTS_THRESHOLD_MINUTES - 1) * MINUTE_MS;
    assert_eq!(diagnose_no_events(&ConfigState::Installed, &listening(), false, Some(recent), NOW_MS), None);
    assert_eq!(diagnose_no_events(&ConfigState::Installed, &listening(), true, Some(recent), NOW_MS), None);
}

#[test]
fn detector_fires_with_stale_event_and_healthy_receiver() {
    let stale = NOW_MS - 45 * MINUTE_MS;
    let diagnosis = diagnose_no_events(&ConfigState::Installed, &listening(), false, Some(stale), NOW_MS).expect("must fire");
    assert_eq!(diagnosis.minutes_since_last, Some(45));
    assert_eq!(diagnosis.threshold_minutes, NO_EVENTS_THRESHOLD_MINUTES);
    let kinds: Vec<&str> = diagnosis.causes.iter().map(|c| c.kind).collect();
    assert_eq!(kinds, ["sessions_predate_config", "idle"]);
}

#[test]
fn paused_capture_is_the_definitive_cause() {
    for receiver in [listening(), ReceiverStatus::PortInUse { port: 43177 }] {
        let diagnosis = diagnose_no_events(&ConfigState::Installed, &receiver, true, None, NOW_MS).expect("must fire");
        assert_eq!(diagnosis.causes.len(), 1);
        assert_eq!(diagnosis.causes[0].kind, "capture_paused");
        assert!(diagnosis.causes[0].detail.contains("Resume"), "{}", diagnosis.causes[0].detail);
    }
}

#[test]
fn detector_fires_when_no_event_ever() {
    let diagnosis = diagnose_no_events(&ConfigState::Installed, &listening(), false, None, NOW_MS).expect("must fire");
    assert_eq!(diagnosis.minutes_since_last, None);
    assert!(!diagnosis.causes.is_empty());
}

#[test]
fn detector_fires_for_installed_config_with_foreign_conflicts() {
    let config = ConfigState::Conflicting { installed: true, conflicts: vec![] };
    assert!(diagnose_no_events(&config, &listening(), false, None, NOW_MS).is_some());
}

#[test]
fn port_conflict_is_the_definitive_cause() {
    let receiver = ReceiverStatus::PortInUse { port: 43177 };
    let diagnosis = diagnose_no_events(&ConfigState::Installed, &receiver, false, None, NOW_MS).expect("must fire");
    assert_eq!(diagnosis.causes.len(), 1);
    assert_eq!(diagnosis.causes[0].kind, "port_conflict");
    assert!(diagnosis.causes[0].detail.contains("43177"));
}

#[test]
fn failed_receiver_is_the_definitive_cause() {
    let receiver = ReceiverStatus::Failed { message: "boom".into() };
    let diagnosis = diagnose_no_events(&ConfigState::Installed, &receiver, false, None, NOW_MS).expect("must fire");
    assert_eq!(diagnosis.causes.len(), 1);
    assert_eq!(diagnosis.causes[0].kind, "receiver_failed");
    assert!(diagnosis.causes[0].detail.contains("boom"));
}

#[test]
fn starting_receiver_and_exact_threshold() {
    let at = NOW_MS - NO_EVENTS_THRESHOLD_MINUTES * MINUTE_MS;
    let d = diagnose_no_events(&ConfigState::Installed, &ReceiverStatus::Starting, false, Some(at), NOW_MS).expect("fires at the threshold");
    assert_eq!(d.causes[0].kind, "receiver_starting");
    assert_eq!(d.minutes_since_last, Some(10));
    let future = NOW_MS + 5 * MINUTE_MS + 1;
    assert_eq!(diagnose_no_events(&ConfigState::Installed, &listening(), false, Some(future), NOW_MS), None);
}

#[test]
fn last_event_is_freshest_of_memory_and_db() {
    let fresher_memory = compute_health(
        listening(),
        ConfigState::Installed,
        "p".into(),
        false,
        snapshot(NOW_MS - MINUTE_MS),
        Ok(StoredEvents { count: 10, last_event_ms: Some(NOW_MS - 5 * MINUTE_MS) }),
        transcripts(),
        BackfillInfo::default(),
        NOW_MS,
    );
    assert_eq!(fresher_memory.last_event_ms, Some(NOW_MS - MINUTE_MS));
    assert_eq!(fresher_memory.no_events, None);
    assert_eq!(fresher_memory.db_error, None);

    let db_only = compute_health(
        listening(),
        ConfigState::Installed,
        "p".into(),
        false,
        snapshot(0),
        Ok(StoredEvents { count: 10, last_event_ms: Some(NOW_MS - 5 * MINUTE_MS) }),
        transcripts(),
        BackfillInfo::default(),
        NOW_MS,
    );
    assert_eq!(db_only.last_event_ms, Some(NOW_MS - 5 * MINUTE_MS));

    let never = compute_health(
        listening(),
        ConfigState::Installed,
        "p".into(),
        false,
        snapshot(0),
        Ok(StoredEvents::default()),
        transcripts(),
        BackfillInfo::default(),
        NOW_MS,
    );
    assert_eq!(never.last_event_ms, None);
    assert!(never.no_events.is_some(), "configured + never = detector");
    assert_eq!(never.backfill, BackfillInfo::default());
}

#[test]
fn db_read_failure_degrades_with_message() {
    let mut ingest = snapshot(NOW_MS - MINUTE_MS);
    ingest.events_ingested = 7;
    let health = compute_health(
        listening(),
        ConfigState::Installed,
        "p".into(),
        false,
        ingest,
        Err("The usage database could not be read (locked)".into()),
        transcripts(),
        BackfillInfo::default(),
        NOW_MS,
    );
    assert_eq!(health.events_stored, 7, "falls back to in-memory counter");
    assert_eq!(health.last_event_ms, Some(NOW_MS - MINUTE_MS));
    let message = health.db_error.expect("db error surfaced");
    assert!(message.contains("could not be read"), "got: {message}");
}
