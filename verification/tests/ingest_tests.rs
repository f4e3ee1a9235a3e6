use usage_tracker::codec::parse_json_str;
use usage_tracker::ingest::{plan_ingest, EventType, IngestStats, RecordOutcome, RequestRow};

/// Applies a payload's outcomes to the counters as the receiver does
/// (every stored row succeeds here); returns the stored rows.
fn ingest_str(stats: &mut IngestStats, payload: &str) -> Vec<RequestRow> {
    let value = parse_json_str(payload).expect("payload parses");
    let mut rows = Vec::new();
    for outcome in plan_ingest(&value) {
        stats.count_outcome(&outcome, true, 1);
        if let RecordOutcome::Store(row) = outcome {
            rows.push(row);
        }
    }
    rows
}

#[test]
fn unknown_events_and_empty_payloads_are_ignored_without_error() {
    let mut stats = IngestStats::default();
    let mut rows = ingest_str(&mut stats, "{}");
    rows.extend(ingest_str(
        &mut stats,
        r#"{"resourceLogs": [{"scopeLogs": [{"logRecords": [{
            "timeUnixNano": "1781200718939000000",
            "attributes": [
                {"key": "event.name", "value": {"stringValue": "quantum_compaction"}},
                {"key": "novel.attribute", "value": {"kvlistValue": {"values": []}}}
            ]
        }]}]}]}"#,
    ));
    rows.extend(ingest_str(&mut stats, r#"{"resourceLogs": "nope"}"#));
    rows.extend(ingest_str(&mut stats, r#"{"resourceLogs": [{"scopeLogs": [{"logRecords": [42, {}]}]}]}"#));

    assert_eq!(rows.len(), 0);
    let snap = stats.snapshot();
    assert_eq!(snap.events_ingested, 0);
    assert_eq!(snap.ingest_failures, 0);
    assert!(snap.events_skipped >= 1);
}

#[test]
fn unknown_attributes_on_api_request_are_ignored() {
    let mut stats = IngestStats::default();
    let rows = ingest_str(
        &mut stats,
        r#"{"resourceLogs": [{"scopeLogs": [{"logRecords": [{
            "timeUnixNano": "1781200718939000000",
            "attributes": [
                {"key": "event.name", "value": {"stringValue": "api_request"}},
                {"key": "session.id", "value": {"stringValue": "sess-1"}},
                {"key": "input_tokens", "value": {"intValue": "7"}},
                {"key": "from_the_future", "value": {"boolValue": true}},
                {"key": "model", "value": {"intValue": 9000}}
            ]
        }]}]}]}"#,
    );
    assert_eq!(rows.len(), 1);
    assert_eq!(stats.snapshot().ingest_failures, 0);
    assert_eq!(rows[0].input_tokens.int_value, Some(7));
    assert!(rows[0].model.is_none());
}

#[test]
fn missing_required_fields_increment_failure_counter() {
    let mut stats = IngestStats::default();
    let mut rows = ingest_str(
        &mut stats,
        r#"{"resourceLogs": [{"scopeLogs": [{"logRecords": [{
            "timeUnixNano": "1781200718939000000",
            "attributes": [{"key": "event.name", "value": {"stringValue": "api_request"}}]
        }]}]}]}"#,
    );
    rows.extend(ingest_str(
        &mut stats,
        r#"{"resourceLogs": [{"scopeLogs": [{"logRecords": [{
            "attributes": [
                {"key": "event.name", "value": {"stringValue": "api_error"}},
                {"key": "session.id", "value": {"stringValue": "sess-1"}}
            ]
        }]}]}]}"#,
    ));
    assert_eq!(rows.len(), 0);
    let snap = stats.snapshot();
    assert_eq!(snap.ingest_failures, 2);
    assert_eq!(snap.events_ingested, 0);
}

#[test]
fn prefixed_body_name_is_accepted_without_event_name_attribute() {
    let mut stats = IngestStats::default();
    let rows = ingest_str(
        &mut stats,
        r#"{"resourceLogs": [{"scopeLogs": [{"logRecords": [{
            "timeUnixNano": "1781200718939000000",
            "body": {"stringValue": "claude_code.api_request"},
            "attributes": [{"key": "session.id", "value": {"stringValue": "sess-1"}}]
        }]}]}]}"#,
    );
    assert_eq!(rows.len(), 1);
    assert_eq!(rows[0].event_type, EventType::ApiRequest);
}

#[test]
fn observed_time_is_timestamp_fallback() {
    let mut stats = IngestStats::default();
    let rows = ingest_str(
        &mut stats,
        r#"{"resourceLogs": [{"scopeLogs": [{"logRecords": [{
            "observedTimeUnixNano": 1781200718939000000,
            "attributes": [
                {"key": "event.name", "value": {"stringValue": "api_request"}},
                {"key": "session.id", "value": {"stringValue": "sess-1"}}
            ]
        }]}]}]}"#,
    );
    assert_eq!(rows.len(), 1);
    assert_eq!(rows[0].timestamp_ms, 1_781_200_718_939);
}

#[test]
fn api_error_keeps_error_text_and_string_duration() {
    let mut stats = IngestStats::default();
    let rows = ingest_str(
        &mut stats,
        r#"{"resourceLogs": [{"scopeLogs": [{"logRecords": [{
            "timeUnixNano": "1781200718939000000",
            "attributes": [
                {"key": "event.name", "value": {"stringValue": "claude_code.api_error"}},
                {"key": "session.id", "value": {"stringValue": "s"}},
                {"key": "error", "value": {"stringValue": "overloaded_error"}},
                {"key": "duration_ms", "value": {"intValue": "2105"}},
                {"key": "cost_usd", "value": {"doubleValue": 0.25}}
            ]
        }]}]}]}"#,
    );
    assert_eq!(rows.len(), 1);
    assert_eq!(rows[0].event_type.name(), "api_error");
    assert_eq!(rows[0].error.as_deref(), Some("overloaded_error"));
    assert_eq!(rows[0].duration_ms.int_value, Some(2105));
    assert!(rows[0].cost_usd.double_value.is_some());
    assert_eq!(stats.snapshot().events_ingested, 1);
    assert_eq!(stats.snapshot().last_event_ms, 1);
}

#[test]
fn negative_nanoseconds_truncate_toward_zero() {
    let mut stats = IngestStats::default();
    let rows = ingest_str(
        &mut stats,
        r#"{"resourceLogs": [{"scopeLogs": [{"logRecords": [{
            "timeUnixNano": "-1500000",
            "attributes": [
                {"key": "event.name", "value": {"stringValue": "api_request"}},
                {"key": "session.id", "value": {"stringValue": "s"}}
            ]
        }]}]}]}"#,
    );
    assert_eq!(rows[0].timestamp_ms, -1);
}

#[test]
fn counters_wrap_like_atomics() {
    let mut stats = IngestStats { events_ingested: u64::MAX, ingest_failures: 0, events_skipped: 0, last_event_ms: 0 };
    stats.record_success(5);
    assert_eq!(stats.events_ingested, 0);
    assert_eq!(stats.last_event_ms, 5);
}

#[test]
fn a_failed_store_counts_as_a_failure_not_an_ingest() {
    let payload = parse_json_str(
        r#"{"resourceLogs": [{"scopeLogs": [{"logRecords": [{
            "timeUnixNano": "1781200718939000000",
            "attributes": [
                {"key": "event.name", "value": {"stringValue": "api_request"}},
                {"key": "session.id", "value": {"stringValue": "s1"}}
            ]
        }]}]}]}"#,
    )
    .unwrap();
    let outcomes = plan_ingest(&payload);
    assert_eq!(outcomes.len(), 1);
    assert!(matches!(outcomes[0], RecordOutcome::Store(_)));
    let mut stats = IngestStats::default();
    stats.count_outcome(&outcomes[0], false, 99);
    let snap = stats.snapshot();
    assert_eq!((snap.events_ingested, snap.ingest_failures, snap.events_skipped, snap.last_event_ms), (0, 1, 0, 0));
    stats.count_outcome(&outcomes[0], true, 99);
    let snap = stats.snapshot();
    assert_eq!((snap.events_ingested, snap.ingest_failures, snap.last_event_ms), (1, 1, 99));
}
