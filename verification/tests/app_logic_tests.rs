use usage_tracker::autostart::{autostart_step, onboarding_autostart, AutostartStatus, AutostartStep, DEV_BUILD_REFUSAL};
use usage_tracker::budgets::{worst_band, Band};
use usage_tracker::capture::{paused_from_persisted, persisted_value};
use usage_tracker::export::{
    csv_field, destination_check, missing_directory_error, requests_csv_line, should_emit_progress, validate_destination, RawExportRow,
};
use usage_tracker::notify::{show_outcome, test_copy, Permission, ShowOutcome, RULE_TYPE_BURST, RULE_TYPE_DELTA};
use usage_tracker::receiver::{
    invalid_json_message, logs_action, logs_request, LogsRequest, logs_status, new_status, set_status, status_after, LogsAction, ReceiverStatus,
    ServeOutcome, OTLP_PORT,
};
use usage_tracker::session::{parse_hook_payload, session_request, session_status, write_status, SessionMapping, SessionRequest, WriteResult};
use usage_tracker::tray::{toggle_popover, window_event_action, PopoverAction, TrayState, WindowAction, WindowEventKind, REOPEN_SUPPRESS_WINDOW_MS};
use usage_tracker::codec::parse_json_str;

#[test]
fn band_thresholds_are_contiguous() {
    assert_eq!(Band::from_percent(0), Band::Green);
    assert_eq!(Band::from_percent(50), Band::Green);
    assert_eq!(Band::from_percent(51), Band::Yellow);
    assert_eq!(Band::from_percent(75), Band::Yellow);
    assert_eq!(Band::from_percent(76), Band::Amber);
    assert_eq!(Band::from_percent(90), Band::Amber);
    assert_eq!(Band::from_percent(91), Band::Red);
    assert_eq!(Band::from_percent(100), Band::Red);
    assert_eq!(Band::from_percent(150), Band::Red);
}

#[test]
fn band_ordering_picks_worst() {
    assert!(Band::Red > Band::Amber);
    assert!(Band::Amber > Band::Yellow);
    assert!(Band::Yellow > Band::Green);
    assert_eq!([Band::Green, Band::Amber, Band::Yellow].iter().max(), Some(&Band::Amber));
}

#[test]
fn worst_band_of_two() {
    assert_eq!(Band::worst(Band::Green, Band::Red), Band::Red);
    assert_eq!(Band::worst(Band::Amber, Band::Yellow), Band::Amber);
    assert_eq!(Band::from_percent(-5), Band::Green);
}

#[test]
fn relative_destination_rejected() {
    let err = validate_destination("report.zip").unwrap_err();
    assert!(err.contains("absolute"), "error names the constraint: {err}");
}

#[test]
fn destination_checks_extension_and_returns_parent() {
    assert_eq!(validate_destination("/tmp/out/report.ZIP"), Ok("/tmp/out".to_string()));
    let err = validate_destination("/tmp/report.csv").unwrap_err();
    assert!(err.contains(".zip"), "{err}");
    let err = validate_destination("/tmp/report").unwrap_err();
    assert!(err.contains(".zip"), "{err}");
    assert_eq!(
        usage_tracker::export::missing_directory_error("/nope"),
        "export destination directory does not exist: /nope"
    );
}

fn row(timestamp_ms: i64) -> RawExportRow {
    RawExportRow {
        timestamp_ms,
        model: Some("sonnet".into()),
        query_source: None,
        event_type: "api_request".into(),
        source: "otel".into(),
        cost_usd: Some("1.25".into()),
        input_tokens: 10,
        output_tokens: 20,
        cache_read_tokens: 30,
        cache_creation_tokens: 40,
        duration_ms: Some(500),
        error: None,
        session_id: Some("s1".into()),
        cwd: Some("~/proj/alpha".into()),
    }
}

#[test]
fn csv_line_quotes_fields_with_separators_and_quotes() {
    let mut r = row(1700000000000);
    r.error = Some("API Error: 529, \"overloaded\"\nretry".into());
    r.cwd = Some("~/a,b".into());
    let line = requests_csv_line(&r);
    assert!(line.contains("\"API Error: 529, \"\"overloaded\"\"\nretry\""), "error field is RFC-4180 quoted: {line}");
    assert!(line.contains("\"~/a,b\""), "cwd with a comma is quoted: {line}");
}

#[test]
fn csv_line_renders_none_cost_and_duration_as_empty() {
    let mut r = row(1);
    r.cost_usd = None;
    r.duration_ms = None;
    r.model = None;
    let line = requests_csv_line(&r);
    assert!(!line.contains("null"), "None never serializes as the text null");
    assert!(line.contains(",,"), "empty cells render as adjacent commas: {line}");
}

#[test]
fn csv_line_exact_shape() {
    let line = requests_csv_line(&row(1700000000000));
    assert_eq!(
        line,
        "1700000000000,2023-11-14T22:13:20.000Z,sonnet,,api_request,otel,1.25,10,20,30,40,500,,s1,~/proj/alpha\n"
    );
    assert_eq!(csv_field("plain"), "plain");
    assert_eq!(csv_field("a\"b"), "\"a\"\"b\"");
    assert_eq!(csv_field("line\r"), "\"line\r\"");
}

#[test]
fn progress_needs_both_row_and_time_floor() {
    assert!(should_emit_progress(2048, 100));
    assert!(!should_emit_progress(2048, 99));
    assert!(!should_emit_progress(2047, 1000));
    assert!(should_emit_progress(4096, 250));
}

#[test]
fn test_copy_is_sample_data_per_rule_type() {
    let (burst_title, burst_body) = test_copy(RULE_TYPE_BURST).expect("burst copy");
    assert_eq!(burst_title, "Usage spike");
    assert!(burst_body.contains("sample"), "test copy must be flagged as sample, not live data");

    let (delta_title, delta_body) = test_copy(RULE_TYPE_DELTA).expect("delta copy");
    assert_eq!(delta_title, "Usage milestone");
    assert!(delta_body.contains("sample"));

    assert_ne!(burst_body, delta_body);
}

#[test]
fn test_copy_rejects_unknown_rule_type() {
    let err = test_copy("forecast").expect_err("unknown rule type must error");
    assert!(err.contains("forecast"), "error names the bad rule type");
    assert_eq!(err, "cannot send test notification: unknown rule type 'forecast'");
}

#[test]
fn only_granted_permission_delivers() {
    assert_eq!(show_outcome(Permission::Granted), ShowOutcome::Delivered);
    assert_eq!(show_outcome(Permission::Denied), ShowOutcome::PermissionDenied);
    assert_eq!(show_outcome(Permission::Prompt), ShowOutcome::PermissionDenied);
    assert_eq!(show_outcome(Permission::PromptWithRationale), ShowOutcome::PermissionDenied);
}

#[test]
fn fixed_port_is_43177() {
    assert_eq!(OTLP_PORT, 43177);
}

#[test]
fn receiver_status_follows_serve_outcomes() {
    let mut status = new_status();
    assert_eq!(status, ReceiverStatus::Starting);
    set_status(&mut status, status_after(&ServeOutcome::AddrInUse { port: 43177 }));
    assert_eq!(status, ReceiverStatus::PortInUse { port: 43177 });
    let failed = status_after(&ServeOutcome::BindFailed {
        address: "127.0.0.1:43177".into(),
        error: "denied".into(),
    });
    assert_eq!(failed, ReceiverStatus::Failed { message: "failed to bind 127.0.0.1:43177: denied".into() });
    assert_eq!(status_after(&ServeOutcome::Bound { port: 5 }), ReceiverStatus::Listening { port: 5 });
    assert_eq!(
        status_after(&ServeOutcome::ServeFailed { error: "boom".into() }),
        ReceiverStatus::Failed { message: "server stopped: boom".into() }
    );
}

#[test]
fn paused_defaults_to_false_and_toggles() {
    let mut state = TrayState::default();
    assert!(!state.paused());
    state.set_paused(true);
    assert!(state.paused());
    state.set_paused(false);
    assert!(!state.paused());
}

#[test]
fn reopen_not_suppressed_without_prior_hide() {
    let state = TrayState::default();
    assert!(!state.suppress_reopen_at(1_000));
}

#[test]
fn reopen_suppressed_immediately_after_auto_hide() {
    let mut state = TrayState::default();
    state.note_popover_hidden(1_000);
    assert!(state.suppress_reopen_at(1_000));
}

#[test]
fn reopen_allowed_after_suppress_window_elapses() {
    let mut state = TrayState::default();
    state.note_popover_hidden(1_000);
    let later = 1_000 + REOPEN_SUPPRESS_WINDOW_MS + 1;
    assert!(!state.suppress_reopen_at(later));
    assert!(state.suppress_reopen_at(999), "a clock that went backwards counts as no time");
}

#[test]
fn popover_toggle_and_window_events() {
    let mut state = TrayState::default();
    assert_eq!(toggle_popover(&state, true, 0), PopoverAction::Hide);
    assert_eq!(toggle_popover(&state, false, 0), PopoverAction::Show);
    state.note_popover_hidden(10);
    assert_eq!(toggle_popover(&state, false, 100), PopoverAction::StayClosed);
    assert_eq!(toggle_popover(&state, false, 310), PopoverAction::Show);
    assert_eq!(window_event_action("popover", WindowEventKind::FocusLost, true), WindowAction::HidePopover);
    assert_eq!(window_event_action("popover", WindowEventKind::FocusLost, false), WindowAction::Nothing);
    assert_eq!(window_event_action("main", WindowEventKind::CloseRequested, true), WindowAction::HideMain);
    assert_eq!(window_event_action("main", WindowEventKind::Other, true), WindowAction::Nothing);
}

#[test]
fn hook_payload_needs_a_non_empty_session_id() {
    let ok = parse_json_str(r#"{"session_id":"abc","cwd":"/w","source":"startup","x":1}"#).unwrap();
    let m = parse_hook_payload(&ok).expect("mapping");
    assert_eq!(m.session_id, "abc");
    assert_eq!(m.cwd.as_deref(), Some("/w"));
    let no_cwd = parse_json_str(r#"{"session_id":"abc","cwd":""}"#).unwrap();
    assert_eq!(parse_hook_payload(&no_cwd).unwrap().cwd, None);
    for bad in [r#"{"session_id":""}"#, r#"{"cwd":"/w"}"#, r#"{"session_id":7}"#, "[]"] {
        assert!(parse_hook_payload(&parse_json_str(bad).unwrap()).is_none(), "{bad}");
    }
    assert_eq!(write_status(WriteResult::Written), 200);
    assert_eq!(write_status(WriteResult::Failed), 500);
    assert_eq!(write_status(WriteResult::TimedOut), 202);
}

#[test]
fn pause_flag_persists_as_one_or_zero() {
    assert_eq!(persisted_value(true), "1");
    assert_eq!(persisted_value(false), "0");
    assert!(paused_from_persisted(Some("1")));
    assert!(!paused_from_persisted(Some("true")));
    assert!(!paused_from_persisted(None));
}

#[test]
fn autostart_refuses_dev_enable_and_disables_idempotently() {
    assert_eq!(autostart_step(true, true, false), AutostartStep::Refuse);
    assert_eq!(autostart_step(true, false, false), AutostartStep::Enable);
    assert_eq!(autostart_step(false, false, true), AutostartStep::Disable);
    assert_eq!(autostart_step(false, true, false), AutostartStep::Nothing);
    let outcome = onboarding_autostart(Err(DEV_BUILD_REFUSAL.to_string()));
    assert!(!outcome.enabled);
    assert!(outcome.note.unwrap().contains("dev builds"));
    let outcome = onboarding_autostart(Ok(AutostartStatus { enabled: true, dev_build: false }));
    assert!(outcome.enabled && outcome.note.is_none());
}

#[test]
fn worst_band_rolls_up_only_the_set_budgets() {
    assert_eq!(worst_band(None, None), Band::Green);
    assert_eq!(worst_band(Some(Band::Amber), None), Band::Amber);
    assert_eq!(worst_band(None, Some(Band::Yellow)), Band::Yellow);
    assert_eq!(worst_band(Some(Band::Yellow), Some(Band::Red)), Band::Red);
    assert_eq!(worst_band(Some(Band::Red), Some(Band::Green)), Band::Red);
}

/// Stands in for the OS notification center: a permission state and the
/// notifications delivered to it.
struct FakeNotifier {
    state: Permission,
    delivered: std::cell::RefCell<Vec<(String, String)>>,
}

impl FakeNotifier {
    fn new(state: Permission) -> Self {
        FakeNotifier { state, delivered: std::cell::RefCell::new(Vec::new()) }
    }
}

fn show_with(notifier: &FakeNotifier, title: &str, body: &str) -> ShowOutcome {
    let outcome = show_outcome(notifier.state);
    if outcome == ShowOutcome::Delivered {
        notifier.delivered.borrow_mut().push((title.to_string(), body.to_string()));
    }
    outcome
}

#[test]
fn granted_delivers_via_the_seam() {
    let notifier = FakeNotifier::new(Permission::Granted);
    let outcome = show_with(&notifier, "Title", "Body");
    assert_eq!(outcome, ShowOutcome::Delivered);
    assert_eq!(
        *notifier.delivered.borrow(),
        vec![("Title".to_string(), "Body".to_string())]
    );
}

#[test]
fn denied_skips_delivery() {
    let notifier = FakeNotifier::new(Permission::Denied);
    let outcome = show_with(&notifier, "Title", "Body");
    assert_eq!(outcome, ShowOutcome::PermissionDenied);
    assert!(
        notifier.delivered.borrow().is_empty(),
        "denied permission must not attempt delivery"
    );
}

#[test]
fn prompt_is_gated_like_denied() {
    let notifier = FakeNotifier::new(Permission::Prompt);
    let outcome = show_with(&notifier, "Title", "Body");
    assert_eq!(outcome, ShowOutcome::PermissionDenied);
    assert!(notifier.delivered.borrow().is_empty());
}

#[test]
fn logs_endpoint_rejects_bad_json_and_drops_while_paused() {
    assert_eq!(logs_action(false, false), LogsAction::RejectInvalidJson);
    assert_eq!(logs_action(false, true), LogsAction::RejectInvalidJson);
    assert_eq!(logs_action(true, true), LogsAction::AcknowledgeOnly);
    assert_eq!(logs_action(true, false), LogsAction::Ingest);
    assert_eq!(logs_status(LogsAction::RejectInvalidJson), 400);
    assert_eq!(logs_status(LogsAction::AcknowledgeOnly), 200);
    assert_eq!(logs_status(LogsAction::Ingest), 200);
    assert_eq!(
        invalid_json_message("expected value at line 1 column 1"),
        "invalid JSON payload: expected value at line 1 column 1"
    );
}

/// Stands in for the login-item launcher: whether a login item is
/// registered, changed only as the verified step says.
struct FakeLauncher {
    registered: std::cell::Cell<bool>,
    dev_build: bool,
}

impl FakeLauncher {
    fn new(dev_build: bool) -> Self {
        FakeLauncher { registered: std::cell::Cell::new(false), dev_build }
    }

    fn current_status(&self) -> AutostartStatus {
        AutostartStatus { enabled: self.registered.get(), dev_build: self.dev_build }
    }

    fn set_enabled(&self, enabled: bool) -> Result<AutostartStatus, String> {
        match autostart_step(enabled, self.dev_build, self.registered.get()) {
            AutostartStep::Refuse => return Err(DEV_BUILD_REFUSAL.to_string()),
            AutostartStep::Enable => self.registered.set(true),
            AutostartStep::Disable => self.registered.set(false),
            AutostartStep::Nothing => {}
        }
        Ok(self.current_status())
    }
}

#[test]
fn dev_build_refuses_enable_and_registers_nothing() {
    let launcher = FakeLauncher::new(true);
    let err = launcher.set_enabled(true).expect_err("must refuse");
    assert_eq!(err, DEV_BUILD_REFUSAL);
    assert!(!launcher.current_status().enabled);
}

#[test]
fn disable_when_not_enabled_is_a_noop() {
    let launcher = FakeLauncher::new(true);
    let status = launcher.set_enabled(false).expect("disable");
    assert!(!status.enabled);
}

#[test]
fn onboarding_enable_never_errors_and_explains_dev_skip() {
    let launcher = FakeLauncher::new(true);
    let outcome = onboarding_autostart(launcher.set_enabled(true));
    assert!(!outcome.enabled);
    assert_eq!(outcome.note.as_deref(), Some(DEV_BUILD_REFUSAL));
}

/// The destination check as the export runs it: whether the parent
/// directory exists is read first, then the verified rules decide.
fn check_destination(destination: &str, parent_exists: impl Fn(&str) -> bool) -> Result<(), String> {
    let parent_is_dir = std::path::Path::new(destination)
        .parent()
        .and_then(|p| p.to_str())
        .is_some_and(|p| parent_exists(p));
    destination_check(destination, parent_is_dir)
}

#[test]
fn missing_parent_dir_rejected_before_write() {
    let err = check_destination("/tmp/export-dir/nope/out.zip", |p| p == "/tmp/export-dir").unwrap_err();
    assert!(
        err.contains("does not exist"),
        "actionable error names the missing directory: {err}"
    );
    assert!(err.contains("/tmp/export-dir/nope"));
}

#[test]
fn non_zip_extension_rejected() {
    let err = check_destination("/tmp/export-dir/report.tar", |_| true).unwrap_err();
    assert!(
        err.contains(".zip"),
        "error names the required extension: {err}"
    );
}

#[test]
fn zip_extension_is_case_insensitive() {
    assert!(check_destination("/tmp/export-dir/report.ZIP", |_| true).is_ok());
}

#[test]
fn logs_request_parses_the_raw_body() {
    match logs_request(b"{not json", false) {
        LogsRequest::RejectInvalidJson(message) => assert!(message.starts_with("invalid JSON payload: "), "{message}"),
        _ => panic!("invalid JSON must be rejected"),
    }
    assert!(matches!(logs_request(b"{not json", true), LogsRequest::RejectInvalidJson(_)));
    assert!(matches!(logs_request(b"{}", true), LogsRequest::AcknowledgeOnly));
    match logs_request(b"{}", false) {
        LogsRequest::Ingest(outcomes) => assert!(outcomes.is_empty()),
        _ => panic!("valid JSON is ingested"),
    }
    let body = br#"{"resourceLogs": [{"scopeLogs": [{"logRecords": [
        {"attributes": [{"key": "event.name", "value": {"stringValue": "api_request"}},
                        {"key": "session.id", "value": {"stringValue": "s1"}}],
         "timeUnixNano": "1781200718939000000"},
        {"attributes": [{"key": "event.name", "value": {"stringValue": "tool_result"}}]}
    ]}]}]}"#;
    match logs_request(body, false) {
        LogsRequest::Ingest(outcomes) => {
            assert_eq!(outcomes.len(), 2);
            assert!(matches!(outcomes[0], usage_tracker::ingest::RecordOutcome::Store(_)));
            assert!(matches!(outcomes[1], usage_tracker::ingest::RecordOutcome::Skip));
        }
        _ => panic!("valid JSON is ingested"),
    }
}

#[test]
fn paused_session_acknowledges_and_still_rejects_unusable_bodies() {
    let body = br#"{"session_id": "sess-paused", "cwd": "/tmp/project"}"#;
    assert_eq!(session_request(body, true), SessionRequest::Acknowledge);
    assert_eq!(
        session_request(body, false),
        SessionRequest::Upsert(SessionMapping { session_id: "sess-paused".into(), cwd: Some("/tmp/project".into()) })
    );
    assert_eq!(
        session_request(b"{}", true),
        SessionRequest::BadRequest("missing or empty session_id".into())
    );
    match session_request(b"nope", true) {
        SessionRequest::BadRequest(message) => assert!(message.starts_with("invalid JSON payload: "), "{message}"),
        other => panic!("unexpected {other:?}"),
    }
}

#[test]
fn destination_check_applies_the_rules_in_order() {
    assert_eq!(destination_check("/tmp/out/report.zip", true), Ok(()));
    assert_eq!(
        destination_check("/tmp/out/report.zip", false),
        Err("export destination directory does not exist: /tmp/out".to_string())
    );
    assert_eq!(
        destination_check("report.zip", false),
        Err("export destination must be an absolute path: report.zip".to_string())
    );
    assert_eq!(
        destination_check("/tmp/out/report.txt", false),
        Err("export destination must end in .zip: /tmp/out/report.txt".to_string())
    );
}

#[test]
fn session_answers_carry_their_status() {
    let bad = session_request(b"{}", true);
    assert_eq!(session_status(&bad, WriteResult::Written), 400);
    let paused = session_request(br#"{"session_id": "s1", "cwd": "/p"}"#, true);
    assert_eq!(paused, SessionRequest::Acknowledge);
    assert_eq!(session_status(&paused, WriteResult::Failed), 200);
    let upsert = session_request(br#"{"session_id": "s1", "cwd": "/p"}"#, false);
    assert_eq!(session_status(&upsert, WriteResult::Written), 200);
    assert_eq!(session_status(&upsert, WriteResult::Failed), 500);
    assert_eq!(session_status(&upsert, WriteResult::TimedOut), 202);
}
