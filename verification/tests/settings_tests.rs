use usage_tracker::codec::parse_json_str;
use usage_tracker::json::Json;
use usage_tracker::onboarding::{apply, compute_status, diff_lines};
use usage_tracker::settings::{
    app_env_pair, apply_merge, apply_unmerge, describe_settings_error, detect_conflicts, is_installed, merge_file,
    read_settings, unmerge_file, backup_file_name, IoErrorKind, JsonMap, SettingsError, SESSION_HOOK_COMMAND,
};

fn obj(text: &str) -> JsonMap {
    match parse_json_str(text).expect("parses") {
        Json::Object(m) => m,
        other => panic!("not an object: {other:?}"),
    }
}

fn get<'a>(m: &'a JsonMap, key: &str) -> Option<&'a Json> {
    m.iter().find(|(k, _)| k == key).map(|(_, v)| v)
}

fn env_of(m: &JsonMap) -> &JsonMap {
    match get(m, "env") {
        Some(Json::Object(e)) => e,
        other => panic!("env object expected: {other:?}"),
    }
}

fn session_start_len(m: &JsonMap) -> usize {
    match get(m, "hooks") {
        Some(Json::Object(h)) => match h.iter().find(|(k, _)| k == "SessionStart") {
            Some((_, Json::Array(a))) => a.len(),
            other => panic!("SessionStart array expected: {other:?}"),
        },
        other => panic!("hooks object expected: {other:?}"),
    }
}

const USER_SETTINGS: &str = r#"{"theme":"dark","permissions":{"allow":["Bash(ls)"]},"cleanupPeriodDays":30}"#;

#[test]
fn missing_file_merges_to_exactly_app_content() {
    let text = merge_file(None).expect("merge").expect("a missing file is written");
    let merged = obj(&text);
    assert_eq!(merged.len(), 2, "only env + hooks: {merged:?}");
    assert_eq!(env_of(&merged).len(), 5);
    for i in 0..5 {
        let (key, value) = app_env_pair(i);
        assert_eq!(get(env_of(&merged), key), Some(&Json::Str(value.into())));
    }
    assert_eq!(session_start_len(&merged), 1);
    assert!(is_installed(&merged));
    assert!(text.ends_with("}\n"));
}

#[test]
fn empty_file_treated_as_no_settings() {
    let text = merge_file(Some("  \n")).expect("merge").expect("written");
    assert!(is_installed(&obj(&text)));
}

#[test]
fn user_settings_survive_merge_in_order_and_unmerge_roundtrips() {
    let original = obj(USER_SETTINGS);
    let merged = apply_merge(&original).expect("merge");
    assert_eq!(merged.len(), original.len() + 2);
    for (i, (k, v)) in original.iter().enumerate() {
        assert_eq!(&merged[i].0, k);
        assert_eq!(&merged[i].1, v);
    }
    assert_eq!(apply_unmerge(&merged), original);
}

#[test]
fn merge_is_idempotent() {
    let first = merge_file(Some(USER_SETTINGS)).unwrap().expect("first merge writes");
    assert_eq!(merge_file(Some(&first)).unwrap(), None, "second merge must be a no-op");
}

#[test]
fn preexisting_hooks_are_kept_and_app_hook_appended() {
    let raw = r#"{"hooks":{"SessionStart":[{"matcher":"startup","hooks":[{"type":"command","command":"echo hi"}]}],"PostToolUse":[{"hooks":[{"type":"command","command":"fmt"}]}]}}"#;
    let original = obj(raw);
    let merged = apply_merge(&original).unwrap();
    assert_eq!(session_start_len(&merged), 2);
    let unmerged = apply_unmerge(&merged);
    let hooks_before = get(&original, "hooks").unwrap();
    assert_eq!(get(&unmerged, "hooks"), Some(hooks_before));
}

#[test]
fn non_object_root_aborts_without_writing() {
    let err = merge_file(Some("[1, 2, 3]\n")).expect_err("must abort");
    assert!(matches!(err, SettingsError::UnexpectedShape("root")));
}

#[test]
fn wrong_shaped_env_aborts_without_writing() {
    let err = merge_file(Some(r#"{"env": "not-an-object"}"#)).expect_err("must abort");
    assert!(matches!(err, SettingsError::UnexpectedShape("env")));
}

#[test]
fn malformed_json_aborts_without_writing() {
    let err = merge_file(Some("{\"env\": {")).expect_err("must abort");
    assert!(matches!(err, SettingsError::Malformed(_)));
    let err = unmerge_file(Some("{\"env\": {")).expect_err("must abort");
    assert!(matches!(err, SettingsError::Malformed(_)));
}

#[test]
fn describe_settings_error_names_file_and_remediation() {
    let path = "/tmp/settings.json";
    let malformed = read_settings(Some("{oops")).expect_err("malformed");
    let message = describe_settings_error(&malformed, path);
    assert!(message.contains("/tmp/settings.json"), "got: {message}");
    assert!(message.contains("Fix the JSON syntax"), "got: {message}");
    assert!(message.contains("has not been modified"), "got: {message}");

    let denied = SettingsError::Io { kind: IoErrorKind::PermissionDenied, message: "denied".into() };
    let message = describe_settings_error(&denied, path);
    assert!(message.contains("/tmp/settings.json"), "got: {message}");
    assert!(message.contains("permission"), "got: {message}");

    let full = SettingsError::Io { kind: IoErrorKind::StorageFull, message: "no space".into() };
    let message = describe_settings_error(&full, path);
    assert!(message.contains("disk is full"), "got: {message}");
    assert!(message.contains("intact"), "got: {message}");

    let shape = SettingsError::UnexpectedShape("env");
    let message = describe_settings_error(&shape, path);
    assert!(message.contains("/tmp/settings.json"), "got: {message}");
}

#[test]
fn unmerge_of_missing_file_is_a_noop() {
    assert_eq!(unmerge_file(None).unwrap(), None);
}

#[test]
fn unmerge_without_install_is_a_noop() {
    assert_eq!(unmerge_file(Some(USER_SETTINGS)).unwrap(), None);
}

#[test]
fn is_installed_reflects_state() {
    assert!(!is_installed(&obj(USER_SETTINGS)));
    assert!(!is_installed(&obj(r#"{"env":{"CLAUDE_CODE_ENABLE_TELEMETRY":"1"}}"#)), "partial env is not installed");
    let merged = apply_merge(&obj(USER_SETTINGS)).unwrap();
    assert!(is_installed(&merged));
    assert!(!is_installed(&apply_unmerge(&merged)));
}

#[test]
fn conflicts_name_overwritten_and_foreign_keys() {
    let raw = r#"{"env":{"MY_VAR":"x","OTEL_LOGS_EXPORTER":"console","CLAUDE_CODE_ENABLE_TELEMETRY":"1","OTEL_METRICS_EXPORTER":"otlp"}}"#;
    let conflicts = detect_conflicts(&obj(raw));
    let keys: Vec<&str> = conflicts.iter().map(|c| c.key.as_str()).collect();
    assert_eq!(keys, ["OTEL_LOGS_EXPORTER", "OTEL_METRICS_EXPORTER"]);
    assert_eq!(conflicts[0].proposed.as_deref(), Some("otlp"));
    assert_eq!(conflicts[1].proposed, None);
}

#[test]
fn fresh_machine_status_previews_full_install() {
    let status = compute_status(&Ok(None), "/home/u/settings.json").expect("status");
    assert!(!status.installed);
    assert!(status.changed);
    assert!(status.conflicts.is_empty());
    assert_eq!(status.before, "{}\n");
    assert!(status.after.contains("OTEL_EXPORTER_OTLP_LOGS_ENDPOINT"));
    assert!(status.diff.iter().any(|line| line.kind == "add" && line.text.contains("127.0.0.1:43177/v1/logs")));
    assert!(status.diff.iter().any(|line| line.kind == "add" && line.text.contains("SessionStart")));
}

#[test]
fn apply_refuses_unacknowledged_conflicts() {
    let raw = r#"{"env":{"OTEL_LOGS_EXPORTER":"console"}}"#;
    let err = apply(&Ok(Some(raw.into())), "/s.json", false).expect_err("must refuse");
    assert!(err.contains("explicit confirmation required"), "got: {err}");
    assert!(err.contains("has 1 pre-existing"), "got: {err}");
    let written = apply(&Ok(Some(raw.into())), "/s.json", true).expect("acknowledged").expect("changes");
    assert!(is_installed(&obj(&written)));
}

#[test]
fn apply_without_conflicts_needs_no_acknowledgement_and_rerun_is_noop() {
    let written = apply(&Ok(Some(USER_SETTINGS.into())), "/s.json", false).unwrap().expect("changes");
    let status = compute_status(&Ok(Some(written.clone())), "/s.json").unwrap();
    assert!(status.installed);
    assert!(!status.changed);
    assert_eq!(apply(&Ok(Some(written)), "/s.json", false).unwrap(), None);
}

#[test]
fn malformed_settings_error_everywhere() {
    let err = compute_status(&Ok(Some("{oops".into())), "/s.json").expect_err("must error");
    assert!(err.contains("not valid JSON"), "got: {err}");
    let err = apply(&Ok(Some("{oops".into())), "/s.json", true).expect_err("apply must error too");
    assert!(err.contains("not valid JSON"), "got: {err}");
}

#[test]
fn diff_lines_tag_and_trim() {
    let d = diff_lines("a\nb\n", "a\nc\n");
    let got: Vec<(&str, &str)> = d.iter().map(|l| (l.kind, l.text.as_str())).collect();
    assert_eq!(got, [("context", "a"), ("remove", "b"), ("add", "c")]);
}

fn hooks_obj(m: &JsonMap) -> &JsonMap {
    match get(m, "hooks") {
        Some(Json::Object(h)) => h,
        other => panic!("hooks object expected: {other:?}"),
    }
}

#[test]
fn merge_keeps_user_env_keys_and_other_hook_events() {
    let raw = r#"{"model":"sonnet","env":{"MY_CUSTOM_VAR":"keep-me","OTEL_EXPORTER_OTLP_ENDPOINT":"http://collector.internal:4318"},"hooks":{"Stop":[{"hooks":[{"type":"command","command":"say done"}]}]}}"#;
    let original = obj(raw);
    let merged = apply_merge(&original).unwrap();
    assert_eq!(get(&merged, "model"), get(&original, "model"));
    let env = env_of(&merged);
    assert_eq!(get(env, "MY_CUSTOM_VAR"), Some(&Json::Str("keep-me".into())));
    assert_eq!(
        get(env, "OTEL_EXPORTER_OTLP_ENDPOINT"),
        Some(&Json::Str("http://collector.internal:4318".into())),
        "merge must not touch the foreign generic endpoint"
    );
    assert_eq!(env.len(), 2 + 5);
    assert_eq!(get(hooks_obj(&merged), "Stop"), get(hooks_obj(&original), "Stop"));
    assert_eq!(session_start_len(&merged), 1);
}

#[test]
fn unmerge_keeps_user_edited_app_key_and_user_hooks() {
    // An installed file that the user then edited: the endpoint re-pointed
    // at their own collector, their own SessionStart group, a Stop hook.
    let edited = obj(&format!(
        r#"{{"model":"sonnet","env":{{"MY_CUSTOM_VAR":"keep-me","CLAUDE_CODE_ENABLE_TELEMETRY":"1","OTEL_LOGS_EXPORTER":"otlp","OTEL_EXPORTER_OTLP_PROTOCOL":"http/json","OTEL_EXPORTER_OTLP_LOGS_PROTOCOL":"http/json","OTEL_EXPORTER_OTLP_LOGS_ENDPOINT":"http://localhost:4318/v1/logs"}},"hooks":{{"SessionStart":[{{"hooks":[{{"type":"command","command":"{}"}}]}},{{"hooks":[{{"type":"command","command":"echo hi"}}]}}],"Stop":[]}}}}"#,
        SESSION_HOOK_COMMAND
    ));
    let unmerged = apply_unmerge(&edited);
    let env = env_of(&unmerged);
    assert_eq!(env.len(), 2, "user var and user-edited endpoint stay: {env:?}");
    assert_eq!(get(env, "MY_CUSTOM_VAR"), Some(&Json::Str("keep-me".into())));
    assert_eq!(
        get(env, "OTEL_EXPORTER_OTLP_LOGS_ENDPOINT"),
        Some(&Json::Str("http://localhost:4318/v1/logs".into())),
        "user-edited value means user ownership"
    );
    assert_eq!(get(&unmerged, "model"), Some(&Json::Str("sonnet".into())));
    assert_eq!(session_start_len(&unmerged), 1, "only the user's group survives");
    assert_eq!(get(hooks_obj(&unmerged), "Stop"), Some(&Json::Array(vec![])));
    assert!(!is_installed(&unmerged));
}

#[test]
fn backup_names_count_up_on_collisions() {
    let stamp = "20260615-101500-042";
    assert_eq!(backup_file_name(stamp, 0), "settings-20260615-101500-042.json");
    assert_eq!(backup_file_name(stamp, 1), "settings-20260615-101500-042-1.json");
    assert_eq!(backup_file_name(stamp, 12), "settings-20260615-101500-042-12.json");
    let names: Vec<String> = (0..25).map(|n| backup_file_name(stamp, n)).collect();
    for i in 0..names.len() {
        for j in i + 1..names.len() {
            assert_ne!(names[i], names[j]);
        }
    }
}

#[test]
fn unmerge_restores_settings_with_user_env_and_hooks() {
    let raw = r#"{"model":"sonnet","env":{"MY_CUSTOM_VAR":"keep-me","OTEL_METRICS_EXPORTER":"otlp"},"permissions":{"allow":["Bash(ls)"]},"hooks":{"SessionStart":[{"matcher":"startup","hooks":[{"type":"command","command":"echo hi"}]}],"PostToolUse":[{"hooks":[{"type":"command","command":"fmt"}]}]}}"#;
    let original = obj(raw);
    let merged = apply_merge(&original).unwrap();
    assert_eq!(env_of(&merged).len(), 2 + 5);
    assert_eq!(session_start_len(&merged), 2);
    assert_eq!(apply_unmerge(&merged), original, "exact roundtrip");
    let only_hooks = obj(r#"{"hooks":{"PostToolUse":[{"hooks":[{"type":"command","command":"fmt"}]}]}}"#);
    assert_eq!(apply_unmerge(&apply_merge(&only_hooks).unwrap()), only_hooks);
}

#[test]
fn unmerge_leaves_empty_user_containers_alone() {
    assert_eq!(unmerge_file(Some(r#"{"env": {}, "model": "sonnet"}"#)).unwrap(), None);
    assert_eq!(unmerge_file(Some(r#"{"hooks": {}, "env": {"MY": "x"}}"#)).unwrap(), None);
    assert_eq!(unmerge_file(Some(r#"{"hooks": {"SessionStart": []}}"#)).unwrap(), None);
    // Containers the unmerge empties are still removed.
    let installed = merge_file(Some(r#"{"model": "sonnet"}"#)).unwrap().expect("written");
    let restored = unmerge_file(Some(&installed)).unwrap().expect("rewritten");
    assert_eq!(obj(&restored), obj(r#"{"model": "sonnet"}"#));
}

const PREEXISTING_ENV: &str = r#"{
  "model": "sonnet",
  "env": {
    "CLAUDE_CODE_ENABLE_TELEMETRY": "1",
    "OTEL_LOGS_EXPORTER": "console",
    "OTEL_EXPORTER_OTLP_ENDPOINT": "http://collector.internal:4318",
    "OTEL_METRICS_EXPORTER": "otlp",
    "MY_CUSTOM_VAR": "keep-me"
  },
  "permissions": {"allow": ["Bash(git status)"], "deny": []}
}"#;

const PREEXISTING_HOOKS: &str = r#"{
  "model": "sonnet",
  "hooks": {
    "SessionStart": [{"matcher": "startup", "hooks": [{"type": "command", "command": "echo hi"}]}],
    "PostToolUse": [{"matcher": "Edit", "hooks": [{"type": "command", "command": "fmt"}]}]
  }
}"#;

#[test]
fn realworld_merge_adds_exactly_five_env_keys_and_one_hook() {
    let original = obj(USER_SETTINGS);
    let merged = obj(&merge_file(Some(USER_SETTINGS)).unwrap().expect("merge"));
    assert_eq!(merged.len(), original.len() + 2);
    assert_eq!(env_of(&merged).len(), 5);
    assert_eq!(session_start_len(&merged), 1);
    for (key, value) in &original {
        assert_eq!(get(&merged, key), Some(value), "lost or changed `{key}`");
    }
    let merged_keys: Vec<&String> = merged.iter().map(|(k, _)| k).collect();
    let original_keys: Vec<&String> = original.iter().map(|(k, _)| k).collect();
    assert_eq!(&merged_keys[..original_keys.len()], &original_keys[..]);
}

#[test]
fn preexisting_env_is_preserved_and_conflicts_detected() {
    let original = obj(PREEXISTING_ENV);
    let conflicts = detect_conflicts(&original);
    let keys: Vec<&str> = conflicts.iter().map(|c| c.key.as_str()).collect();
    assert!(keys.contains(&"OTEL_LOGS_EXPORTER"));
    assert!(keys.contains(&"OTEL_EXPORTER_OTLP_ENDPOINT"));
    assert!(keys.contains(&"OTEL_METRICS_EXPORTER"));
    assert!(!keys.contains(&"CLAUDE_CODE_ENABLE_TELEMETRY"));
    assert!(!keys.contains(&"MY_CUSTOM_VAR"));
    assert_eq!(conflicts.len(), 3);
    let overwrite = conflicts.iter().find(|c| c.key == "OTEL_LOGS_EXPORTER").unwrap();
    assert_eq!(overwrite.existing, Json::Str("console".into()));
    assert_eq!(overwrite.proposed.as_deref(), Some("otlp"));

    let merged = obj(&merge_file(Some(PREEXISTING_ENV)).unwrap().expect("merge"));
    let env = env_of(&merged);
    assert_eq!(get(env, "MY_CUSTOM_VAR"), Some(&Json::Str("keep-me".into())));
    assert_eq!(
        get(env, "OTEL_EXPORTER_OTLP_ENDPOINT"),
        Some(&Json::Str("http://collector.internal:4318".into())),
        "merge must not touch the foreign generic endpoint"
    );
    assert_eq!(get(env, "OTEL_LOGS_EXPORTER"), Some(&Json::Str("otlp".into())));
    assert_eq!(env.len(), 5 + 5 - 2, "user keys + app keys, 2 shared");
    assert_eq!(get(&merged, "permissions"), get(&original, "permissions"));
}

#[test]
fn unmerge_removes_only_app_owned_env_keys() {
    let merged = merge_file(Some(PREEXISTING_ENV)).unwrap().expect("merge");
    let unmerged = obj(&unmerge_file(Some(&merged)).unwrap().expect("unmerge"));
    let env = env_of(&unmerged);
    for i in 0..5 {
        let (key, _) = app_env_pair(i);
        assert!(get(env, key).is_none(), "app key `{key}` must be removed");
    }
    assert_eq!(get(env, "MY_CUSTOM_VAR"), Some(&Json::Str("keep-me".into())));
    assert_eq!(
        get(env, "OTEL_EXPORTER_OTLP_ENDPOINT"),
        Some(&Json::Str("http://collector.internal:4318".into()))
    );
    assert_eq!(get(env, "OTEL_METRICS_EXPORTER"), Some(&Json::Str("otlp".into())));
    assert!(get(&unmerged, "hooks").is_none(), "app-added hooks block removed");
    assert_eq!(get(&unmerged, "model"), Some(&Json::Str("sonnet".into())));
}

#[test]
fn unmerge_removes_only_app_hook_entries() {
    let merged = merge_file(Some(PREEXISTING_HOOKS)).unwrap().expect("merge");
    let unmerged = unmerge_file(Some(&merged)).unwrap().expect("unmerge");
    assert_eq!(obj(&unmerged), obj(PREEXISTING_HOOKS), "exact roundtrip");
}

#[test]
fn unmerge_leaves_the_settings_uninstalled() {
    let merged = apply_merge(&obj(PREEXISTING_ENV)).unwrap();
    assert!(is_installed(&merged));
    let unmerged = apply_unmerge(&merged);
    assert!(!is_installed(&unmerged));
    let env = env_of(&unmerged);
    for i in 0..5 {
        let (key, value) = app_env_pair(i);
        assert_ne!(get(env, key), Some(&Json::Str(value.into())));
    }
}
