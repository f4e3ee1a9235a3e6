use usage_tracker::timestamp::rfc3339_utc_to_ms;
use usage_tracker::transcript::{
    collapse_messages, collapse_requests, parse_assistant, parse_message, parse_reader, AssistantUsage, MessageRole, ParseStats,
    TranscriptMessage, TranscriptParse,
};

/// The lines, each terminated by `\n`.
fn jsonl(lines: &[&str]) -> String {
    lines.iter().map(|l| format!("{l}\n")).collect()
}

fn parse(s: &str) -> TranscriptParse {
    parse_reader(s.as_bytes())
}

fn usage(request_id: Option<&str>, ts: i64, model: &str, input: i64, output: i64) -> AssistantUsage {
    AssistantUsage {
        request_id: request_id.map(|r| r.to_string()),
        session_id: "s".into(),
        timestamp_ms: ts,
        model: Some(model.into()),
        cwd: None,
        is_sidechain: false,
        input_tokens: input,
        output_tokens: output,
        cache_read_tokens: 0,
        cache_creation_tokens: 0,
        cache_creation_5m_tokens: None,
        cache_creation_1h_tokens: None,
    }
}

#[test]
fn trailing_all_zero_line_loses_to_earlier_real_line() {
    let real = AssistantUsage {
        request_id: Some("req_1".into()),
        session_id: "s".into(),
        timestamp_ms: 1,
        model: Some("opus-4-8".into()),
        cwd: None,
        is_sidechain: false,
        input_tokens: 2,
        output_tokens: 6,
        cache_read_tokens: 0,
        cache_creation_tokens: 0,
        cache_creation_5m_tokens: Some(0),
        cache_creation_1h_tokens: Some(0),
    };
    let zero = AssistantUsage {
        timestamp_ms: 2,
        input_tokens: 0,
        output_tokens: 0,
        ..real.clone()
    };
    let collapsed = collapse_requests(&[real.clone(), zero.clone()]);
    assert_eq!(collapsed, vec![real.clone()]);
    let collapsed = collapse_requests(std::slice::from_ref(&zero));
    assert_eq!(collapsed, vec![zero]);
}

#[test]
fn unterminated_trailing_line_is_left_for_the_next_pass() {
    let complete = r#"{"type":"mode","mode":"normal"}"#;
    let partial = r#"{"type":"assistant","sessionId":"s","timesta"#;
    let input = format!("{complete}\n{partial}");

    let parsed = parse(&input);
    assert_eq!(parsed.bytes_consumed, (complete.len() + 1) as u64);
    assert_eq!(parsed.stats.lines_read, 1);
    assert_eq!(parsed.stats.malformed_lines, 0);
    assert!(parsed.lines.is_empty());
}

#[test]
fn missing_required_fields_count_as_invalid_not_fatal() {
    let input = jsonl(&[
        r#"{"type":"assistant","timestamp":"2026-06-11T14:50:03.944Z","message":{"usage":{}}}"#,
        r#"{"type":"assistant","sessionId":"s","message":{"usage":{}}}"#,
        r#"{"type":"assistant","sessionId":"s","timestamp":"2026-06-11T14:50:03.944Z","message":{}}"#,
        r#"{"type":"assistant","sessionId":"s","timestamp":"yesterday-ish","message":{"usage":{}}}"#,
        r#"{"type":"assistant","sessionId":"s","timestamp":"2026-06-11T14:50:03.944Z","message":{"usage":{}}}"#,
    ]);
    let parsed = parse(&input);
    assert_eq!(parsed.stats.invalid_assistant_lines, 4);
    assert_eq!(parsed.stats.assistant_lines, 1);
    assert_eq!(parsed.lines[0].input_tokens, 0);
    assert_eq!(parsed.lines[0].cache_creation_5m_tokens, None);
    assert!(!parsed.lines[0].has_usage());
}

#[test]
fn token_counts_tolerate_numeric_strings_and_absent_split() {
    let input = jsonl(&[&format!(
        "{}{}",
        r#"{"type":"assistant","sessionId":"s","timestamp":"2026-06-01T20:06:33.674Z","#,
        r#""message":{"model":"model-x","usage":{"input_tokens":"7","output_tokens":12}}}"#,
    )]);
    let parsed = parse(&input);
    let line = &parsed.lines[0];
    assert_eq!(line.timestamp_ms, 1_780_344_393_674);
    assert_eq!(line.input_tokens, 7);
    assert_eq!(line.output_tokens, 12);
    assert_eq!(line.cache_read_tokens, 0);
    assert_eq!(line.cache_creation_5m_tokens, None);
    assert_eq!(line.cache_creation_1h_tokens, None);
}

#[test]
fn empty_and_non_object_inputs_never_panic() {
    assert_eq!(parse("").stats, ParseStats::default());
    let parsed = parse("\n42\n\"a string\"\n[1,2]\nnot json at all\n");
    assert_eq!(parsed.stats.malformed_lines, 5);
    assert_eq!(parsed.stats.lines_read, 5);
    assert!(parsed.lines.is_empty());
}

#[test]
fn collapse_messages_drops_assistant_without_request_id() {
    let msg = TranscriptMessage {
        uuid: "no-req".into(),
        parent_uuid: None,
        request_id: None,
        session_id: "s".into(),
        role: MessageRole::Assistant,
        timestamp_ms: 0,
        is_sidechain: false,
        content: "[]".into(),
        tool_use_result: None,
    };
    let result = collapse_messages(&[msg]);
    assert!(result.is_empty(), "assistant message without request_id must be dropped");
}

#[test]
fn rfc3339_utc_parsing() {
    assert_eq!(rfc3339_utc_to_ms("1970-01-01T00:00:00Z"), Some(0));
    assert_eq!(rfc3339_utc_to_ms("2026-06-11T14:50:03.944Z"), Some(1_781_189_403_944));
    assert_eq!(rfc3339_utc_to_ms("2000-02-29T12:00:00.5Z"), Some(951_825_600_500));
    assert_eq!(rfc3339_utc_to_ms("2026-06-11T14:50:03.944999Z"), Some(1_781_189_403_944));
    assert_eq!(rfc3339_utc_to_ms("1969-12-31T23:59:59Z"), Some(-1000));

    for bad in [
        "",
        "2026-06-11",
        "2026-06-11T14:50:03.944",
        "2026-06-11T14:50:03+02:00",
        "2026-13-01T00:00:00Z",
        "2026-02-29T00:00:00Z",
        "2026-06-31T00:00:00Z",
        "2026-06-11T24:00:00Z",
        "2026-06-11T14:50:03.x9Z",
        "yesterday-ish",
    ] {
        assert_eq!(rfc3339_utc_to_ms(bad), None, "{bad:?} should not parse");
    }
}

fn content() -> String {
    jsonl(&[
        r#"{"type":"user","uuid":"u1","sessionId":"sx","timestamp":"2026-06-11T15:00:00.000Z","message":{"role":"user","content":[{"type":"text","text":"hi"}]}}"#,
        r#"{"type":"assistant","uuid":"a1","parentUuid":"u1","requestId":"req_a","sessionId":"sx","timestamp":"2026-06-11T15:00:01.000Z","message":{"model":"model-x","content":[{"type":"text","text":"part"}],"usage":{"input_tokens":3,"output_tokens":1}}}"#,
        r#"{"type":"assistant","uuid":"a2","parentUuid":"a1","requestId":"req_a","sessionId":"sx","timestamp":"2026-06-11T15:00:02.000Z","message":{"model":"model-x","content":[{"type":"text","text":"part and more"}],"usage":{"input_tokens":3,"output_tokens":9}}}"#,
        r#"{"type":"user","uuid":"u2","parentUuid":"a2","sessionId":"sx","timestamp":"2026-06-11T15:00:03.000Z","toolUseResult":{"ok":true},"message":{"role":"user","content":[{"type":"tool_result","content":"x"}]}}"#,
    ])
}

#[test]
fn messages_are_extracted_without_touching_stats() {
    let parsed = parse(&content());
    assert_eq!(
        parsed.stats,
        ParseStats {
            lines_read: 4,
            assistant_lines: 2,
            skipped_lines: 2,
            malformed_lines: 0,
            invalid_assistant_lines: 0,
        }
    );
    assert_eq!(parsed.messages.len(), 4);
    assert_eq!(parsed.messages[0].role, MessageRole::User);
    assert_eq!(parsed.messages[0].request_id, None);
    assert_eq!(parsed.messages[1].request_id.as_deref(), Some("req_a"));
    assert_eq!(parsed.messages[3].parent_uuid.as_deref(), Some("a2"));
    assert_eq!(parsed.messages[3].tool_use_result.as_deref(), Some(r#"{"ok":true}"#));
    assert_eq!(parsed.messages[0].content, r#"[{"type":"text","text":"hi"}]"#);
    assert_eq!(parsed.bytes_consumed, content().len() as u64);
}

#[test]
fn last_streamed_assistant_turn_wins_and_user_turns_pass_through() {
    let parsed = parse(&content());
    let collapsed = collapse_messages(&parsed.messages);
    assert_eq!(collapsed.len(), 3);
    assert_eq!(collapsed[0].uuid, "u1");
    assert_eq!(collapsed[1].uuid, "a2");
    assert!(collapsed[1].content.contains("part and more"));
    assert_eq!(collapsed[2].uuid, "u2");
}

#[test]
fn last_line_with_usage_wins_per_request() {
    let lines = vec![
        usage(Some("r1"), 1, "m", 1, 1),
        usage(Some("r2"), 2, "m", 5, 0),
        usage(Some("r1"), 3, "m", 1, 7),
        usage(Some("r1"), 4, "m", 0, 0),
        usage(None, 5, "m", 9, 9),
        usage(Some("r3"), 6, "<synthetic>", 0, 0),
    ];
    let collapsed = collapse_requests(&lines);
    assert_eq!(collapsed.len(), 2);
    assert_eq!(collapsed[0].request_id.as_deref(), Some("r1"));
    assert_eq!(collapsed[0].timestamp_ms, 3);
    assert_eq!(collapsed[1].request_id.as_deref(), Some("r2"));
}

#[test]
fn incremental_parse_from_consumed_offset_sees_only_new_lines() {
    let first = parse(&content());
    let extra = jsonl(&[
        r#"{"type":"user","uuid":"u3","sessionId":"sx","timestamp":"2026-06-11T15:00:04.000Z","message":{"role":"user","content":[]}}"#,
    ]);
    let full = format!("{}{extra}", content());
    let rest = &full.as_bytes()[first.bytes_consumed as usize..];
    let incremental = parse_reader(rest);
    assert_eq!(incremental.messages.len(), 1);
    assert_eq!(incremental.messages[0].uuid, "u3");
    assert_eq!(incremental.stats.lines_read, 1);
}

#[test]
fn one_parsed_line_gives_its_usage_and_message() {
    let line = usage_tracker::codec::parse_json_str(
        r#"{"type":"assistant","uuid":"a1","parentUuid":"u1","requestId":"req_a","sessionId":"sx","cwd":"/p","timestamp":"2026-06-11T15:00:01.000Z","message":{"model":"model-x","content":[{"type":"text","text":"hi"}],"usage":{"input_tokens":3,"output_tokens":1,"cache_read_input_tokens":5,"cache_creation_input_tokens":7}}}"#,
    )
    .unwrap();
    let u = parse_assistant(&line).expect("usage");
    assert_eq!(u.request_id.as_deref(), Some("req_a"));
    assert_eq!(u.session_id, "sx");
    assert_eq!(u.cwd.as_deref(), Some("/p"));
    assert_eq!(u.model.as_deref(), Some("model-x"));
    assert_eq!(u.timestamp_ms, rfc3339_utc_to_ms("2026-06-11T15:00:01.000Z").unwrap());
    assert_eq!((u.input_tokens, u.output_tokens, u.cache_read_tokens, u.cache_creation_tokens), (3, 1, 5, 7));
    let m = parse_message(&line, MessageRole::Assistant).expect("message");
    assert_eq!(m.uuid, "a1");
    assert_eq!(m.parent_uuid.as_deref(), Some("u1"));
    assert_eq!(m.request_id.as_deref(), Some("req_a"));
    assert_eq!(m.content, r#"[{"type":"text","text":"hi"}]"#);
    let no_session = usage_tracker::codec::parse_json_str(r#"{"type":"assistant","timestamp":"2026-06-11T15:00:01.000Z","message":{"usage":{}}}"#).unwrap();
    assert!(parse_assistant(&no_session).is_none());
}

fn main_session() -> String {
    jsonl(&[
        r#"{"type":"user","uuid":"u0","sessionId":"5e6aa3df-f340-46ad-8c40-d613f7073b97","timestamp":"2026-06-11T14:50:00.000Z","cwd":"/Users/dev/Projects/acme/app","message":{"role":"user","content":"go"}}"#,
        r#"{"type":"last-prompt","sessionId":"5e6aa3df-f340-46ad-8c40-d613f7073b97","n":0}"#,
        r#"{"type":"mode","sessionId":"5e6aa3df-f340-46ad-8c40-d613f7073b97","n":1}"#,
        r#"{"type":"permission-mode","sessionId":"5e6aa3df-f340-46ad-8c40-d613f7073b97","n":2}"#,
        r#"{"type":"attachment","sessionId":"5e6aa3df-f340-46ad-8c40-d613f7073b97","n":3}"#,
        r#"{"type":"summary","sessionId":"5e6aa3df-f340-46ad-8c40-d613f7073b97","n":4}"#,
        r#"{"type":"file-history-snapshot","sessionId":"5e6aa3df-f340-46ad-8c40-d613f7073b97","n":5}"#,
        r#"{"type":"system","sessionId":"5e6aa3df-f340-46ad-8c40-d613f7073b97","n":6}"#,
        r#"{"type":"last-prompt","sessionId":"5e6aa3df-f340-46ad-8c40-d613f7073b97","n":7}"#,
        r#"{"type":"mode","sessionId":"5e6aa3df-f340-46ad-8c40-d613f7073b97","n":8}"#,
        r#"{"type":"assistant","requestId":"req_011Cbwf9sGnBjoiZz25k4EK8","sessionId":"5e6aa3df-f340-46ad-8c40-d613f7073b97","timestamp":"2026-06-11T14:50:03.944Z","cwd":"/Users/dev/Projects/acme/app","isSidechain":false,"message":{"model":"fable-5","role":"assistant","content":[{"type":"text","text":"ok"}],"usage":{"input_tokens":17045,"output_tokens":94,"cache_read_input_tokens":23661,"cache_creation_input_tokens":31356,"cache_creation":{"ephemeral_5m_input_tokens":0,"ephemeral_1h_input_tokens":31356}}}}"#,
        r#"{"type":"assistant","requestId":"req_011Cbwf9sGnBjoiZz25k4EK8","sessionId":"5e6aa3df-f340-46ad-8c40-d613f7073b97","timestamp":"2026-06-11T14:50:04.478Z","cwd":"/Users/dev/Projects/acme/app","isSidechain":false,"message":{"model":"fable-5","role":"assistant","content":[{"type":"text","text":"ok"}],"usage":{"input_tokens":17045,"output_tokens":94,"cache_read_input_tokens":23661,"cache_creation_input_tokens":31356,"cache_creation":{"ephemeral_5m_input_tokens":0,"ephemeral_1h_input_tokens":31356}}}}"#,
        r#"{"type":"permission-mode","sessionId":"5e6aa3df-f340-46ad-8c40-d613f7073b97","n":9}"#,
        r#"{"type":"attachment","sessionId":"5e6aa3df-f340-46ad-8c40-d613f7073b97","n":10}"#,
        r#"{"type":"summary","sessionId":"5e6aa3df-f340-46ad-8c40-d613f7073b97","n":11}"#,
        r#"{"type":"file-history-snapshot","sessionId":"5e6aa3df-f340-46ad-8c40-d613f7073b97","n":12}"#,
        r#"{"type":"user","uuid":"u1","sessionId":"5e6aa3df-f340-46ad-8c40-d613f7073b97","timestamp":"2026-06-11T14:50:01.000Z","cwd":"/Users/dev/Projects/acme/app","message":{"role":"user","content":"go"}}"#,
        r#"{"type":"assistant","requestId":"req_011CbwfAFuopq3NdmbdDHmd2","sessionId":"5e6aa3df-f340-46ad-8c40-d613f7073b97","timestamp":"2026-06-11T14:50:08.100Z","cwd":"/Users/dev/Projects/acme/app","isSidechain":false,"message":{"model":"fable-5","role":"assistant","content":[{"type":"text","text":"ok"}],"usage":{"input_tokens":2,"output_tokens":8,"cache_read_input_tokens":55017,"cache_creation_input_tokens":24494,"cache_creation":{"ephemeral_5m_input_tokens":0,"ephemeral_1h_input_tokens":24494}}}}"#,
        r#"{"type":"assistant","requestId":"req_011CbwfAFuopq3NdmbdDHmd2","sessionId":"5e6aa3df-f340-46ad-8c40-d613f7073b97","timestamp":"2026-06-11T14:50:09.200Z","cwd":"/Users/dev/Projects/acme/app","isSidechain":false,"message":{"model":"fable-5","role":"assistant","content":[{"type":"text","text":"ok"}],"usage":{"input_tokens":2,"output_tokens":40,"cache_read_input_tokens":55017,"cache_creation_input_tokens":24494,"cache_creation":{"ephemeral_5m_input_tokens":0,"ephemeral_1h_input_tokens":24494}}}}"#,
        r#"{"type":"assistant","requestId":"req_011CbwfAFuopq3NdmbdDHmd2","sessionId":"5e6aa3df-f340-46ad-8c40-d613f7073b97","timestamp":"2026-06-11T14:50:11.300Z","cwd":"/Users/dev/Projects/acme/app","isSidechain":false,"message":{"model":"fable-5","role":"assistant","content":[{"type":"text","text":"ok"}],"usage":{"input_tokens":2,"output_tokens":200,"cache_read_input_tokens":55017,"cache_creation_input_tokens":24494,"cache_creation":{"ephemeral_5m_input_tokens":0,"ephemeral_1h_input_tokens":24494}}}}"#,
        r#"{"type":"assistant","requestId":"req_011CbwfAFuopq3NdmbdDHmd2","sessionId":"5e6aa3df-f340-46ad-8c40-d613f7073b97","timestamp":"2026-06-11T14:50:13.164Z","cwd":"/Users/dev/Projects/acme/app","isSidechain":false,"message":{"model":"fable-5","role":"assistant","content":[{"type":"text","text":"ok"}],"usage":{"input_tokens":2,"output_tokens":453,"cache_read_input_tokens":55017,"cache_creation_input_tokens":24494,"cache_creation":{"ephemeral_5m_input_tokens":0,"ephemeral_1h_input_tokens":24494}}}}"#,
        r#"{"type":"system","sessionId":"5e6aa3df-f340-46ad-8c40-d613f7073b97","n":13}"#,
        r#"{"type":"last-prompt","sessionId":"5e6aa3df-f340-46ad-8c40-d613f7073b97","n":14}"#,
        r#"{"type":"mode","sessionId":"5e6aa3df-f340-46ad-8c40-d613f7073b97","n":15}"#,
        r#"{"type":"permission-mode","sessionId":"5e6aa3df-f340-46ad-8c40-d613f7073b97","n":16}"#,
    ])
}

fn sidechain() -> String {
    jsonl(&[
        r#"{"type":"assistant","requestId":"req_011CbVNWaunYPpxFNfHsJjRh","sessionId":"sess-side","timestamp":"2026-05-28T17:36:18.000Z","cwd":"/Users/dev/Projects/project2","isSidechain":true,"message":{"model":"haiku-4-5-20251001","role":"assistant","content":[{"type":"text","text":"ok"}],"usage":{"input_tokens":10,"output_tokens":3,"cache_read_input_tokens":0,"cache_creation_input_tokens":80985,"cache_creation":{"ephemeral_5m_input_tokens":80985,"ephemeral_1h_input_tokens":0}}}}"#,
        r#"{"type":"assistant","requestId":"req_011CbVNWaunYPpxFNfHsJjRh","sessionId":"sess-side","timestamp":"2026-05-28T17:36:20.096Z","cwd":"/Users/dev/Projects/project2","isSidechain":true,"message":{"model":"haiku-4-5-20251001","role":"assistant","content":[{"type":"text","text":"ok"}],"usage":{"input_tokens":10,"output_tokens":136,"cache_read_input_tokens":0,"cache_creation_input_tokens":80985,"cache_creation":{"ephemeral_5m_input_tokens":80985,"ephemeral_1h_input_tokens":0}}}}"#,
        r#"{"type":"assistant","requestId":"req_side_second","sessionId":"sess-side","timestamp":"2026-05-28T17:36:25.000Z","cwd":"/Users/dev/Projects/project2","isSidechain":true,"message":{"model":"haiku-4-5-20251001","role":"assistant","content":[{"type":"text","text":"ok"}],"usage":{"input_tokens":4,"output_tokens":12,"cache_read_input_tokens":80985,"cache_creation_input_tokens":0,"cache_creation":{"ephemeral_5m_input_tokens":0,"ephemeral_1h_input_tokens":0}}}}"#,
        r#"{"type":"assistant","requestId":"req_side_second","sessionId":"sess-side","timestamp":"2026-05-28T17:36:26.000Z","cwd":"/Users/dev/Projects/project2","isSidechain":true,"message":{"model":"haiku-4-5-20251001","role":"assistant","content":[{"type":"text","text":"ok"}],"usage":{"input_tokens":4,"output_tokens":30,"cache_read_input_tokens":80985,"cache_creation_input_tokens":0,"cache_creation":{"ephemeral_5m_input_tokens":0,"ephemeral_1h_input_tokens":0}}}}"#,
    ])
}

fn edge_cases() -> String {
    jsonl(&[
        r#"{"type":"assistant","requestId":"req_011CbqsNS9RVtSnLhZqXW4md","sessionId":"sess-edge","timestamp":"2026-06-08T13:26:40.000Z","isSidechain":false,"message":{"model":"fable-5","role":"assistant","content":[{"type":"text","text":"ok"}],"usage":{"input_tokens":3,"output_tokens":5,"cache_read_input_tokens":1000,"cache_creation_input_tokens":500,"cache_creation":{"ephemeral_5m_input_tokens":500,"ephemeral_1h_input_tokens":0}}}}"#,
        r#"{"type":"assistant","requestId":"req_011CbqsNS9RVtSnLhZqXW4md","sessionId":"sess-edge","timestamp":"2026-06-08T13:26:42.500Z","isSidechain":false,"message":{"model":"fable-5","role":"assistant","content":[{"type":"text","text":"ok"}],"usage":{"input_tokens":3,"output_tokens":40,"cache_read_input_tokens":1000,"cache_creation_input_tokens":500,"cache_creation":{"ephemeral_5m_input_tokens":500,"ephemeral_1h_input_tokens":0}}}}"#,
        r#"{"type":"assistant","sessionId":"sess-edge","timestamp":"2026-06-08T13:26:44.0"#,
        r#"{"type":"assistant","requestId":"req_011CbqsNS9RVtSnLhZqXW4md","sessionId":"sess-edge","timestamp":"2026-06-08T13:26:45.000Z","isSidechain":false,"message":{"model":"fable-5","role":"assistant","content":[{"type":"text","text":"ok"}],"usage":{"input_tokens":3,"output_tokens":180,"cache_read_input_tokens":1000,"cache_creation_input_tokens":500,"cache_creation":{"ephemeral_5m_input_tokens":500,"ephemeral_1h_input_tokens":0}}}}"#,
        r#"{"type":"quantum-checkpoint","sessionId":"sess-edge"}"#,
        r#"{"type":"assistant","requestId":"req_011CbqsNS9RVtSnLhZqXW4md","sessionId":"sess-edge","timestamp":"2026-06-08T13:26:47.000Z","isSidechain":false,"message":{"model":"fable-5","role":"assistant","content":[{"type":"text","text":"ok"}],"usage":{"input_tokens":3,"output_tokens":400,"cache_read_input_tokens":1000,"cache_creation_input_tokens":500,"cache_creation":{"ephemeral_5m_input_tokens":500,"ephemeral_1h_input_tokens":0}}}}"#,
        r#"{"type":"assistant","requestId":"req_011CbqsNS9RVtSnLhZqXW4md","sessionId":"sess-edge","timestamp":"2026-06-08T13:26:49.000Z","isSidechain":false,"message":{"model":"fable-5","role":"assistant","content":[{"type":"text","text":"ok"}],"usage":{"input_tokens":3,"output_tokens":800,"cache_read_input_tokens":1000,"cache_creation_input_tokens":500,"cache_creation":{"ephemeral_5m_input_tokens":500,"ephemeral_1h_input_tokens":0}}}}"#,
        r#"{"type":"assistant","requestId":"req_011CbqsNS9RVtSnLhZqXW4md","sessionId":"sess-edge","timestamp":"2026-06-08T13:26:50.968Z","isSidechain":false,"message":{"model":"fable-5","role":"assistant","content":[{"type":"text","text":"ok"}],"usage":{"input_tokens":3,"output_tokens":1004,"cache_read_input_tokens":1000,"cache_creation_input_tokens":500,"cache_creation":{"ephemeral_5m_input_tokens":500,"ephemeral_1h_input_tokens":0}}}}"#,
        r#"{"type":"assistant","requestId":"req_011CbrD4NZCKqdjx3AeJ9KbQ","sessionId":"sess-edge","timestamp":"2026-06-08T17:46:20.000Z","isSidechain":false,"message":{"model":"fable-5","role":"assistant","content":[{"type":"text","text":"ok"}],"usage":{"input_tokens":4,"output_tokens":2,"cache_read_input_tokens":0,"cache_creation_input_tokens":370530,"cache_creation":{"ephemeral_5m_input_tokens":0,"ephemeral_1h_input_tokens":370530}}}}"#,
        r#"{"type":"assistant","requestId":"req_011CbrD4NZCKqdjx3AeJ9KbQ","sessionId":"sess-edge","timestamp":"2026-06-08T17:46:21.834Z","isSidechain":false,"message":{"model":"fable-5","role":"assistant","content":[{"type":"text","text":"ok"}],"usage":{"input_tokens":4,"output_tokens":6,"cache_read_input_tokens":0,"cache_creation_input_tokens":370530,"cache_creation":{"ephemeral_5m_input_tokens":0,"ephemeral_1h_input_tokens":370530}}}}"#,
        r#"{"type":"assistant","requestId":"req_011CbrD4NZCKqdjx3AeJ9KbQ","sessionId":"sess-edge","timestamp":"2026-06-08T17:46:22.000Z","isSidechain":false,"message":{"model":"<synthetic>","role":"assistant","content":[{"type":"text","text":"ok"}],"usage":{"input_tokens":0,"output_tokens":0,"cache_read_input_tokens":0,"cache_creation_input_tokens":0}}}"#,
        r#"{"type":"assistant","sessionId":"sess-edge","timestamp":"2026-06-08T17:46:23.000Z","isSidechain":false,"message":{"model":"<synthetic>","role":"assistant","content":[{"type":"text","text":"ok"}],"usage":{"input_tokens":0,"output_tokens":0,"cache_read_input_tokens":0,"cache_creation_input_tokens":0}}}"#,
    ])
}


fn content_blocks() -> String {
    jsonl(&[
        r#"{"type":"user","uuid":"uuid-u1","sessionId":"sess-content","timestamp":"2026-06-11T15:00:00.000Z","isSidechain":false,"message":{"role":"user","content":[{"type":"text","text":"What files are here?"}]}}"#,
        r#"{"type":"assistant","uuid":"uuid-a1-stream1","parentUuid":"uuid-u1","requestId":"req_content_001","sessionId":"sess-content","timestamp":"2026-06-11T15:00:01.000Z","isSidechain":false,"message":{"model":"fable-5","role":"assistant","content":[{"type":"thinking","thinking":"list"}],"usage":{"input_tokens":10,"output_tokens":2}}}"#,
        r#"{"type":"assistant","uuid":"uuid-a1-stream2","parentUuid":"uuid-a1-stream1","requestId":"req_content_001","sessionId":"sess-content","timestamp":"2026-06-11T15:00:02.000Z","isSidechain":false,"message":{"model":"fable-5","role":"assistant","content":[{"type":"thinking","thinking":"list"},{"type":"text","text":"I'll list them."},{"type":"tool_use","id":"tu1","name":"Bash","input":{"command":"ls"}}],"usage":{"input_tokens":10,"output_tokens":25}}}"#,
        r#"{"type":"user","uuid":"uuid-u2","parentUuid":"uuid-a1-stream2","sessionId":"sess-content","timestamp":"2026-06-11T15:00:03.000Z","isSidechain":false,"toolUseResult":{"stdout":"a.txt"},"message":{"role":"user","content":[{"type":"tool_result","tool_use_id":"tu1","content":"a.txt"}]}}"#,
    ])
}

#[test]
fn main_session_extracts_every_assistant_field() {
    let input = main_session();
    let parsed = parse(&input);
    assert_eq!(
        parsed.stats,
        ParseStats {
            lines_read: 25,
            assistant_lines: 6,
            skipped_lines: 19,
            malformed_lines: 0,
            invalid_assistant_lines: 0,
        }
    );
    assert_eq!(parsed.bytes_consumed, input.len() as u64);
    assert_eq!(
        parsed.lines[0],
        AssistantUsage {
            request_id: Some("req_011Cbwf9sGnBjoiZz25k4EK8".into()),
            session_id: "5e6aa3df-f340-46ad-8c40-d613f7073b97".into(),
            timestamp_ms: 1_781_189_403_944,
            model: Some("fable-5".into()),
            cwd: Some("/Users/dev/Projects/acme/app".into()),
            is_sidechain: false,
            input_tokens: 17_045,
            output_tokens: 94,
            cache_read_tokens: 23_661,
            cache_creation_tokens: 31_356,
            cache_creation_5m_tokens: Some(0),
            cache_creation_1h_tokens: Some(31_356),
        }
    );
}

#[test]
fn main_session_collapses_streaming_groups_to_one_row_per_request() {
    let parsed = parse(&main_session());
    let requests = collapse_requests(&parsed.lines);
    assert_eq!(requests.len(), 2);
    assert_eq!(requests[0].request_id.as_deref(), Some("req_011Cbwf9sGnBjoiZz25k4EK8"));
    assert_eq!(requests[0].timestamp_ms, 1_781_189_404_478);
    assert_eq!(requests[0].output_tokens, 94);
    assert_eq!(requests[1].request_id.as_deref(), Some("req_011CbwfAFuopq3NdmbdDHmd2"));
    assert_eq!(requests[1].timestamp_ms, 1_781_189_413_164);
    assert_eq!(requests[1].output_tokens, 453);
    assert_eq!(requests[1].input_tokens, 2);
    assert_eq!(requests[1].cache_read_tokens, 55_017);
    assert_eq!(requests[1].cache_creation_tokens, 24_494);
    assert_eq!(requests[1].cache_creation_1h_tokens, Some(24_494));
}

#[test]
fn sidechain_lines_carry_is_sidechain_and_the_5m_split() {
    let parsed = parse(&sidechain());
    assert_eq!(parsed.stats.assistant_lines, 4);
    assert!(parsed.lines.iter().all(|l| l.is_sidechain));
    let requests = collapse_requests(&parsed.lines);
    assert_eq!(requests.len(), 2);
    assert_eq!(requests[0].request_id.as_deref(), Some("req_011CbVNWaunYPpxFNfHsJjRh"));
    assert_eq!(requests[0].timestamp_ms, 1_779_989_780_096);
    assert_eq!(requests[0].output_tokens, 136);
    assert_eq!(requests[0].cache_creation_tokens, 80_985);
    assert_eq!(requests[0].cache_creation_5m_tokens, Some(80_985));
    assert_eq!(requests[0].cache_creation_1h_tokens, Some(0));
    assert_eq!(requests[0].model.as_deref(), Some("haiku-4-5-20251001"));
    assert_eq!(requests[0].cwd.as_deref(), Some("/Users/dev/Projects/project2"));
}

#[test]
fn edge_cases_malformed_synthetic_and_unknown_lines_are_tolerated() {
    let parsed = parse(&edge_cases());
    assert_eq!(
        parsed.stats,
        ParseStats {
            lines_read: 12,
            assistant_lines: 10,
            skipped_lines: 1,
            malformed_lines: 1,
            invalid_assistant_lines: 0,
        }
    );
    let requests = collapse_requests(&parsed.lines);
    assert_eq!(requests.len(), 2);
    assert_eq!(requests[0].request_id.as_deref(), Some("req_011CbqsNS9RVtSnLhZqXW4md"));
    assert_eq!(requests[0].output_tokens, 1004);
    assert_eq!(requests[0].timestamp_ms, 1_780_925_210_968);
    assert_eq!(requests[1].request_id.as_deref(), Some("req_011CbrD4NZCKqdjx3AeJ9KbQ"));
    assert_eq!(requests[1].output_tokens, 6);
    assert_eq!(requests[1].timestamp_ms, 1_780_940_781_834);
    assert_eq!(requests[1].cache_creation_tokens, 370_530);
    assert!(parsed.lines.iter().any(|l| l.request_id.is_none() && !l.has_usage()));
}

#[test]
fn content_blocks_extracts_messages_without_touching_stats() {
    let parsed = parse(&content_blocks());
    assert_eq!(
        parsed.stats,
        ParseStats {
            lines_read: 4,
            assistant_lines: 2,
            skipped_lines: 2,
            malformed_lines: 0,
            invalid_assistant_lines: 0,
        }
    );
    assert_eq!(parsed.messages.len(), 4);
    let u1 = &parsed.messages[0];
    assert_eq!(u1.role, MessageRole::User);
    assert_eq!(u1.uuid, "uuid-u1");
    assert_eq!(u1.parent_uuid, None);
    assert_eq!(u1.request_id, None);
    assert_eq!(u1.session_id, "sess-content");
    assert_eq!(parsed.messages[1].role, MessageRole::Assistant);
    assert_eq!(parsed.messages[1].request_id.as_deref(), Some("req_content_001"));
    assert_eq!(parsed.messages[2].role, MessageRole::Assistant);
    assert_eq!(parsed.messages[2].request_id.as_deref(), Some("req_content_001"));
    let u2 = &parsed.messages[3];
    assert_eq!(u2.role, MessageRole::User);
    assert_eq!(u2.uuid, "uuid-u2");
    assert_eq!(u2.parent_uuid.as_deref(), Some("uuid-a1-stream2"));
}

#[test]
fn collapse_messages_last_streaming_line_wins() {
    let parsed = parse(&content_blocks());
    let collapsed = collapse_messages(&parsed.messages);
    assert_eq!(collapsed.len(), 3);
    assert_eq!(collapsed[0].uuid, "uuid-u1");
    assert_eq!(collapsed[0].role, MessageRole::User);
    assert_eq!(collapsed[1].uuid, "uuid-a1-stream2");
    assert_eq!(collapsed[1].role, MessageRole::Assistant);
    assert!(
        collapsed[1].content.contains("I'll list them."),
        "collapsed assistant content should contain the fuller stream2 text"
    );
    assert_eq!(collapsed[2].uuid, "uuid-u2");
    assert_eq!(collapsed[2].role, MessageRole::User);
}

#[test]
fn every_line_read_is_counted_once_and_each_usage_is_an_assistant_line() {
    let input = edge_cases();
    let parsed = parse(&input);
    let s = &parsed.stats;
    assert_eq!(s.lines_read as usize, input.matches('\n').count());
    assert_eq!(s.lines_read, s.assistant_lines + s.skipped_lines + s.malformed_lines + s.invalid_assistant_lines);
    assert_eq!(parsed.lines.len() as u64, s.assistant_lines);
}

#[test]
fn a_collapsed_turn_stands_at_its_first_occurrence() {
    let parsed = parse(&content_blocks());
    let collapsed = collapse_messages(&parsed.messages);
    // Everything before the first chunk of req_content_001 collapses to one
    // entry, so the request's turn stands at index 1.
    assert_eq!(collapse_messages(&parsed.messages[..1]).len(), 1);
    assert_eq!(collapsed[1].request_id.as_deref(), Some("req_content_001"));
}
