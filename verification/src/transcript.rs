//! Transcript JSONL parsing: `assistant` lines become usage records,
//! `user`/`assistant` lines become conversation turns, and streaming line
//! groups collapse to one entry per API request.
//!
//! Parsing never fails a file: non-JSON lines are counted as malformed,
//! `assistant` lines missing `sessionId`, a parseable `timestamp` or a
//! `message.usage` object are counted as invalid, other line types are
//! skipped, and a trailing line without `\n` is left for the next pass.
use vstd::prelude::*;
use vstd::string::StringSliceAdditionalSpecFns;
use crate::json::{Json, JsonV};
use crate::codec::{json_from_slice, json_to_string, parse_json_slice, render_compact};
use vstd::string::StringExecFns;
use crate::numparse::{parse_i64, parse_i64_spec};
use crate::timestamp::{rfc3339_utc_to_ms, spec_rfc3339_ms, first_index};
use crate::text::{utf8, str_eq, opt_chars};
use crate::numparse::{slice_from, slice_range};
use crate::timestamp::find_byte;

verus! {

/// The model name of transcript-only placeholder lines.
pub const SYNTHETIC_MODEL: &'static str = "<synthetic>";

/// Role of a message turn in the conversation.
#[derive(Debug, Clone, Copy, PartialEq, Eq, Structural)]
pub enum MessageRole {
    User,
    Assistant,
}

/// Usage extracted from one `assistant` transcript line.
#[derive(Debug, Clone, PartialEq, Eq)]
pub struct AssistantUsage {
    /// `requestId`, the dedup key; `None` only on synthetic lines.
    pub request_id: Option<String>,
    pub session_id: String,
    /// Line `timestamp` in unix milliseconds.
    pub timestamp_ms: i64,
    pub model: Option<String>,
    /// Project path the session ran in.
    pub cwd: Option<String>,
    /// `true` on subagent (sidechain) lines.
    pub is_sidechain: bool,
    pub input_tokens: i64,
    pub output_tokens: i64,
    pub cache_read_tokens: i64,
    pub cache_creation_tokens: i64,
    /// `usage.cache_creation.ephemeral_5m_input_tokens`; `None` when the
    /// split object is absent.
    pub cache_creation_5m_tokens: Option<i64>,
    /// `usage.cache_creation.ephemeral_1h_input_tokens`.
    pub cache_creation_1h_tokens: Option<i64>,
}

/// The value of an [`AssistantUsage`].
pub struct AssistantUsageV {
    pub request_id: Option<Seq<char>>,
    pub session_id: Seq<char>,
    pub timestamp_ms: int,
    pub model: Option<Seq<char>>,
    pub cwd: Option<Seq<char>>,
    pub is_sidechain: bool,
    pub input_tokens: int,
    pub output_tokens: int,
    pub cache_read_tokens: int,
    pub cache_creation_tokens: int,
    pub cache_creation_5m_tokens: Option<int>,
    pub cache_creation_1h_tokens: Option<int>,
}

pub open spec fn opt_str(o: Option<String>) -> Option<Seq<char>> {
    match o {
        Some(s) => Some(s@),
        None => None,
    }
}

pub open spec fn opt_int(o: Option<i64>) -> Option<int> {
    match o {
        Some(v) => Some(v as int),
        None => None,
    }
}

impl View for AssistantUsage {
    type V = AssistantUsageV;

    open spec fn view(&self) -> AssistantUsageV {
        AssistantUsageV {
            request_id: opt_str(self.request_id),
            session_id: self.session_id@,
            timestamp_ms: self.timestamp_ms as int,
            model: opt_str(self.model),
            cwd: opt_str(self.cwd),
            is_sidechain: self.is_sidechain,
            input_tokens: self.input_tokens as int,
            output_tokens: self.output_tokens as int,
            cache_read_tokens: self.cache_read_tokens as int,
            cache_creation_tokens: self.cache_creation_tokens as int,
            cache_creation_5m_tokens: opt_int(self.cache_creation_5m_tokens),
            cache_creation_1h_tokens: opt_int(self.cache_creation_1h_tokens),
        }
    }
}

impl AssistantUsageV {
    pub open spec fn has_usage(self) -> bool {
        self.input_tokens != 0 || self.output_tokens != 0 || self.cache_read_tokens != 0
            || self.cache_creation_tokens != 0
    }

    pub open spec fn is_synthetic(self) -> bool {
        self.model == Some(SYNTHETIC_MODEL@)
    }
}

fn clone_opt_string(o: &Option<String>) -> (r: Option<String>)
    ensures
        opt_str(r) == opt_str(*o),
{
    match o {
        Some(s) => Some(s.clone()),
        None => None,
    }
}

impl AssistantUsage {
    /// Whether the line reports any token traffic at all.
    pub fn has_usage(&self) -> (r: bool)
        ensures
            r == self@.has_usage(),
    {
        self.input_tokens != 0 || self.output_tokens != 0 || self.cache_read_tokens != 0
            || self.cache_creation_tokens != 0
    }

    /// Whether the line is a transcript-only placeholder (`<synthetic>`).
    pub fn is_synthetic(&self) -> (r: bool)
        ensures
            r == self@.is_synthetic(),
    {
        match &self.model {
            Some(m) => str_eq(m.as_str(), SYNTHETIC_MODEL),
            None => false,
        }
    }

    /// A copy with the same value.
    pub fn duplicate(&self) -> (r: AssistantUsage)
        ensures
            r@ == self@,
    {
        AssistantUsage {
            request_id: clone_opt_string(&self.request_id),
            session_id: self.session_id.clone(),
            timestamp_ms: self.timestamp_ms,
            model: clone_opt_string(&self.model),
            cwd: clone_opt_string(&self.cwd),
            is_sidechain: self.is_sidechain,
            input_tokens: self.input_tokens,
            output_tokens: self.output_tokens,
            cache_read_tokens: self.cache_read_tokens,
            cache_creation_tokens: self.cache_creation_tokens,
            cache_creation_5m_tokens: self.cache_creation_5m_tokens,
            cache_creation_1h_tokens: self.cache_creation_1h_tokens,
        }
    }
}

/// A single conversation turn extracted from a transcript line.
#[derive(Debug, Clone, PartialEq, Eq)]
pub struct TranscriptMessage {
    pub uuid: String,
    pub parent_uuid: Option<String>,
    /// Present on `assistant` lines only (`requestId`).
    pub request_id: Option<String>,
    pub session_id: String,
    pub role: MessageRole,
    /// Line `timestamp` in unix milliseconds.
    pub timestamp_ms: i64,
    pub is_sidechain: bool,
    /// `message.content` re-serialized to JSON (always a JSON array).
    pub content: String,
    /// `toolUseResult` re-serialized to JSON; `None` when absent or null.
    pub tool_use_result: Option<String>,
}

/// The value of a [`TranscriptMessage`].
pub struct TranscriptMessageV {
    pub uuid: Seq<char>,
    pub parent_uuid: Option<Seq<char>>,
    pub request_id: Option<Seq<char>>,
    pub session_id: Seq<char>,
    pub role: MessageRole,
    pub timestamp_ms: int,
    pub is_sidechain: bool,
    pub content: Seq<char>,
    pub tool_use_result: Option<Seq<char>>,
}

impl View for TranscriptMessage {
    type V = TranscriptMessageV;

    open spec fn view(&self) -> TranscriptMessageV {
        TranscriptMessageV {
            uuid: self.uuid@,
            parent_uuid: opt_str(self.parent_uuid),
            request_id: opt_str(self.request_id),
            session_id: self.session_id@,
            role: self.role,
            timestamp_ms: self.timestamp_ms as int,
            is_sidechain: self.is_sidechain,
            content: self.content@,
            tool_use_result: opt_str(self.tool_use_result),
        }
    }
}

impl TranscriptMessage {
    /// A copy with the same value.
    pub fn duplicate(&self) -> (r: TranscriptMessage)
        ensures
            r@ == self@,
    {
        TranscriptMessage {
            uuid: self.uuid.clone(),
            parent_uuid: clone_opt_string(&self.parent_uuid),
            request_id: clone_opt_string(&self.request_id),
            session_id: self.session_id.clone(),
            role: self.role,
            timestamp_ms: self.timestamp_ms,
            is_sidechain: self.is_sidechain,
            content: self.content.clone(),
            tool_use_result: clone_opt_string(&self.tool_use_result),
        }
    }
}


/// A string member of an object: `v.get(key).and_then(Value::as_str)`.
pub open spec fn str_field(v: JsonV, key: Seq<char>) -> Option<Seq<char>> {
    match v.get(key) {
        Some(x) => x.as_str(),
        None => None,
    }
}

/// A boolean member, `false` when absent or not a boolean.
pub open spec fn bool_field(v: JsonV, key: Seq<char>) -> bool {
    match v.get(key) {
        Some(x) => match x.as_bool() {
            Some(b) => b,
            None => false,
        },
        None => false,
    }
}

/// An `i64` written either as a JSON number or as a numeric string.
pub open spec fn value_i64_spec(v: JsonV) -> Option<int> {
    match v {
        JsonV::Number(_) => v.as_i64(),
        JsonV::Str(s) => parse_i64_spec(utf8(s)),
        _ => None,
    }
}

/// A token count of the `usage` object: absent or unreadable counts are 0.
pub open spec fn usage_count(usage: JsonV, key: Seq<char>) -> int {
    match usage.get(key) {
        Some(x) => match value_i64_spec(x) {
            Some(n) => n,
            None => 0,
        },
        None => 0,
    }
}

/// A count of the `usage.cache_creation` split; `None` when the split is
/// not an object or lacks the count.
pub open spec fn split_count(usage: JsonV, key: Seq<char>) -> Option<int> {
    match usage.get("cache_creation"@) {
        Some(split) => if split is Object {
            match split.get(key) {
                Some(x) => value_i64_spec(x),
                None => None,
            }
        } else {
            None
        },
        None => None,
    }
}

/// The line timestamp in milliseconds, when present and well formed.
pub open spec fn line_timestamp(v: JsonV) -> Option<int> {
    match str_field(v, "timestamp"@) {
        Some(t) => spec_rfc3339_ms(utf8(t)),
        None => None,
    }
}

/// The usage record of an `assistant` line: `None` unless it has a string
/// `sessionId`, a well-formed `timestamp` and an object `message.usage`.
pub open spec fn spec_parse_assistant(line: JsonV) -> Option<AssistantUsageV> {
    match (str_field(line, "sessionId"@), line_timestamp(line), line.get("message"@)) {
        (Some(session_id), Some(timestamp_ms), Some(message)) => match message.get("usage"@) {
            Some(usage) => if usage is Object {
                Some(AssistantUsageV {
                    request_id: str_field(line, "requestId"@),
                    session_id,
                    timestamp_ms,
                    model: str_field(message, "model"@),
                    cwd: str_field(line, "cwd"@),
                    is_sidechain: bool_field(line, "isSidechain"@),
                    input_tokens: usage_count(usage, "input_tokens"@),
                    output_tokens: usage_count(usage, "output_tokens"@),
                    cache_read_tokens: usage_count(usage, "cache_read_input_tokens"@),
                    cache_creation_tokens: usage_count(usage, "cache_creation_input_tokens"@),
                    cache_creation_5m_tokens: split_count(usage, "ephemeral_5m_input_tokens"@),
                    cache_creation_1h_tokens: split_count(usage, "ephemeral_1h_input_tokens"@),
                })
            } else {
                None
            },
            None => None,
        },
        _ => None,
    }
}

/// `toolUseResult` rendered compactly, unless absent or `null`.
pub open spec fn tool_result_text(v: JsonV) -> Option<Seq<char>> {
    match v.get("toolUseResult"@) {
        Some(x) => if x is Null { None } else { Some(json_to_string(x)) },
        None => None,
    }
}

/// The conversation turn of a `user` or `assistant` line: `None` unless it
/// has string `uuid` and `sessionId`, a well-formed `timestamp` and an
/// array `message.content`.
pub open spec fn spec_parse_message(v: JsonV, role: MessageRole) -> Option<TranscriptMessageV> {
    match (str_field(v, "uuid"@), str_field(v, "sessionId"@), line_timestamp(v), v.get("message"@)) {
        (Some(uuid), Some(session_id), Some(timestamp_ms), Some(message)) => match message.get("content"@) {
            Some(content) => if content is Array {
                Some(TranscriptMessageV {
                    uuid,
                    parent_uuid: str_field(v, "parentUuid"@),
                    request_id: if role == MessageRole::Assistant { str_field(v, "requestId"@) } else { None },
                    session_id,
                    role,
                    timestamp_ms,
                    is_sidechain: bool_field(v, "isSidechain"@),
                    content: json_to_string(content),
                    tool_use_result: tool_result_text(v),
                })
            } else {
                None
            },
            None => None,
        },
        _ => None,
    }
}

fn owned(o: Option<&str>) -> (r: Option<String>)
    ensures
        opt_str(r) == opt_chars(o),
{
    match o {
        Some(s) => Some(String::from_str(s)),
        None => None,
    }
}

fn get_str<'a>(v: &'a Json, key: &str) -> (r: Option<&'a str>)
    ensures
        opt_chars(r) == str_field(v@, key@),
{
    match v.get(key) {
        Some(x) => x.as_str(),
        None => None,
    }
}

fn get_bool(v: &Json, key: &str) -> (r: bool)
    ensures
        r == bool_field(v@, key@),
{
    match v.get(key) {
        Some(x) => match x.as_bool() {
            Some(b) => b,
            None => false,
        },
        None => false,
    }
}

/// An `i64` written as a JSON number or a numeric string.
fn value_i64(v: &Json) -> (r: Option<i64>)
    ensures
        opt_int(r) == value_i64_spec(v@),
{
    match v {
        Json::Number(_) => v.as_i64(),
        Json::Str(s) => parse_i64(s.as_str().as_bytes()),
        _ => None,
    }
}

/// A token count: absent or unreadable counts are 0.
fn usage_i64(usage: &Json, key: &str) -> (r: i64)
    ensures
        r == usage_count(usage@, key@),
{
    match usage.get(key) {
        Some(x) => match value_i64(x) {
            Some(n) => n,
            None => 0,
        },
        None => 0,
    }
}

fn split_i64(usage: &Json, key: &str) -> (r: Option<i64>)
    ensures
        opt_int(r) == split_count(usage@, key@),
{
    match usage.get("cache_creation") {
        Some(split) => if split.is_object() {
            match split.get(key) {
                Some(x) => value_i64(x),
                None => None,
            }
        } else {
            None
        },
        None => None,
    }
}

fn timestamp_of(v: &Json) -> (r: Option<i64>)
    ensures
        opt_int(r) == line_timestamp(v@),
{
    match get_str(v, "timestamp") {
        Some(t) => rfc3339_utc_to_ms(t),
        None => None,
    }
}

/// Usage of one `assistant` line (see [`spec_parse_assistant`]).
pub fn parse_assistant(line: &Json) -> (r: Option<AssistantUsage>)
    ensures
        match r {
            Some(u) => spec_parse_assistant(line@) == Some(u@),
            None => spec_parse_assistant(line@) is None,
        },
{
    let session_id = match get_str(line, "sessionId") {
        Some(s) => String::from_str(s),
        None => { return None; },
    };
    let timestamp_ms = match timestamp_of(line) {
        Some(t) => t,
        None => { return None; },
    };
    let message = match line.get("message") {
        Some(m) => m,
        None => { return None; },
    };
    let usage = match message.get("usage") {
        Some(u) => u,
        None => { return None; },
    };
    if !usage.is_object() {
        return None;
    }
    Some(AssistantUsage {
        request_id: owned(get_str(line, "requestId")),
        session_id,
        timestamp_ms,
        model: owned(get_str(message, "model")),
        cwd: owned(get_str(line, "cwd")),
        is_sidechain: get_bool(line, "isSidechain"),
        input_tokens: usage_i64(usage, "input_tokens"),
        output_tokens: usage_i64(usage, "output_tokens"),
        cache_read_tokens: usage_i64(usage, "cache_read_input_tokens"),
        cache_creation_tokens: usage_i64(usage, "cache_creation_input_tokens"),
        cache_creation_5m_tokens: split_i64(usage, "ephemeral_5m_input_tokens"),
        cache_creation_1h_tokens: split_i64(usage, "ephemeral_1h_input_tokens"),
    })
}

/// Message content of a `user` or `assistant` line (see
/// [`spec_parse_message`]).
pub fn parse_message(v: &Json, role: MessageRole) -> (r: Option<TranscriptMessage>)
    ensures
        match r {
            Some(m) => spec_parse_message(v@, role) == Some(m@),
            None => spec_parse_message(v@, role) is None,
        },
{
    let uuid = match get_str(v, "uuid") {
        Some(s) => String::from_str(s),
        None => { return None; },
    };
    let session_id = match get_str(v, "sessionId") {
        Some(s) => String::from_str(s),
        None => { return None; },
    };
    let timestamp_ms = match timestamp_of(v) {
        Some(t) => t,
        None => { return None; },
    };
    let message = match v.get("message") {
        Some(m) => m,
        None => { return None; },
    };
    let content_val = match message.get("content") {
        Some(c) => c,
        None => { return None; },
    };
    if !content_val.is_array() {
        return None;
    }
    let content = render_compact(content_val);
    let request_id = if role == MessageRole::Assistant {
        owned(get_str(v, "requestId"))
    } else {
        None
    };
    let tool_use_result = match v.get("toolUseResult") {
        Some(x) => if x.is_null() { None } else { Some(render_compact(x)) },
        None => None,
    };
    Some(TranscriptMessage {
        uuid,
        parent_uuid: owned(get_str(v, "parentUuid")),
        request_id,
        session_id,
        role,
        timestamp_ms,
        is_sidechain: get_bool(v, "isSidechain"),
        content,
        tool_use_result,
    })
}


/// Per-parse line accounting.
#[derive(Debug, Clone, Copy, PartialEq, Eq, Structural)]
pub struct ParseStats {
    /// Complete lines examined (excludes a trailing unterminated line).
    pub lines_read: u64,
    /// Lines successfully parsed into an [`AssistantUsage`].
    pub assistant_lines: u64,
    /// Non-`assistant` lines (known and unknown types alike).
    pub skipped_lines: u64,
    /// Lines that are not valid JSON objects.
    pub malformed_lines: u64,
    /// `assistant` lines missing required fields.
    pub invalid_assistant_lines: u64,
}

impl Default for ParseStats {
    fn default() -> (r: ParseStats)
        ensures
            r == (ParseStats {
                lines_read: 0,
                assistant_lines: 0,
                skipped_lines: 0,
                malformed_lines: 0,
                invalid_assistant_lines: 0,
            }),
    {
        ParseStats {
            lines_read: 0,
            assistant_lines: 0,
            skipped_lines: 0,
            malformed_lines: 0,
            invalid_assistant_lines: 0,
        }
    }
}

/// The counters of a [`ParseStats`], as unbounded numbers.
pub struct ParseStatsV {
    pub lines_read: int,
    pub assistant_lines: int,
    pub skipped_lines: int,
    pub malformed_lines: int,
    pub invalid_assistant_lines: int,
}

impl View for ParseStats {
    type V = ParseStatsV;

    open spec fn view(&self) -> ParseStatsV {
        ParseStatsV {
            lines_read: self.lines_read as int,
            assistant_lines: self.assistant_lines as int,
            skipped_lines: self.skipped_lines as int,
            malformed_lines: self.malformed_lines as int,
            invalid_assistant_lines: self.invalid_assistant_lines as int,
        }
    }
}

/// Result of parsing one transcript (or a tail of one).
#[derive(Debug)]
pub struct TranscriptParse {
    /// One entry per parsed `assistant` line, in file order.
    pub lines: Vec<AssistantUsage>,
    pub stats: ParseStats,
    /// Bytes consumed up to and including the last newline-terminated line.
    pub bytes_consumed: u64,
    /// Every `user` and `assistant` line whose message content could be
    /// extracted, in file order.
    pub messages: Vec<TranscriptMessage>,
}

/// The value of a [`TranscriptParse`].
pub struct TranscriptParseV {
    pub lines: Seq<AssistantUsageV>,
    pub stats: ParseStatsV,
    pub bytes_consumed: int,
    pub messages: Seq<TranscriptMessageV>,
}

pub open spec fn usage_views(s: Seq<AssistantUsage>) -> Seq<AssistantUsageV> {
    s.map_values(|u: AssistantUsage| u@)
}

pub open spec fn message_views(s: Seq<TranscriptMessage>) -> Seq<TranscriptMessageV> {
    s.map_values(|m: TranscriptMessage| m@)
}

impl View for TranscriptParse {
    type V = TranscriptParseV;

    open spec fn view(&self) -> TranscriptParseV {
        TranscriptParseV {
            lines: usage_views(self.lines@),
            stats: self.stats@,
            bytes_consumed: self.bytes_consumed as int,
            messages: message_views(self.messages@),
        }
    }
}

/// The parse of nothing.
pub open spec fn empty_parse() -> TranscriptParseV {
    TranscriptParseV {
        lines: Seq::empty(),
        stats: ParseStatsV {
            lines_read: 0,
            assistant_lines: 0,
            skipped_lines: 0,
            malformed_lines: 0,
            invalid_assistant_lines: 0,
        },
        bytes_consumed: 0,
        messages: Seq::empty(),
    }
}

impl Default for TranscriptParse {
    fn default() -> (r: TranscriptParse)
        ensures
            r@ == empty_parse(),
    {
        let r = TranscriptParse {
            lines: Vec::new(),
            stats: ParseStats::default(),
            bytes_consumed: 0,
            messages: Vec::new(),
        };
        assert(usage_views(r.lines@) =~= Seq::empty());
        assert(message_views(r.messages@) =~= Seq::empty());
        r
    }
}

/// Appends the message of a line, if it has one.
pub open spec fn with_message(p: TranscriptParseV, m: Option<TranscriptMessageV>) -> TranscriptParseV {
    match m {
        Some(m) => TranscriptParseV { messages: p.messages.push(m), ..p },
        None => p,
    }
}

/// How one complete line (its bytes, `\n` included) changes a parse.
pub open spec fn line_step(p: TranscriptParseV, raw: Seq<u8>) -> TranscriptParseV {
    let st = p.stats;
    match json_from_slice(raw) {
        Ok(v) => if !(v is Object) {
            TranscriptParseV { stats: ParseStatsV { malformed_lines: st.malformed_lines + 1, ..st }, ..p }
        } else if str_field(v, "type"@) == Some("assistant"@) {
            let p1 = match spec_parse_assistant(v) {
                Some(u) => TranscriptParseV {
                    lines: p.lines.push(u),
                    stats: ParseStatsV { assistant_lines: st.assistant_lines + 1, ..st },
                    ..p
                },
                None => TranscriptParseV {
                    stats: ParseStatsV { invalid_assistant_lines: st.invalid_assistant_lines + 1, ..st },
                    ..p
                },
            };
            with_message(p1, spec_parse_message(v, MessageRole::Assistant))
        } else if str_field(v, "type"@) == Some("user"@) {
            let p1 = TranscriptParseV { stats: ParseStatsV { skipped_lines: st.skipped_lines + 1, ..st }, ..p };
            with_message(p1, spec_parse_message(v, MessageRole::User))
        } else {
            TranscriptParseV { stats: ParseStatsV { skipped_lines: st.skipped_lines + 1, ..st }, ..p }
        },
        Err(_) => TranscriptParseV { stats: ParseStatsV { malformed_lines: st.malformed_lines + 1, ..st }, ..p },
    }
}

/// Parsing goes on from `p` over `rest`: each `\n`-terminated line is
/// counted, consumed and stepped; an unterminated tail is left alone.
pub open spec fn parse_from(p: TranscriptParseV, rest: Seq<u8>) -> TranscriptParseV
    decreases rest.len(),
{
    match first_index(rest, 10u8) {
        Some(i) => if 0 <= i < rest.len() {
            let counted = TranscriptParseV {
                stats: ParseStatsV { lines_read: p.stats.lines_read + 1, ..p.stats },
                bytes_consumed: p.bytes_consumed + i + 1,
                ..p
            };
            parse_from(line_step(counted, rest.subrange(0, i + 1)), rest.subrange(i + 1, rest.len() as int))
        } else {
            p
        },
        None => p,
    }
}

/// The parse of a whole input.
pub open spec fn spec_parse(input: Seq<u8>) -> TranscriptParseV {
    parse_from(empty_parse(), input)
}

proof fn lemma_usage_push(s: Seq<AssistantUsage>, u: AssistantUsage)
    ensures
        usage_views(s.push(u)) == usage_views(s).push(u@),
{
    assert(usage_views(s.push(u)) =~= usage_views(s).push(u@));
}

proof fn lemma_message_push(s: Seq<TranscriptMessage>, m: TranscriptMessage)
    ensures
        message_views(s.push(m)) == message_views(s).push(m@),
{
    assert(message_views(s.push(m)) =~= message_views(s).push(m@));
}

fn parse_line(raw: &[u8], parse: &mut TranscriptParse)
    requires
        old(parse).stats.lines_read >= 1,
        old(parse).stats.assistant_lines < old(parse).stats.lines_read,
        old(parse).stats.skipped_lines < old(parse).stats.lines_read,
        old(parse).stats.malformed_lines < old(parse).stats.lines_read,
        old(parse).stats.invalid_assistant_lines < old(parse).stats.lines_read,
    ensures
        final(parse)@ == line_step(old(parse)@, raw@),
        final(parse).stats.lines_read == old(parse).stats.lines_read,
        final(parse).bytes_consumed == old(parse).bytes_consumed,
{
    let value = match parse_json_slice(raw) {
        Ok(v) => v,
        Err(_) => {
            parse.stats.malformed_lines = parse.stats.malformed_lines + 1;
            return;
        },
    };
    if !value.is_object() {
        parse.stats.malformed_lines = parse.stats.malformed_lines + 1;
        return;
    }
    let line_type = get_str(&value, "type");
    let is_assistant = match line_type { Some(t) => str_eq(t, "assistant"), None => false };
    let is_user = match line_type { Some(t) => str_eq(t, "user"), None => false };
    if is_assistant {
        match parse_assistant(&value) {
            Some(line) => {
                parse.stats.assistant_lines = parse.stats.assistant_lines + 1;
                proof { lemma_usage_push(parse.lines@, line); }
                parse.lines.push(line);
            },
            None => {
                parse.stats.invalid_assistant_lines = parse.stats.invalid_assistant_lines + 1;
            },
        }
        if let Some(msg) = parse_message(&value, MessageRole::Assistant) {
            proof { lemma_message_push(parse.messages@, msg); }
            parse.messages.push(msg);
        }
    } else if is_user {
        parse.stats.skipped_lines = parse.stats.skipped_lines + 1;
        if let Some(msg) = parse_message(&value, MessageRole::User) {
            proof { lemma_message_push(parse.messages@, msg); }
            parse.messages.push(msg);
        }
    } else {
        parse.stats.skipped_lines = parse.stats.skipped_lines + 1;
    }
}


/// Parses transcript JSONL. Never fails: per-line problems are tallied in
/// the stats, and a trailing line without `\n` is neither parsed nor
/// counted, so `bytes_consumed` is where the next incremental pass starts.
#[verifier::loop_isolation(false)]
pub fn parse_reader(input: &[u8]) -> (r: TranscriptParse)
    ensures
        r@ == spec_parse(input@),
        r.bytes_consumed <= input@.len(),
{
    let mut parse = TranscriptParse::default();
    let mut pos: usize = 0;
    assert(input@.subrange(0, input@.len() as int) =~= input@);
    while pos < input.len()
        invariant
            pos <= input@.len(),
            parse.bytes_consumed == pos,
            parse.stats.lines_read <= pos,
            parse.stats.assistant_lines <= parse.stats.lines_read,
            parse.stats.skipped_lines <= parse.stats.lines_read,
            parse.stats.malformed_lines <= parse.stats.lines_read,
            parse.stats.invalid_assistant_lines <= parse.stats.lines_read,
            parse_from(parse@, input@.subrange(pos as int, input@.len() as int)) == spec_parse(input@),
        decreases input@.len() - pos,
    {
        let rest = slice_from(input, pos);
        let i = match find_byte(rest, 10u8) {
            Some(i) => i,
            None => { break; },
        };
        let raw = slice_range(rest, 0, i + 1);
        let ghost before = parse@;
        parse.bytes_consumed = parse.bytes_consumed + (i as u64) + 1;
        parse.stats.lines_read = parse.stats.lines_read + 1;
        proof {
            assert(parse@.lines == before.lines);
            assert(parse@.messages == before.messages);
        }
        parse_line(raw, &mut parse);
        proof {
            let r = input@.subrange(pos as int, input@.len() as int);
            assert(rest@ == r);
            assert(r.subrange(i + 1, r.len() as int) =~= input@.subrange(pos + i + 1, input@.len() as int));
        }
        pos = pos + i + 1;
    }
    parse
}


/// Index of the first element of `s` that satisfies `p`.
pub open spec fn first_match<A>(s: Seq<A>, p: spec_fn(A) -> bool) -> Option<int>
    decreases s.len(),
{
    if s.len() == 0 {
        None
    } else {
        match first_match(s.drop_last(), p) {
            Some(i) => Some(i),
            None => if p(s.last()) { Some(s.len() - 1) } else { None },
        }
    }
}

/// `first_match` found by a scan: the first `i` elements fail `p`.
pub proof fn lemma_first_match<A>(s: Seq<A>, p: spec_fn(A) -> bool, i: int)
    requires
        0 <= i <= s.len(),
        forall|j: int| 0 <= j < i ==> !p(#[trigger] s[j]),
    ensures
        i < s.len() && p(s[i]) ==> first_match(s, p) == Some(i),
        i == s.len() ==> first_match(s, p) is None,
    decreases s.len(),
{
    if s.len() > 0 {
        let t = s.drop_last();
        if i < s.len() {
            if i < t.len() {
                assert forall|j: int| 0 <= j < i implies !p(#[trigger] t[j]) by {
                    assert(t[j] == s[j]);
                }
                lemma_first_match(t, p, i);
                if p(s[i]) {
                    assert(t[i] == s[i]);
                }
            } else {
                assert forall|j: int| 0 <= j < t.len() implies !p(#[trigger] t[j]) by {
                    assert(t[j] == s[j]);
                }
                lemma_first_match(t, p, t.len() as int);
            }
        } else {
            assert forall|j: int| 0 <= j < t.len() implies !p(#[trigger] t[j]) by {
                assert(t[j] == s[j]);
            }
            lemma_first_match(t, p, t.len() as int);
        }
    }
}

/// What `first_match` returns is a match, and nothing before it matches.
pub proof fn lemma_first_match_found<A>(s: Seq<A>, p: spec_fn(A) -> bool)
    ensures
        match first_match(s, p) {
            Some(i) => 0 <= i < s.len() && p(s[i]) && forall|j: int| 0 <= j < i ==> !p(#[trigger] s[j]),
            None => forall|j: int| 0 <= j < s.len() ==> !p(#[trigger] s[j]),
        },
    decreases s.len(),
{
    if s.len() > 0 {
        let t = s.drop_last();
        lemma_first_match_found(t, p);
        match first_match(t, p) {
            Some(i) => {
                assert(t[i] == s[i]);
                assert forall|j: int| 0 <= j < i implies !p(#[trigger] s[j]) by {
                    assert(t[j] == s[j]);
                }
            },
            None => {
                assert forall|j: int| 0 <= j < s.len() - 1 implies !p(#[trigger] s[j]) by {
                    assert(t[j] == s[j]);
                }
            },
        }
    }
}

/// Matches collapsed usage entries of request `rid`.
pub open spec fn has_request(rid: Seq<char>) -> spec_fn(AssistantUsageV) -> bool {
    |c: AssistantUsageV| c.request_id == Some(rid)
}

/// How one parsed line changes the collapsed list: synthetic and
/// `requestId`-less lines are dropped; a new request is appended; a known
/// one is replaced unless the line has no usage and the kept one has.
pub open spec fn collapse_step(acc: Seq<AssistantUsageV>, line: AssistantUsageV) -> Seq<AssistantUsageV> {
    if line.is_synthetic() {
        acc
    } else {
        match line.request_id {
            None => acc,
            Some(rid) => match first_match(acc, has_request(rid)) {
                None => acc.push(line),
                Some(i) => if line.has_usage() || !acc[i].has_usage() { acc.update(i, line) } else { acc },
            },
        }
    }
}

/// One entry per API request, in first-seen order.
pub open spec fn spec_collapse_requests(lines: Seq<AssistantUsageV>) -> Seq<AssistantUsageV>
    decreases lines.len(),
{
    if lines.len() == 0 {
        Seq::empty()
    } else {
        collapse_step(spec_collapse_requests(lines.drop_last()), lines.last())
    }
}

fn find_request_index(c: &Vec<AssistantUsage>, rid: &str) -> (r: Option<usize>)
    ensures
        match r {
            Some(j) => j < c@.len() && first_match(usage_views(c@), has_request(rid@)) == Some(j as int),
            None => first_match(usage_views(c@), has_request(rid@)) is None,
        },
{
    let ghost acc = usage_views(c@);
    let mut k: usize = 0;
    while k < c.len()
        invariant
            k <= c@.len(),
            acc == usage_views(c@),
            forall|j: int| 0 <= j < k ==> !has_request(rid@)(#[trigger] acc[j]),
        decreases c@.len() - k,
    {
        if same_request(&c[k].request_id, rid) {
            proof { lemma_first_match(acc, has_request(rid@), k as int); }
            return Some(k);
        }
        k += 1;
    }
    proof { lemma_first_match(acc, has_request(rid@), k as int); }
    None
}

fn same_request(a: &Option<String>, b: &str) -> (r: bool)
    ensures
        r == (opt_str(*a) == Some(b@)),
{
    match a {
        Some(x) => str_eq(x.as_str(), b),
        None => false,
    }
}

/// Collapses parsed lines to one entry per API request (see
/// [`spec_collapse_requests`]): the last line with non-zero usage wins,
/// trailing all-zero lines lose to any earlier real line, and synthetic or
/// `requestId`-less lines are dropped. Output keeps first-seen order.
pub fn collapse_requests(lines: &[AssistantUsage]) -> (r: Vec<AssistantUsage>)
    ensures
        usage_views(r@) == spec_collapse_requests(usage_views(lines@)),
{
    let mut collapsed: Vec<AssistantUsage> = Vec::new();
    let ghost all = usage_views(lines@);
    assert(usage_views(collapsed@) =~= spec_collapse_requests(all.subrange(0, 0)));
    let mut i: usize = 0;
    while i < lines.len()
        invariant
            i <= lines@.len(),
            all == usage_views(lines@),
            usage_views(collapsed@) == spec_collapse_requests(all.subrange(0, i as int)),
        decreases lines@.len() - i,
    {
        let line = &lines[i];
        proof {
            assert(all.subrange(0, i + 1).drop_last() =~= all.subrange(0, i as int));
            assert(all.subrange(0, i + 1).last() == line@);
        }
        let ghost acc = usage_views(collapsed@);
        if !line.is_synthetic() {
            if let Some(rid) = &line.request_id {
                let found = find_request_index(&collapsed, rid.as_str());
                match found {
                    None => {
                        let d = line.duplicate();
                        proof { lemma_usage_push(collapsed@, d); }
                        collapsed.push(d);
                    },
                    Some(j) => {
                        if line.has_usage() || !collapsed[j].has_usage() {
                            let d = line.duplicate();
                            collapsed.set(j, d);
                            proof {
                                assert(usage_views(collapsed@) =~= acc.update(j as int, line@));
                            }
                        }
                    },
                }
            }
        }
        i += 1;
    }
    assert(all.subrange(0, lines@.len() as int) =~= all);
    collapsed
}


/// Matches collapsed assistant turns of request `rid`.
pub open spec fn is_assistant_turn(rid: Seq<char>) -> spec_fn(TranscriptMessageV) -> bool {
    |c: TranscriptMessageV| c.role == MessageRole::Assistant && c.request_id == Some(rid)
}

/// How one message changes the collapsed list: user turns are appended;
/// assistant turns without `requestId` are dropped; a new request is
/// appended and a known one replaced by the later turn.
pub open spec fn message_step(acc: Seq<TranscriptMessageV>, m: TranscriptMessageV) -> Seq<TranscriptMessageV> {
    match m.role {
        MessageRole::User => acc.push(m),
        MessageRole::Assistant => match m.request_id {
            None => acc,
            Some(rid) => match first_match(acc, is_assistant_turn(rid)) {
                None => acc.push(m),
                Some(i) => acc.update(i, m),
            },
        },
    }
}

/// One entry per conversation turn, in first-seen order.
pub open spec fn spec_collapse_messages(ms: Seq<TranscriptMessageV>) -> Seq<TranscriptMessageV>
    decreases ms.len(),
{
    if ms.len() == 0 {
        Seq::empty()
    } else {
        message_step(spec_collapse_messages(ms.drop_last()), ms.last())
    }
}

fn find_turn_index(c: &Vec<TranscriptMessage>, rid: &str) -> (r: Option<usize>)
    ensures
        match r {
            Some(j) => j < c@.len() && first_match(message_views(c@), is_assistant_turn(rid@)) == Some(j as int),
            None => first_match(message_views(c@), is_assistant_turn(rid@)) is None,
        },
{
    let ghost acc = message_views(c@);
    let mut k: usize = 0;
    while k < c.len()
        invariant
            k <= c@.len(),
            acc == message_views(c@),
            forall|j: int| 0 <= j < k ==> !is_assistant_turn(rid@)(#[trigger] acc[j]),
        decreases c@.len() - k,
    {
        if c[k].role == MessageRole::Assistant && same_request(&c[k].request_id, rid) {
            proof { lemma_first_match(acc, is_assistant_turn(rid@), k as int); }
            return Some(k);
        }
        k += 1;
    }
    proof { lemma_first_match(acc, is_assistant_turn(rid@), k as int); }
    None
}

/// Collapses parsed messages to one entry per turn (see
/// [`spec_collapse_messages`]): user turns pass through, assistant turns
/// collapse per `requestId` with the last one winning, and assistant turns
/// without a `requestId` are dropped. Output keeps first-seen order.
pub fn collapse_messages(messages: &[TranscriptMessage]) -> (r: Vec<TranscriptMessage>)
    ensures
        message_views(r@) == spec_collapse_messages(message_views(messages@)),
{
    let mut collapsed: Vec<TranscriptMessage> = Vec::new();
    let ghost all = message_views(messages@);
    assert(message_views(collapsed@) =~= spec_collapse_messages(all.subrange(0, 0)));
    let mut i: usize = 0;
    while i < messages.len()
        invariant
            i <= messages@.len(),
            all == message_views(messages@),
            message_views(collapsed@) == spec_collapse_messages(all.subrange(0, i as int)),
        decreases messages@.len() - i,
    {
        let msg = &messages[i];
        proof {
            assert(all.subrange(0, i + 1).drop_last() =~= all.subrange(0, i as int));
            assert(all.subrange(0, i + 1).last() == msg@);
        }
        let ghost acc = message_views(collapsed@);
        match msg.role {
            MessageRole::User => {
                let d = msg.duplicate();
                proof { lemma_message_push(collapsed@, d); }
                collapsed.push(d);
            },
            MessageRole::Assistant => {
                if let Some(rid) = &msg.request_id {
                    match find_turn_index(&collapsed, rid.as_str()) {
                        None => {
                            let d = msg.duplicate();
                            proof { lemma_message_push(collapsed@, d); }
                            collapsed.push(d);
                        },
                        Some(j) => {
                            let d = msg.duplicate();
                            collapsed.set(j, d);
                            proof {
                                assert(message_views(collapsed@) =~= acc.update(j as int, msg@));
                            }
                        },
                    }
                }
            },
        }
        i += 1;
    }
    assert(all.subrange(0, messages@.len() as int) =~= all);
    collapsed
}

} // verus!
