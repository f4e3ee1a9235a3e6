//! OTel log-event ingestion: which OTLP log records become `requests`
//! rows, and what each row holds.
//!
//! Only `api_request` and `api_error` events are stored; every other event
//! name is skipped. The event name comes from the `event.name` attribute,
//! else from `body.stringValue`, with an optional `claude_code.` prefix.
//! A storable record needs `session.id` and a timestamp; without them it
//! counts as an ingest failure. Numeric attributes whose value is written
//! as a double are handed on as written; turning them into numbers is the
//! caller's.
use vstd::prelude::*;
use crate::json::{Json, JsonV};
use crate::text::{str_eq, opt_chars};
use crate::transcript::{str_field, value_i64_spec, opt_str, opt_int, first_match, lemma_first_match, lemma_first_match_found};
use vstd::string::StringExecFns;

verus! {

/// Ingest counters. Monotonic except `last_event_ms`; they wrap like the
/// atomics they stand for.
#[derive(Debug, Clone, Copy, PartialEq, Eq, Structural)]
pub struct IngestStats {
    /// Rows successfully written.
    pub events_ingested: u64,
    /// Records that looked like ours but could not be stored.
    pub ingest_failures: u64,
    /// Records skipped because the event name is not one we store.
    pub events_skipped: u64,
    /// Wall-clock ms of the most recent successful ingest (0 = never).
    pub last_event_ms: i64,
}

/// Point-in-time copy of [`IngestStats`].
#[derive(Debug, Clone, Copy, PartialEq, Eq, Structural)]
pub struct IngestStatsSnapshot {
    pub events_ingested: u64,
    pub ingest_failures: u64,
    pub events_skipped: u64,
    /// 0 when no event has ever been ingested.
    pub last_event_ms: i64,
}

impl Default for IngestStats {
    fn default() -> (r: IngestStats)
        ensures
            r == (IngestStats { events_ingested: 0, ingest_failures: 0, events_skipped: 0, last_event_ms: 0 }),
    {
        IngestStats { events_ingested: 0, ingest_failures: 0, events_skipped: 0, last_event_ms: 0 }
    }
}

impl IngestStats {
    pub fn snapshot(&self) -> (r: IngestStatsSnapshot)
        ensures
            r.events_ingested == self.events_ingested,
            r.ingest_failures == self.ingest_failures,
            r.events_skipped == self.events_skipped,
            r.last_event_ms == self.last_event_ms,
    {
        IngestStatsSnapshot {
            events_ingested: self.events_ingested,
            ingest_failures: self.ingest_failures,
            events_skipped: self.events_skipped,
            last_event_ms: self.last_event_ms,
        }
    }

    /// A row was stored at wall-clock `now_ms`.
    pub fn record_success(&mut self, now_ms: i64)
        ensures
            final(self).events_ingested == old(self).events_ingested.wrapping_add(1),
            final(self).last_event_ms == now_ms,
            final(self).ingest_failures == old(self).ingest_failures,
            final(self).events_skipped == old(self).events_skipped,
    {
        self.events_ingested = self.events_ingested.wrapping_add(1);
        self.last_event_ms = now_ms;
    }

    /// A record of ours could not be stored.
    pub fn record_failure(&mut self)
        ensures
            final(self).ingest_failures == old(self).ingest_failures.wrapping_add(1),
            final(self).events_ingested == old(self).events_ingested,
            final(self).events_skipped == old(self).events_skipped,
            final(self).last_event_ms == old(self).last_event_ms,
    {
        self.ingest_failures = self.ingest_failures.wrapping_add(1);
    }

    /// A record was not one we store.
    pub fn record_skip(&mut self)
        ensures
            final(self).events_skipped == old(self).events_skipped.wrapping_add(1),
            final(self).events_ingested == old(self).events_ingested,
            final(self).ingest_failures == old(self).ingest_failures,
            final(self).last_event_ms == old(self).last_event_ms,
    {
        self.events_skipped = self.events_skipped.wrapping_add(1);
    }
}

/// The elements of an array value; nothing for anything else.
pub open spec fn array_of(v: Option<JsonV>) -> Seq<JsonV> {
    match v {
        Some(JsonV::Array(a)) => a,
        _ => Seq::empty(),
    }
}

/// The sequences of `ss`, one after another.
pub open spec fn concat_all(ss: Seq<Seq<JsonV>>) -> Seq<JsonV>
    decreases ss.len(),
{
    if ss.len() == 0 {
        Seq::empty()
    } else {
        concat_all(ss.drop_last()) + ss.last()
    }
}

pub open spec fn scope_records(scope: JsonV) -> Seq<JsonV> {
    array_of(scope.get("logRecords"@))
}

pub open spec fn resource_records(resource: JsonV) -> Seq<JsonV> {
    concat_all(array_of(resource.get("scopeLogs"@)).map_values(|s: JsonV| scope_records(s)))
}

/// `resourceLogs[].scopeLogs[].logRecords[]`, flattened in order; a level
/// that is absent or not an array contributes nothing.
pub open spec fn spec_log_records(payload: JsonV) -> Seq<JsonV> {
    concat_all(array_of(payload.get("resourceLogs"@)).map_values(|r: JsonV| resource_records(r)))
}

pub open spec fn ref_views(s: Seq<&Json>) -> Seq<JsonV> {
    s.map_values(|j: &Json| j@)
}

fn array_items<'a>(v: Option<&'a Json>) -> (r: &'a [Json])
    ensures
        crate::json::views(r@) == array_of(match v { Some(j) => Some(j@), None => None }),
{
    proof { crate::json::lemma_views(Seq::empty()); }
    match v {
        Some(Json::Array(a)) => a.as_slice(),
        _ => {
            let e: &[Json] = &[];
            assert(crate::json::views(e@) =~= Seq::empty());
            e
        },
    }
}

proof fn lemma_concat_push(ss: Seq<Seq<JsonV>>, s: Seq<JsonV>)
    ensures
        concat_all(ss.push(s)) == concat_all(ss) + s,
{
    assert(ss.push(s).drop_last() =~= ss);
}

fn push_all<'a>(out: &mut Vec<&'a Json>, items: &'a [Json])
    ensures
        ref_views(final(out)@) == ref_views(old(out)@) + crate::json::views(items@),
{
    proof { crate::json::lemma_views(items@); }
    let ghost start = ref_views(out@);
    let mut k: usize = 0;
    while k < items.len()
        invariant
            k <= items@.len(),
            crate::json::views(items@).len() == items@.len(),
            forall|j: int| 0 <= j < items@.len() ==> #[trigger] crate::json::views(items@)[j] == items@[j].view_json(),
            ref_views(out@) == start + crate::json::views(items@).subrange(0, k as int),
        decreases items@.len() - k,
    {
        let ghost before = out@;
        out.push(&items[k]);
        proof {
            assert(ref_views(out@) =~= ref_views(before).push(items@[k as int]@));
            assert(crate::json::views(items@).subrange(0, k + 1) =~= crate::json::views(items@).subrange(0, k as int).push(items@[k as int]@));
        }
        k += 1;
    }
    proof { assert(crate::json::views(items@).subrange(0, k as int) =~= crate::json::views(items@)); }
}

fn push_resource<'a>(out: &mut Vec<&'a Json>, resource: &'a Json)
    ensures
        ref_views(final(out)@) == ref_views(old(out)@) + resource_records(resource@),
{
    let scopes = array_items(resource.get("scopeLogs"));
    proof { crate::json::lemma_views(scopes@); }
    let ghost sv = crate::json::views(scopes@);
    let ghost parts = sv.map_values(|s: JsonV| scope_records(s));
    let ghost start = ref_views(out@);
    assert(parts.subrange(0, 0) =~= Seq::<Seq<JsonV>>::empty());
    assert(start + concat_all(parts.subrange(0, 0)) =~= start);
    let mut j: usize = 0;
    while j < scopes.len()
        invariant
            j <= scopes@.len(),
            sv == crate::json::views(scopes@),
            sv.len() == scopes@.len(),
            forall|i: int| 0 <= i < scopes@.len() ==> #[trigger] sv[i] == scopes@[i].view_json(),
            parts == sv.map_values(|s: JsonV| scope_records(s)),
            ref_views(out@) == start + concat_all(parts.subrange(0, j as int)),
        decreases scopes@.len() - j,
    {
        let recs = array_items(scopes[j].get("logRecords"));
        push_all(out, recs);
        proof {
            assert(parts.subrange(0, j + 1) =~= parts.subrange(0, j as int).push(parts[j as int]));
            lemma_concat_push(parts.subrange(0, j as int), parts[j as int]);
        }
        j += 1;
    }
    proof { assert(parts.subrange(0, j as int) =~= parts); }
}

/// Every log record of an OTLP logs payload, in order.
pub fn log_records(payload: &Json) -> (r: Vec<&Json>)
    ensures
        ref_views(r@) == spec_log_records(payload@),
{
    let mut out: Vec<&Json> = Vec::new();
    let resources = array_items(payload.get("resourceLogs"));
    proof { crate::json::lemma_views(resources@); }
    let ghost rv = crate::json::views(resources@);
    let ghost parts = rv.map_values(|r: JsonV| resource_records(r));
    assert(parts.subrange(0, 0) =~= Seq::<Seq<JsonV>>::empty());
    assert(ref_views(out@) =~= concat_all(parts.subrange(0, 0)));
    let mut i: usize = 0;
    while i < resources.len()
        invariant
            i <= resources@.len(),
            rv == crate::json::views(resources@),
            rv.len() == resources@.len(),
            forall|k: int| 0 <= k < resources@.len() ==> #[trigger] rv[k] == resources@[k].view_json(),
            parts == rv.map_values(|r: JsonV| resource_records(r)),
            ref_views(out@) == concat_all(parts.subrange(0, i as int)),
        decreases resources@.len() - i,
    {
        push_resource(&mut out, &resources[i]);
        proof {
            assert(parts.subrange(0, i + 1) =~= parts.subrange(0, i as int).push(parts[i as int]));
            lemma_concat_push(parts.subrange(0, i as int), parts[i as int]);
        }
        i += 1;
    }
    proof { assert(parts.subrange(0, i as int) =~= parts); }
    out
}


/// Matches the attribute entry keyed `key`.
pub open spec fn attr_keyed(key: Seq<char>) -> spec_fn(JsonV) -> bool {
    |a: JsonV| str_field(a, "key"@) == Some(key)
}

/// The OTLP `AnyValue` of the first attribute keyed `key`.
pub open spec fn spec_attr_value(record: JsonV, key: Seq<char>) -> Option<JsonV> {
    let attrs = array_of(record.get("attributes"@));
    match first_match(attrs, attr_keyed(key)) {
        Some(i) => attrs[i].get("value"@),
        None => None,
    }
}

/// A string attribute (`stringValue`).
pub open spec fn spec_attr_str(record: JsonV, key: Seq<char>) -> Option<Seq<char>> {
    match spec_attr_value(record, key) {
        Some(v) => str_field(v, "stringValue"@),
        None => None,
    }
}

/// A member read as an `i64` (a number or a numeric string).
pub open spec fn member_i64(v: JsonV, key: Seq<char>) -> Option<int> {
    match v.get(key) {
        Some(x) => value_i64_spec(x),
        None => None,
    }
}

fn attr_value<'a>(record: &'a Json, key: &str) -> (r: Option<&'a Json>)
    ensures
        match r {
            Some(v) => spec_attr_value(record@, key@) == Some(v@),
            None => spec_attr_value(record@, key@) is None,
        },
{
    let g = record.get("attributes");
    let attrs = array_items(g);
    proof { crate::json::lemma_views(attrs@); }
    let ghost av = crate::json::views(attrs@);
    assert(av == array_of(record@.get("attributes"@)));
    let mut k: usize = 0;
    while k < attrs.len()
        invariant
            k <= attrs@.len(),
            av == crate::json::views(attrs@),
            av == array_of(record@.get("attributes"@)),
            av.len() == attrs@.len(),
            forall|i: int| 0 <= i < attrs@.len() ==> #[trigger] av[i] == attrs@[i].view_json(),
            forall|i: int| 0 <= i < k ==> !attr_keyed(key@)(#[trigger] av[i]),
        decreases attrs@.len() - k,
    {
        let matches = match attrs[k].get("key") {
            Some(x) => match x.as_str() {
                Some(t) => str_eq(t, key),
                None => false,
            },
            None => false,
        };
        if matches {
            proof { lemma_first_match(av, attr_keyed(key@), k as int); }
            let r = attrs[k].get("value");
            assert(attrs@[k as int]@ == av[k as int]);
            return r;
        }
        k += 1;
    }
    proof { lemma_first_match(av, attr_keyed(key@), k as int); }
    None
}

fn attr_str<'a>(record: &'a Json, key: &str) -> (r: Option<&'a str>)
    ensures
        opt_chars(r) == spec_attr_str(record@, key@),
{
    match attr_value(record, key) {
        Some(v) => match v.get("stringValue") {
            Some(x) => x.as_str(),
            None => None,
        },
        None => None,
    }
}

fn value_i64(v: &Json) -> (r: Option<i64>)
    ensures
        opt_int(r) == value_i64_spec(v@),
{
    match v {
        Json::Number(_) => v.as_i64(),
        Json::Str(s) => crate::numparse::parse_i64(s.as_str().as_bytes()),
        _ => None,
    }
}

fn get_i64(v: &Json, key: &str) -> (r: Option<i64>)
    ensures
        opt_int(r) == member_i64(v@, key@),
{
    match v.get(key) {
        Some(x) => value_i64(x),
        None => None,
    }
}

fn own(o: Option<&str>) -> (r: Option<String>)
    ensures
        opt_str(r) == opt_chars(o),
{
    match o {
        Some(s) => Some(String::from_str(s)),
        None => None,
    }
}

fn own_json(o: Option<&Json>) -> (r: Option<Json>)
    ensures
        match o {
            Some(j) => r is Some && r->0@ == j@,
            None => r is None,
        },
{
    match o {
        Some(j) => Some(j.deep_clone()),
        None => None,
    }
}

/// A numeric attribute as written: its `intValue` read as an `i64`, and
/// its `doubleValue` as the JSON value it is.
pub struct NumericAttr {
    pub int_value: Option<i64>,
    pub double_value: Option<Json>,
}

/// The value of a [`NumericAttr`].
pub struct NumericAttrV {
    pub int_value: Option<int>,
    pub double_value: Option<JsonV>,
}

impl View for NumericAttr {
    type V = NumericAttrV;

    open spec fn view(&self) -> NumericAttrV {
        NumericAttrV {
            int_value: opt_int(self.int_value),
            double_value: match self.double_value {
                Some(j) => Some(j@),
                None => None,
            },
        }
    }
}

pub open spec fn spec_numeric_attr(record: JsonV, key: Seq<char>) -> NumericAttrV {
    match spec_attr_value(record, key) {
        Some(v) => NumericAttrV {
            int_value: member_i64(v, "intValue"@),
            double_value: v.get("doubleValue"@),
        },
        None => NumericAttrV { int_value: None, double_value: None },
    }
}

fn numeric_attr(record: &Json, key: &str) -> (r: NumericAttr)
    ensures
        r@ == spec_numeric_attr(record@, key@),
{
    match attr_value(record, key) {
        Some(v) => NumericAttr {
            int_value: get_i64(v, "intValue"),
            double_value: own_json(v.get("doubleValue")),
        },
        None => NumericAttr { int_value: None, double_value: None },
    }
}

/// The two stored event types.
#[derive(Debug, Clone, Copy, PartialEq, Eq, Structural)]
pub enum EventType {
    ApiRequest,
    ApiError,
}

impl EventType {
    pub open spec fn spec_name(self) -> Seq<char> {
        match self {
            EventType::ApiRequest => "api_request"@,
            EventType::ApiError => "api_error"@,
        }
    }

    /// The `event_type` column value.
    pub fn name(self) -> (r: &'static str)
        ensures
            r@ == self.spec_name(),
    {
        match self {
            EventType::ApiRequest => "api_request",
            EventType::ApiError => "api_error",
        }
    }
}

/// The raw event name: the `event.name` attribute, else `body.stringValue`.
pub open spec fn spec_raw_event_name(record: JsonV) -> Option<Seq<char>> {
    match spec_attr_str(record, "event.name"@) {
        Some(n) => Some(n),
        None => match record.get("body"@) {
            Some(b) => str_field(b, "stringValue"@),
            None => None,
        },
    }
}

/// The stored event type a name denotes, with or without the
/// `claude_code.` prefix.
pub open spec fn spec_event_type(name: Seq<char>) -> Option<EventType> {
    if name == "api_request"@ || name == "claude_code.api_request"@ {
        Some(EventType::ApiRequest)
    } else if name == "api_error"@ || name == "claude_code.api_error"@ {
        Some(EventType::ApiError)
    } else {
        None
    }
}

fn event_type_of(record: &Json) -> (r: Option<EventType>)
    ensures
        r == (match spec_raw_event_name(record@) {
            Some(n) => spec_event_type(n),
            None => None,
        }),
{
    let name = match attr_str(record, "event.name") {
        Some(n) => Some(n),
        None => match record.get("body") {
            Some(b) => match b.get("stringValue") {
                Some(x) => x.as_str(),
                None => None,
            },
            None => None,
        },
    };
    match name {
        Some(n) => {
            if str_eq(n, "api_request") || str_eq(n, "claude_code.api_request") {
                Some(EventType::ApiRequest)
            } else if str_eq(n, "api_error") || str_eq(n, "claude_code.api_error") {
                Some(EventType::ApiError)
            } else {
                None
            }
        },
        None => None,
    }
}

/// Rust's `/` on integers: the quotient truncated toward zero.
pub open spec fn trunc_div(n: int, d: int) -> int {
    if n >= 0 { n / d } else { -((-n) / d) }
}

/// Event time in unix ms from `timeUnixNano`, else `observedTimeUnixNano`
/// (nanoseconds as strings or numbers).
pub open spec fn spec_record_timestamp_ms(record: JsonV) -> Option<int> {
    match member_i64(record, "timeUnixNano"@) {
        Some(n) => Some(trunc_div(n, 1_000_000)),
        None => match member_i64(record, "observedTimeUnixNano"@) {
            Some(n) => Some(trunc_div(n, 1_000_000)),
            None => None,
        },
    }
}

/// `n / d` on `i64`: the quotient truncated toward zero.
pub fn div_trunc(n: i64, d: i64) -> (r: i64)
    requires
        d > 0,
    ensures
        r == trunc_div(n as int, d as int),
{
    if n >= 0 {
        ((n as u64) / (d as u64)) as i64
    } else if d == 1 {
        assert((-(n as int)) / 1 == -(n as int)) by (nonlinear_arith);
        n
    } else {
        let m: i128 = -(n as i128);
        let q: i128 = m / (d as i128);
        assert(q <= m / 2) by (nonlinear_arith)
            requires
                m > 0,
                d >= 2,
                q == m / (d as i128),
        ;
        -(q as i64)
    }
}

fn record_timestamp_ms(record: &Json) -> (r: Option<i64>)
    ensures
        opt_int(r) == spec_record_timestamp_ms(record@),
{
    match get_i64(record, "timeUnixNano") {
        Some(n) => Some(div_trunc(n, 1_000_000)),
        None => match get_i64(record, "observedTimeUnixNano") {
            Some(n) => Some(div_trunc(n, 1_000_000)),
            None => None,
        },
    }
}


/// A storable event; fields mirror the `requests` columns. Numeric
/// attributes are as written (see [`NumericAttr`]): the cost reads
/// `doubleValue` first, the integer columns `intValue` first.
pub struct RequestRow {
    pub request_id: Option<String>,
    pub session_id: String,
    pub timestamp_ms: i64,
    pub model: Option<String>,
    pub query_source: Option<String>,
    pub cost_usd: NumericAttr,
    pub input_tokens: NumericAttr,
    pub output_tokens: NumericAttr,
    pub cache_read_tokens: NumericAttr,
    pub cache_creation_tokens: NumericAttr,
    pub event_type: EventType,
    pub error: Option<String>,
    pub duration_ms: NumericAttr,
}

/// The value of a [`RequestRow`].
pub struct RequestRowV {
    pub request_id: Option<Seq<char>>,
    pub session_id: Seq<char>,
    pub timestamp_ms: int,
    pub model: Option<Seq<char>>,
    pub query_source: Option<Seq<char>>,
    pub cost_usd: NumericAttrV,
    pub input_tokens: NumericAttrV,
    pub output_tokens: NumericAttrV,
    pub cache_read_tokens: NumericAttrV,
    pub cache_creation_tokens: NumericAttrV,
    pub event_type: EventType,
    pub error: Option<Seq<char>>,
    pub duration_ms: NumericAttrV,
}

impl View for RequestRow {
    type V = RequestRowV;

    open spec fn view(&self) -> RequestRowV {
        RequestRowV {
            request_id: opt_str(self.request_id),
            session_id: self.session_id@,
            timestamp_ms: self.timestamp_ms as int,
            model: opt_str(self.model),
            query_source: opt_str(self.query_source),
            cost_usd: self.cost_usd@,
            input_tokens: self.input_tokens@,
            output_tokens: self.output_tokens@,
            cache_read_tokens: self.cache_read_tokens@,
            cache_creation_tokens: self.cache_creation_tokens@,
            event_type: self.event_type,
            error: opt_str(self.error),
            duration_ms: self.duration_ms@,
        }
    }
}

/// The row a record of type `event_type` becomes; `None` without a
/// `session.id` string attribute or a timestamp.
pub open spec fn spec_parse_event(record: JsonV, event_type: EventType) -> Option<RequestRowV> {
    match (spec_attr_str(record, "session.id"@), spec_record_timestamp_ms(record)) {
        (Some(session_id), Some(timestamp_ms)) => Some(RequestRowV {
            request_id: spec_attr_str(record, "request_id"@),
            session_id,
            timestamp_ms,
            model: spec_attr_str(record, "model"@),
            query_source: spec_attr_str(record, "query_source"@),
            cost_usd: spec_numeric_attr(record, "cost_usd"@),
            input_tokens: spec_numeric_attr(record, "input_tokens"@),
            output_tokens: spec_numeric_attr(record, "output_tokens"@),
            cache_read_tokens: spec_numeric_attr(record, "cache_read_tokens"@),
            cache_creation_tokens: spec_numeric_attr(record, "cache_creation_tokens"@),
            event_type,
            error: spec_attr_str(record, "error"@),
            duration_ms: spec_numeric_attr(record, "duration_ms"@),
        }),
        _ => None,
    }
}

/// One record into a row (see [`spec_parse_event`]).
pub fn parse_event(record: &Json, event_type: EventType) -> (r: Option<RequestRow>)
    ensures
        match r {
            Some(row) => spec_parse_event(record@, event_type) == Some(row@),
            None => spec_parse_event(record@, event_type) is None,
        },
{
    let session_id = match attr_str(record, "session.id") {
        Some(s) => String::from_str(s),
        None => { return None; },
    };
    let timestamp_ms = match record_timestamp_ms(record) {
        Some(t) => t,
        None => { return None; },
    };
    Some(RequestRow {
        request_id: own(attr_str(record, "request_id")),
        session_id,
        timestamp_ms,
        model: own(attr_str(record, "model")),
        query_source: own(attr_str(record, "query_source")),
        cost_usd: numeric_attr(record, "cost_usd"),
        input_tokens: numeric_attr(record, "input_tokens"),
        output_tokens: numeric_attr(record, "output_tokens"),
        cache_read_tokens: numeric_attr(record, "cache_read_tokens"),
        cache_creation_tokens: numeric_attr(record, "cache_creation_tokens"),
        event_type,
        error: own(attr_str(record, "error")),
        duration_ms: numeric_attr(record, "duration_ms"),
    })
}

/// What ingest does with one log record.
pub enum RecordOutcome {
    /// Not an event we store.
    Skip,
    /// One of ours, but missing a required field: an ingest failure.
    Invalid,
    /// Store this row.
    Store(RequestRow),
}

pub enum RecordOutcomeV {
    Skip,
    Invalid,
    Store(RequestRowV),
}

impl View for RecordOutcome {
    type V = RecordOutcomeV;

    open spec fn view(&self) -> RecordOutcomeV {
        match self {
            RecordOutcome::Skip => RecordOutcomeV::Skip,
            RecordOutcome::Invalid => RecordOutcomeV::Invalid,
            RecordOutcome::Store(row) => RecordOutcomeV::Store(row@),
        }
    }
}

pub open spec fn spec_classify(record: JsonV) -> RecordOutcomeV {
    match spec_raw_event_name(record) {
        None => RecordOutcomeV::Skip,
        Some(name) => match spec_event_type(name) {
            None => RecordOutcomeV::Skip,
            Some(t) => match spec_parse_event(record, t) {
                Some(row) => RecordOutcomeV::Store(row),
                None => RecordOutcomeV::Invalid,
            },
        },
    }
}

/// The outcome of one log record: records without a stored event name are
/// skipped, stored types without the required fields are failures.
pub fn classify_record(record: &Json) -> (r: RecordOutcome)
    ensures
        r@ == spec_classify(record@),
{
    match event_type_of(record) {
        None => RecordOutcome::Skip,
        Some(t) => match parse_event(record, t) {
            Some(row) => RecordOutcome::Store(row),
            None => RecordOutcome::Invalid,
        },
    }
}

impl IngestStats {
    /// Counts one record by its outcome: a skipped record as skipped, an
    /// invalid one as a failure, a row to store as ingested at `now_ms`
    /// when storing it succeeded and as a failure when it did not. Every
    /// record moves exactly one counter by one.
    pub fn count_outcome(&mut self, outcome: &RecordOutcome, stored: bool, now_ms: i64)
        ensures
            match outcome {
                RecordOutcome::Skip => final(self).events_skipped == old(self).events_skipped.wrapping_add(1)
                    && final(self).events_ingested == old(self).events_ingested
                    && final(self).ingest_failures == old(self).ingest_failures
                    && final(self).last_event_ms == old(self).last_event_ms,
                RecordOutcome::Store(_) if stored => final(self).events_ingested == old(self).events_ingested.wrapping_add(1)
                    && final(self).last_event_ms == now_ms
                    && final(self).ingest_failures == old(self).ingest_failures
                    && final(self).events_skipped == old(self).events_skipped,
                _ => final(self).ingest_failures == old(self).ingest_failures.wrapping_add(1)
                    && final(self).events_ingested == old(self).events_ingested
                    && final(self).events_skipped == old(self).events_skipped
                    && final(self).last_event_ms == old(self).last_event_ms,
            },
    {
        match outcome {
            RecordOutcome::Skip => self.record_skip(),
            RecordOutcome::Store(_) => {
                if stored {
                    self.record_success(now_ms)
                } else {
                    self.record_failure()
                }
            },
            RecordOutcome::Invalid => self.record_failure(),
        }
    }
}

pub open spec fn outcome_views(s: Seq<RecordOutcome>) -> Seq<RecordOutcomeV> {
    s.map_values(|o: RecordOutcome| o@)
}

/// The outcome of every log record of a payload, in order. The caller
/// stores the rows and keeps the counters; no record ever fails the
/// export.
pub fn plan_ingest(payload: &Json) -> (r: Vec<RecordOutcome>)
    ensures
        outcome_views(r@) == spec_log_records(payload@).map_values(|j: JsonV| spec_classify(j)),
{
    let records = log_records(payload);
    let ghost want = spec_log_records(payload@).map_values(|j: JsonV| spec_classify(j));
    let mut out: Vec<RecordOutcome> = Vec::new();
    let mut i: usize = 0;
    while i < records.len()
        invariant
            i <= records@.len(),
            ref_views(records@) == spec_log_records(payload@),
            want == spec_log_records(payload@).map_values(|j: JsonV| spec_classify(j)),
            outcome_views(out@) == want.subrange(0, i as int),
        decreases records@.len() - i,
    {
        let o = classify_record(records[i]);
        let ghost before = out@;
        out.push(o);
        proof {
            assert(ref_views(records@)[i as int] == records@[i as int]@);
            assert(outcome_views(out@) =~= outcome_views(before).push(o@));
            assert(want.subrange(0, i + 1) =~= want.subrange(0, i as int).push(want[i as int]));
        }
        i += 1;
    }
    assert(want.subrange(0, i as int) =~= want);
    out
}

/// Whether `n` is what the record's attributes say under `key`: read
/// from the first entry of `attributes` whose `key` member is `key` (its
/// `value`'s `intValue` as an integer, its `doubleValue` as written), or
/// nothing when no entry has that key.
pub open spec fn reads_attribute(record: JsonV, key: Seq<char>, n: NumericAttrV) -> bool {
    let attrs = array_of(record.get("attributes"@));
    let nothing = NumericAttrV { int_value: None, double_value: None };
    ||| exists|i: int| #![trigger attrs[i]] {
        &&& 0 <= i < attrs.len()
        &&& str_field(attrs[i], "key"@) == Some(key)
        &&& forall|j: int| 0 <= j < i ==> str_field(#[trigger] attrs[j], "key"@) != Some(key)
        &&& n == match attrs[i].get("value"@) {
            Some(v) => NumericAttrV { int_value: member_i64(v, "intValue"@), double_value: v.get("doubleValue"@) },
            None => nothing,
        }
    }
    ||| (forall|i: int| 0 <= i < attrs.len() ==> str_field(#[trigger] attrs[i], "key"@) != Some(key)) && n == nothing
}

proof fn lemma_numeric_attr_reads(record: JsonV, key: Seq<char>)
    ensures
        reads_attribute(record, key, spec_numeric_attr(record, key)),
{
    let attrs = array_of(record.get("attributes"@));
    let p = attr_keyed(key);
    lemma_first_match_found(attrs, p);
    match first_match(attrs, p) {
        Some(i) => {
            assert(str_field(attrs[i], "key"@) == Some(key));
            assert forall|j: int| 0 <= j < i implies str_field(#[trigger] attrs[j], "key"@) != Some(key) by {
                assert(!p(attrs[j]));
            }
        },
        None => {
            assert forall|j: int| 0 <= j < attrs.len() implies str_field(#[trigger] attrs[j], "key"@) != Some(key) by {
                assert(!p(attrs[j]));
            }
        },
    }
}

/// Each numeric column of a stored row reads its own attribute: the cost
/// from `cost_usd`, the token counts from `input_tokens`,
/// `output_tokens`, `cache_read_tokens` and `cache_creation_tokens`, and
/// the duration from `duration_ms` (see [`reads_attribute`]).
pub proof fn law_each_column_reads_its_own_attribute(record: JsonV, event_type: EventType)
    ensures
        spec_parse_event(record, event_type) matches Some(row) ==> {
            &&& reads_attribute(record, "cost_usd"@, row.cost_usd)
            &&& reads_attribute(record, "input_tokens"@, row.input_tokens)
            &&& reads_attribute(record, "output_tokens"@, row.output_tokens)
            &&& reads_attribute(record, "cache_read_tokens"@, row.cache_read_tokens)
            &&& reads_attribute(record, "cache_creation_tokens"@, row.cache_creation_tokens)
            &&& reads_attribute(record, "duration_ms"@, row.duration_ms)
        },
{
    lemma_numeric_attr_reads(record, "cost_usd"@);
    lemma_numeric_attr_reads(record, "input_tokens"@);
    lemma_numeric_attr_reads(record, "output_tokens"@);
    lemma_numeric_attr_reads(record, "cache_read_tokens"@);
    lemma_numeric_attr_reads(record, "cache_creation_tokens"@);
    lemma_numeric_attr_reads(record, "duration_ms"@);
}

/// Whether `s` is the string the record's attributes hold under `key`:
/// the `stringValue` of the `value` of the first entry of `attributes`
/// whose `key` member is `key`, or nothing when no entry has that key.
pub open spec fn reads_string_attribute(record: JsonV, key: Seq<char>, s: Option<Seq<char>>) -> bool {
    let attrs = array_of(record.get("attributes"@));
    ||| exists|i: int| #![trigger attrs[i]] {
        &&& 0 <= i < attrs.len()
        &&& str_field(attrs[i], "key"@) == Some(key)
        &&& forall|j: int| 0 <= j < i ==> str_field(#[trigger] attrs[j], "key"@) != Some(key)
        &&& s == match attrs[i].get("value"@) {
            Some(v) => str_field(v, "stringValue"@),
            None => None,
        }
    }
    ||| (forall|i: int| 0 <= i < attrs.len() ==> str_field(#[trigger] attrs[i], "key"@) != Some(key)) && s is None
}

proof fn lemma_attr_str_reads(record: JsonV, key: Seq<char>)
    ensures
        reads_string_attribute(record, key, spec_attr_str(record, key)),
{
    let attrs = array_of(record.get("attributes"@));
    let p = attr_keyed(key);
    lemma_first_match_found(attrs, p);
    match first_match(attrs, p) {
        Some(i) => {
            assert(str_field(attrs[i], "key"@) == Some(key));
            assert forall|j: int| 0 <= j < i implies str_field(#[trigger] attrs[j], "key"@) != Some(key) by {
                assert(!p(attrs[j]));
            }
        },
        None => {
            assert forall|j: int| 0 <= j < attrs.len() implies str_field(#[trigger] attrs[j], "key"@) != Some(key) by {
                assert(!p(attrs[j]));
            }
        },
    }
}

/// Each text column of a row reads its own attribute: the session from
/// `session.id` (a row exists only with one), and the request id, model,
/// request origin and error from `request_id`, `model`, `query_source` and
/// `error`; the row keeps the event type it was parsed as.
pub proof fn law_each_text_column_reads_its_own_attribute(record: JsonV, event_type: EventType)
    ensures
        spec_parse_event(record, event_type) matches Some(row) ==> {
            &&& reads_string_attribute(record, "session.id"@, Some(row.session_id))
            &&& reads_string_attribute(record, "request_id"@, row.request_id)
            &&& reads_string_attribute(record, "model"@, row.model)
            &&& reads_string_attribute(record, "query_source"@, row.query_source)
            &&& reads_string_attribute(record, "error"@, row.error)
            &&& row.event_type == event_type
        },
{
    lemma_attr_str_reads(record, "session.id"@);
    lemma_attr_str_reads(record, "request_id"@);
    lemma_attr_str_reads(record, "model"@);
    lemma_attr_str_reads(record, "query_source"@);
    lemma_attr_str_reads(record, "error"@);
}

} // verus!
