//! Decisions of the transcript backfill engine: where a file resumes,
//! what happens to each collapsed request, how sessions are aggregated,
//! and the pass bookkeeping.
//!
//! Rows are keyed by `request_id`; an existing row (live or an earlier
//! pass) always wins, and backfill only fills its missing 5m/1h
//! cache-creation split. A file shorter than its stored offset was
//! truncated or replaced and is re-read from 0.
use vstd::prelude::*;
use crate::transcript::{
    AssistantUsage, AssistantUsageV, ParseStats, opt_str, first_match, lemma_first_match, lemma_first_match_found,
    usage_views,
};
use crate::text::str_eq;

verus! {

/// Outcome of one backfill pass.
#[derive(Debug, Clone, Copy, PartialEq, Eq, Structural)]
pub struct BackfillSummary {
    /// `.jsonl` files discovered under the projects root.
    pub files_discovered: u64,
    /// Files that had bytes past their stored offset this pass.
    pub files_read: u64,
    /// Files re-read from 0 because their stored offset exceeded their size.
    pub files_reset: u64,
    /// Collapsed transcript requests examined.
    pub requests_seen: u64,
    /// New rows inserted.
    pub requests_inserted: u64,
    /// Requests already stored (either source), skipped.
    pub requests_deduped: u64,
    /// Existing rows whose missing 5m/1h split was filled in.
    pub splits_filled: u64,
    /// Inserted rows without a price (model not in the pricing table).
    pub unknown_model_rows: u64,
    /// Sessions created from transcript data.
    pub sessions_created: u64,
    /// Existing sessions whose missing `cwd` was healed.
    pub sessions_healed: u64,
    /// Files or directories that could not be read or stored.
    pub io_errors: u64,
    /// Line accounting across every file read.
    pub parse: ParseStats,
    pub started_ms: i64,
    pub finished_ms: i64,
}

pub open spec fn zero_stats() -> ParseStats {
    ParseStats { lines_read: 0, assistant_lines: 0, skipped_lines: 0, malformed_lines: 0, invalid_assistant_lines: 0 }
}

/// The summary of a pass that has done nothing yet.
pub open spec fn empty_summary() -> BackfillSummary {
    BackfillSummary {
        files_discovered: 0,
        files_read: 0,
        files_reset: 0,
        requests_seen: 0,
        requests_inserted: 0,
        requests_deduped: 0,
        splits_filled: 0,
        unknown_model_rows: 0,
        sessions_created: 0,
        sessions_healed: 0,
        io_errors: 0,
        parse: zero_stats(),
        started_ms: 0,
        finished_ms: 0,
    }
}

impl Default for BackfillSummary {
    fn default() -> (r: BackfillSummary)
        ensures
            r == empty_summary(),
    {
        BackfillSummary {
            files_discovered: 0,
            files_read: 0,
            files_reset: 0,
            requests_seen: 0,
            requests_inserted: 0,
            requests_deduped: 0,
            splits_filled: 0,
            unknown_model_rows: 0,
            sessions_created: 0,
            sessions_healed: 0,
            io_errors: 0,
            parse: ParseStats::default(),
            started_ms: 0,
            finished_ms: 0,
        }
    }
}

/// Point-in-time backfill state.
#[derive(Debug, Clone, Copy, PartialEq, Eq, Structural)]
pub struct BackfillInfo {
    /// `true` while a pass is executing.
    pub running: bool,
    /// The most recent completed pass, if any.
    pub last: Option<BackfillSummary>,
}

impl Default for BackfillInfo {
    fn default() -> (r: BackfillInfo)
        ensures
            r == (BackfillInfo { running: false, last: None }),
    {
        BackfillInfo { running: false, last: None }
    }
}

/// The backfill state the app shares between passes and queries.
pub struct BackfillState(pub BackfillInfo);

impl BackfillState {
    /// A pass starts: the state reports it running.
    pub fn begin_pass(&mut self)
        ensures
            final(self).0 == (BackfillInfo { running: true, ..old(self).0 }),
    {
        self.0.running = true;
    }

    /// A pass ended with `summary`: no longer running, and it is the last
    /// pass.
    pub fn finish_pass(&mut self, summary: BackfillSummary)
        ensures
            final(self).0 == (BackfillInfo { running: false, last: Some(summary) }),
    {
        self.0.running = false;
        self.0.last = Some(summary);
    }
}

/// Adds one file's line accounting to the pass total.
pub fn merge_parse_stats(total: &mut ParseStats, stats: &ParseStats)
    requires
        old(total).lines_read + stats.lines_read <= u64::MAX,
        old(total).assistant_lines + stats.assistant_lines <= u64::MAX,
        old(total).skipped_lines + stats.skipped_lines <= u64::MAX,
        old(total).malformed_lines + stats.malformed_lines <= u64::MAX,
        old(total).invalid_assistant_lines + stats.invalid_assistant_lines <= u64::MAX,
    ensures
        final(total).lines_read == old(total).lines_read + stats.lines_read,
        final(total).assistant_lines == old(total).assistant_lines + stats.assistant_lines,
        final(total).skipped_lines == old(total).skipped_lines + stats.skipped_lines,
        final(total).malformed_lines == old(total).malformed_lines + stats.malformed_lines,
        final(total).invalid_assistant_lines == old(total).invalid_assistant_lines + stats.invalid_assistant_lines,
{
    total.lines_read = total.lines_read + stats.lines_read;
    total.assistant_lines = total.assistant_lines + stats.assistant_lines;
    total.skipped_lines = total.skipped_lines + stats.skipped_lines;
    total.malformed_lines = total.malformed_lines + stats.malformed_lines;
    total.invalid_assistant_lines = total.invalid_assistant_lines + stats.invalid_assistant_lines;
}

/// A stored offset as a byte position: none stored is 0, a negative one
/// is 0.
pub fn offset_from_stored(stored: Option<i64>) -> (r: u64)
    ensures
        r == (match stored {
            Some(o) => if o > 0 { o as int } else { 0 },
            None => 0,
        }),
{
    match stored {
        Some(o) => if o > 0 { o as u64 } else { 0 },
        None => 0,
    }
}

/// Where a file is read from this pass.
#[derive(Debug, Clone, Copy, PartialEq, Eq, Structural)]
pub struct FilePlan {
    /// The file is shorter than its stored offset: it was truncated or
    /// replaced, and counts as reset.
    pub reset: bool,
    /// The offset to parse from; `None` when nothing new was appended.
    pub read_from: Option<u64>,
}

/// The plan for a file of `file_len` bytes whose stored offset is `stored`.
pub fn plan_file(file_len: u64, stored: u64) -> (r: FilePlan)
    ensures
        r.reset == (file_len < stored),
        r.read_from == (if file_len < stored {
            if file_len == 0 { None } else { Some(0u64) }
        } else if file_len == stored {
            None
        } else {
            Some(stored)
        }),
{
    let reset = file_len < stored;
    let offset = if reset { 0 } else { stored };
    if file_len == offset {
        FilePlan { reset, read_from: None }
    } else {
        FilePlan { reset, read_from: Some(offset) }
    }
}

/// What to do with one collapsed request, given the split columns of an
/// existing row with its `request_id` (if one exists).
#[derive(Debug, Clone, Copy, PartialEq, Eq, Structural)]
pub enum RequestAction {
    /// No `request_id`: nothing to store.
    Ignore,
    /// Already stored; `fill_split` when the transcript can fill a missing
    /// 5m or 1h cache-creation count.
    Dedup { fill_split: bool },
    /// Not stored yet: insert it.
    Insert,
}

pub open spec fn spec_request_action(request: AssistantUsageV, existing: Option<(Option<i64>, Option<i64>)>) -> RequestAction {
    if request.request_id is None {
        RequestAction::Ignore
    } else {
        match existing {
            Some((e5, e1)) => RequestAction::Dedup {
                fill_split: (e5 is None && request.cache_creation_5m_tokens is Some)
                    || (e1 is None && request.cache_creation_1h_tokens is Some),
            },
            None => RequestAction::Insert,
        }
    }
}

/// The existing row wins; only a missing split is filled.
pub fn request_action(request: &AssistantUsage, existing: Option<(Option<i64>, Option<i64>)>) -> (r: RequestAction)
    ensures
        r == spec_request_action(request@, existing),
{
    if request.request_id.is_none() {
        return RequestAction::Ignore;
    }
    match existing {
        Some((e5, e1)) => RequestAction::Dedup {
            fill_split: (e5.is_none() && request.cache_creation_5m_tokens.is_some())
                || (e1.is_none() && request.cache_creation_1h_tokens.is_some()),
        },
        None => RequestAction::Insert,
    }
}

/// What the session upsert did, from the `cwd` the session had before
/// (`None` when it did not exist).
#[derive(Debug, Clone, Copy, PartialEq, Eq, Structural)]
pub enum SessionOutcome {
    Created,
    Healed,
    Unchanged,
}

pub fn session_outcome(existing_cwd: &Option<Option<String>>, has_cwd: bool) -> (r: SessionOutcome)
    ensures
        r == (match existing_cwd {
            None => SessionOutcome::Created,
            Some(None) => if has_cwd { SessionOutcome::Healed } else { SessionOutcome::Unchanged },
            Some(Some(_)) => SessionOutcome::Unchanged,
        }),
{
    match existing_cwd {
        None => SessionOutcome::Created,
        Some(None) => if has_cwd { SessionOutcome::Healed } else { SessionOutcome::Unchanged },
        Some(Some(_)) => SessionOutcome::Unchanged,
    }
}

impl BackfillSummary {
    /// Counts one transcript request by what storing it did: a dedup (and
    /// a filled split), or an insert (and, without a price, an unknown
    /// model row); an ignored request counts nothing.
    pub fn count_request(&mut self, action: RequestAction, priced: bool)
        requires
            old(self).requests_inserted < u64::MAX,
            old(self).requests_deduped < u64::MAX,
            old(self).splits_filled < u64::MAX,
            old(self).unknown_model_rows < u64::MAX,
        ensures
            final(self).requests_deduped == old(self).requests_deduped + (if action is Dedup { 1int } else { 0 }),
            final(self).splits_filled == old(self).splits_filled
                + (if action matches RequestAction::Dedup { fill_split: true } { 1int } else { 0 }),
            final(self).requests_inserted == old(self).requests_inserted + (if action is Insert { 1int } else { 0 }),
            final(self).unknown_model_rows == old(self).unknown_model_rows
                + (if action is Insert && !priced { 1int } else { 0 }),
            final(self).sessions_created == old(self).sessions_created,
            final(self).sessions_healed == old(self).sessions_healed,
            final(self).files_discovered == old(self).files_discovered,
            final(self).files_read == old(self).files_read,
            final(self).files_reset == old(self).files_reset,
            final(self).requests_seen == old(self).requests_seen,
            final(self).io_errors == old(self).io_errors,
            final(self).parse == old(self).parse,
            final(self).started_ms == old(self).started_ms,
            final(self).finished_ms == old(self).finished_ms,
    {
        match action {
            RequestAction::Ignore => {},
            RequestAction::Dedup { fill_split } => {
                self.requests_deduped = self.requests_deduped + 1;
                if fill_split {
                    self.splits_filled = self.splits_filled + 1;
                }
            },
            RequestAction::Insert => {
                if !priced {
                    self.unknown_model_rows = self.unknown_model_rows + 1;
                }
                self.requests_inserted = self.requests_inserted + 1;
            },
        }
    }

    /// Counts one session upsert by its outcome.
    pub fn count_session(&mut self, outcome: SessionOutcome)
        requires
            old(self).sessions_created < u64::MAX,
            old(self).sessions_healed < u64::MAX,
        ensures
            final(self).sessions_created == old(self).sessions_created + (if outcome == SessionOutcome::Created { 1int } else { 0 }),
            final(self).sessions_healed == old(self).sessions_healed + (if outcome == SessionOutcome::Healed { 1int } else { 0 }),
            final(self).requests_inserted == old(self).requests_inserted,
            final(self).requests_deduped == old(self).requests_deduped,
            final(self).splits_filled == old(self).splits_filled,
            final(self).unknown_model_rows == old(self).unknown_model_rows,
            final(self).files_discovered == old(self).files_discovered,
            final(self).files_read == old(self).files_read,
            final(self).files_reset == old(self).files_reset,
            final(self).requests_seen == old(self).requests_seen,
            final(self).io_errors == old(self).io_errors,
            final(self).parse == old(self).parse,
            final(self).started_ms == old(self).started_ms,
            final(self).finished_ms == old(self).finished_ms,
    {
        match outcome {
            SessionOutcome::Created => self.sessions_created = self.sessions_created + 1,
            SessionOutcome::Healed => self.sessions_healed = self.sessions_healed + 1,
            SessionOutcome::Unchanged => {},
        }
    }
}

/// One session as seen in a parse.
pub struct SessionAgg {
    pub session_id: String,
    /// The first `cwd` any of its lines carried.
    pub cwd: Option<String>,
    pub first_ms: i64,
    pub last_ms: i64,
}

pub struct SessionAggV {
    pub session_id: Seq<char>,
    pub cwd: Option<Seq<char>>,
    pub first_ms: int,
    pub last_ms: int,
}

impl View for SessionAgg {
    type V = SessionAggV;

    open spec fn view(&self) -> SessionAggV {
        SessionAggV {
            session_id: self.session_id@,
            cwd: opt_str(self.cwd),
            first_ms: self.first_ms as int,
            last_ms: self.last_ms as int,
        }
    }
}

pub open spec fn agg_views(s: Seq<SessionAgg>) -> Seq<SessionAggV> {
    s.map_values(|a: SessionAgg| a@)
}

pub open spec fn has_session(sid: Seq<char>) -> spec_fn(SessionAggV) -> bool {
    |a: SessionAggV| a.session_id == sid
}

pub open spec fn min_int(a: int, b: int) -> int {
    if a <= b { a } else { b }
}

pub open spec fn max_int(a: int, b: int) -> int {
    if a >= b { a } else { b }
}

/// How one line widens the aggregate of its session.
pub open spec fn agg_step(acc: Seq<SessionAggV>, l: AssistantUsageV) -> Seq<SessionAggV> {
    match first_match(acc, has_session(l.session_id)) {
        None => acc.push(SessionAggV { session_id: l.session_id, cwd: l.cwd, first_ms: l.timestamp_ms, last_ms: l.timestamp_ms }),
        Some(i) => acc.update(i, SessionAggV {
            session_id: acc[i].session_id,
            cwd: if acc[i].cwd is Some { acc[i].cwd } else { l.cwd },
            first_ms: min_int(acc[i].first_ms, l.timestamp_ms),
            last_ms: max_int(acc[i].last_ms, l.timestamp_ms),
        }),
    }
}

/// One aggregate per session, in first-seen order.
pub open spec fn spec_aggregate_sessions(lines: Seq<AssistantUsageV>) -> Seq<SessionAggV>
    decreases lines.len(),
{
    if lines.len() == 0 {
        Seq::empty()
    } else {
        agg_step(spec_aggregate_sessions(lines.drop_last()), lines.last())
    }
}

fn find_session(aggs: &Vec<SessionAgg>, sid: &str) -> (r: Option<usize>)
    ensures
        match r {
            Some(j) => j < aggs@.len() && first_match(agg_views(aggs@), has_session(sid@)) == Some(j as int),
            None => first_match(agg_views(aggs@), has_session(sid@)) is None,
        },
{
    let ghost acc = agg_views(aggs@);
    let mut k: usize = 0;
    while k < aggs.len()
        invariant
            k <= aggs@.len(),
            acc == agg_views(aggs@),
            forall|j: int| 0 <= j < k ==> !has_session(sid@)(#[trigger] acc[j]),
        decreases aggs@.len() - k,
    {
        if str_eq(aggs[k].session_id.as_str(), sid) {
            proof { lemma_first_match(acc, has_session(sid@), k as int); }
            return Some(k);
        }
        k += 1;
    }
    proof { lemma_first_match(acc, has_session(sid@), k as int); }
    None
}

fn clone_opt(o: &Option<String>) -> (r: Option<String>)
    ensures
        opt_str(r) == opt_str(*o),
{
    match o {
        Some(s) => Some(s.clone()),
        None => None,
    }
}

/// The session mappings a parse observed: per session, the first `cwd`
/// seen and the earliest and latest line timestamps. All lines count,
/// synthetic ones included.
pub fn aggregate_sessions(lines: &[AssistantUsage]) -> (r: Vec<SessionAgg>)
    ensures
        agg_views(r@) == spec_aggregate_sessions(usage_views(lines@)),
{
    let mut aggs: Vec<SessionAgg> = Vec::new();
    let ghost all = usage_views(lines@);
    assert(agg_views(aggs@) =~= spec_aggregate_sessions(all.subrange(0, 0)));
    let mut i: usize = 0;
    while i < lines.len()
        invariant
            i <= lines@.len(),
            all == usage_views(lines@),
            agg_views(aggs@) == spec_aggregate_sessions(all.subrange(0, i as int)),
        decreases lines@.len() - i,
    {
        let line = &lines[i];
        proof {
            assert(all.subrange(0, i + 1).drop_last() =~= all.subrange(0, i as int));
            assert(all.subrange(0, i + 1).last() == line@);
        }
        let ghost acc = agg_views(aggs@);
        match find_session(&aggs, line.session_id.as_str()) {
            None => {
                let a = SessionAgg {
                    session_id: line.session_id.clone(),
                    cwd: clone_opt(&line.cwd),
                    first_ms: line.timestamp_ms,
                    last_ms: line.timestamp_ms,
                };
                let ghost before = aggs@;
                aggs.push(a);
                proof { assert(agg_views(aggs@) =~= agg_views(before).push(a@)); }
            },
            Some(j) => {
                let cwd = if aggs[j].cwd.is_some() { clone_opt(&aggs[j].cwd) } else { clone_opt(&line.cwd) };
                let first_ms = if aggs[j].first_ms <= line.timestamp_ms { aggs[j].first_ms } else { line.timestamp_ms };
                let last_ms = if aggs[j].last_ms >= line.timestamp_ms { aggs[j].last_ms } else { line.timestamp_ms };
                let a = SessionAgg { session_id: aggs[j].session_id.clone(), cwd, first_ms, last_ms };
                let ghost before = aggs@;
                aggs.set(j, a);
                proof { assert(agg_views(aggs@) =~= agg_views(before).update(j as int, a@)); }
            },
        }
        i += 1;
    }
    assert(all.subrange(0, lines@.len() as int) =~= all);
    aggs
}

/// No two aggregates share a session.
pub open spec fn span_distinct(aggs: Seq<SessionAggV>) -> bool {
    forall|i: int, j: int| 0 <= i < j < aggs.len() ==> (#[trigger] aggs[i]).session_id != (#[trigger] aggs[j]).session_id
}

/// Every aggregate's span is ordered.
pub open spec fn span_ordered(aggs: Seq<SessionAggV>) -> bool {
    forall|i: int| 0 <= i < aggs.len() ==> (#[trigger] aggs[i]).first_ms <= aggs[i].last_ms
}

/// Every line falls within the span of an aggregate of its session.
pub open spec fn span_covers(lines: Seq<AssistantUsageV>, aggs: Seq<SessionAggV>) -> bool {
    forall|k: int| 0 <= k < lines.len() ==> exists|i: int| 0 <= i < aggs.len()
        && (#[trigger] aggs[i]).session_id == (#[trigger] lines[k]).session_id
        && aggs[i].first_ms <= lines[k].timestamp_ms <= aggs[i].last_ms
}

/// Every aggregate's first (`first == true`) or last timestamp is that of
/// a line of its session.
pub open spec fn span_attained(lines: Seq<AssistantUsageV>, aggs: Seq<SessionAggV>, first: bool) -> bool {
    forall|i: int| 0 <= i < aggs.len() ==> exists|k: int| 0 <= k < lines.len()
        && (#[trigger] lines[k]).session_id == (#[trigger] aggs[i]).session_id
        && lines[k].timestamp_ms == (if first { aggs[i].first_ms } else { aggs[i].last_ms })
}

/// The aggregates describe the lines' sessions: one per session, each
/// spanning from the earliest to the latest timestamp of its lines.
pub open spec fn aggregates_span(lines: Seq<AssistantUsageV>, aggs: Seq<SessionAggV>) -> bool {
    &&& span_distinct(aggs)
    &&& span_ordered(aggs)
    &&& span_covers(lines, aggs)
    &&& span_attained(lines, aggs, true)
    &&& span_attained(lines, aggs, false)
}

/// Session aggregation keeps one aggregate per session whose first and
/// last timestamps are the earliest and latest of its lines.
pub proof fn law_session_aggregates_span(lines: Seq<AssistantUsageV>)
    ensures
        aggregates_span(lines, spec_aggregate_sessions(lines)),
    decreases lines.len(),
{
    if lines.len() > 0 {
        let prev_lines = lines.drop_last();
        law_session_aggregates_span(prev_lines);
        let acc = spec_aggregate_sessions(prev_lines);
        let l = lines.last();
        lemma_first_match_found(acc, has_session(l.session_id));
        let out = agg_step(acc, l);
        match first_match(acc, has_session(l.session_id)) {
            None => {
                let a = SessionAggV { session_id: l.session_id, cwd: l.cwd, first_ms: l.timestamp_ms, last_ms: l.timestamp_ms };
                assert(out == acc.push(a));
                lemma_span_new_distinct(acc, a);
                lemma_span_new_ordered(acc, a);
                lemma_span_new_covers(lines, acc);
                lemma_span_new_attained(lines, acc, true);
                lemma_span_new_attained(lines, acc, false);
            },
            Some(m) => {
                lemma_span_update_ordered(lines, acc, m);
                lemma_span_update_covers(lines, acc, m);
                lemma_span_update_attained(lines, acc, m, true);
                lemma_span_update_attained(lines, acc, m, false);
            },
        }
    }
}

proof fn lemma_span_new_distinct(acc: Seq<SessionAggV>, a: SessionAggV)
    requires
        span_distinct(acc),
        forall|j: int| 0 <= j < acc.len() ==> !has_session(a.session_id)(#[trigger] acc[j]),
    ensures
        span_distinct(acc.push(a)),
{
    let out = acc.push(a);
    assert forall|i: int, j: int| 0 <= i < j < out.len() implies (#[trigger] out[i]).session_id != (#[trigger] out[j]).session_id by {
        if j == acc.len() {
            assert(!has_session(a.session_id)(acc[i]));
        } else {
            assert(out[i] == acc[i] && out[j] == acc[j]);
        }
    }
}

proof fn lemma_span_new_ordered(acc: Seq<SessionAggV>, a: SessionAggV)
    requires
        span_ordered(acc),
        a.first_ms <= a.last_ms,
    ensures
        span_ordered(acc.push(a)),
{
    let out = acc.push(a);
    assert forall|i: int| 0 <= i < out.len() implies (#[trigger] out[i]).first_ms <= out[i].last_ms by {
        if i < acc.len() { assert(out[i] == acc[i]); }
    }
}

proof fn lemma_span_new_covers(lines: Seq<AssistantUsageV>, acc: Seq<SessionAggV>)
    requires
        lines.len() > 0,
        span_covers(lines.drop_last(), acc),
    ensures
        ({
            let l = lines.last();
            span_covers(lines, acc.push(SessionAggV { session_id: l.session_id, cwd: l.cwd, first_ms: l.timestamp_ms, last_ms: l.timestamp_ms }))
        }),
{
    let prev_lines = lines.drop_last();
    let l = lines.last();
    let n = lines.len() - 1;
    let a = SessionAggV { session_id: l.session_id, cwd: l.cwd, first_ms: l.timestamp_ms, last_ms: l.timestamp_ms };
    let out = acc.push(a);
    assert forall|k: int| 0 <= k < lines.len() implies exists|i: int| 0 <= i < out.len()
        && (#[trigger] out[i]).session_id == (#[trigger] lines[k]).session_id
        && out[i].first_ms <= lines[k].timestamp_ms <= out[i].last_ms by {
        if k == n {
            assert(out[acc.len() as int] == a);
        } else {
            assert(lines[k] == prev_lines[k]);
            let i = choose|i: int| 0 <= i < acc.len()
                && (#[trigger] acc[i]).session_id == (#[trigger] prev_lines[k]).session_id
                && acc[i].first_ms <= prev_lines[k].timestamp_ms <= acc[i].last_ms;
            assert(out[i] == acc[i]);
        }
    }
}

proof fn lemma_span_new_attained(lines: Seq<AssistantUsageV>, acc: Seq<SessionAggV>, first: bool)
    requires
        lines.len() > 0,
        span_attained(lines.drop_last(), acc, first),
    ensures
        ({
            let l = lines.last();
            span_attained(lines, acc.push(SessionAggV { session_id: l.session_id, cwd: l.cwd, first_ms: l.timestamp_ms, last_ms: l.timestamp_ms }), first)
        }),
{
    let prev_lines = lines.drop_last();
    let l = lines.last();
    let n = lines.len() - 1;
    let a = SessionAggV { session_id: l.session_id, cwd: l.cwd, first_ms: l.timestamp_ms, last_ms: l.timestamp_ms };
    let out = acc.push(a);
    assert forall|i: int| 0 <= i < out.len() implies exists|k: int| 0 <= k < lines.len()
        && (#[trigger] lines[k]).session_id == (#[trigger] out[i]).session_id
        && lines[k].timestamp_ms == (if first { out[i].first_ms } else { out[i].last_ms }) by {
        if i == acc.len() {
            assert(lines[n] == l);
            assert(out[i] == a);
        } else {
            assert(out[i] == acc[i]);
            let k = choose|k: int| 0 <= k < prev_lines.len()
                && (#[trigger] prev_lines[k]).session_id == (#[trigger] acc[i]).session_id
                && prev_lines[k].timestamp_ms == (if first { acc[i].first_ms } else { acc[i].last_ms });
            assert(lines[k] == prev_lines[k]);
        }
    }
}

/// The aggregate a line of an already seen session widens to.
pub open spec fn widened(old: SessionAggV, l: AssistantUsageV) -> SessionAggV {
    SessionAggV {
        session_id: old.session_id,
        cwd: if old.cwd is Some { old.cwd } else { l.cwd },
        first_ms: min_int(old.first_ms, l.timestamp_ms),
        last_ms: max_int(old.last_ms, l.timestamp_ms),
    }
}

proof fn lemma_span_update_ordered(lines: Seq<AssistantUsageV>, acc: Seq<SessionAggV>, m: int)
    requires
        lines.len() > 0,
        span_distinct(acc),
        span_ordered(acc),
        first_match(acc, has_session(lines.last().session_id)) == Some(m),
        0 <= m < acc.len(),
    ensures
        agg_step(acc, lines.last()) == acc.update(m, widened(acc[m], lines.last())),
        span_distinct(acc.update(m, widened(acc[m], lines.last()))),
        span_ordered(acc.update(m, widened(acc[m], lines.last()))),
{
    let out = acc.update(m, widened(acc[m], lines.last()));
    assert forall|i: int, j: int| 0 <= i < j < out.len() implies (#[trigger] out[i]).session_id != (#[trigger] out[j]).session_id by {
        assert(out[i].session_id == acc[i].session_id);
        assert(out[j].session_id == acc[j].session_id);
    }
    assert forall|i: int| 0 <= i < out.len() implies (#[trigger] out[i]).first_ms <= out[i].last_ms by {
        if i != m { assert(out[i] == acc[i]); } else { assert(acc[m].first_ms <= acc[m].last_ms); }
    }
}

proof fn lemma_span_update_covers(lines: Seq<AssistantUsageV>, acc: Seq<SessionAggV>, m: int)
    requires
        lines.len() > 0,
        span_ordered(acc),
        span_covers(lines.drop_last(), acc),
        0 <= m < acc.len(),
        has_session(lines.last().session_id)(acc[m]),
    ensures
        span_covers(lines, acc.update(m, widened(acc[m], lines.last()))),
{
    let prev_lines = lines.drop_last();
    let l = lines.last();
    let n = lines.len() - 1;
    let a = widened(acc[m], l);
    let out = acc.update(m, a);
    assert forall|k: int| 0 <= k < lines.len() implies exists|i: int| 0 <= i < out.len()
        && (#[trigger] out[i]).session_id == (#[trigger] lines[k]).session_id
        && out[i].first_ms <= lines[k].timestamp_ms <= out[i].last_ms by {
        if k == n {
            assert(out[m] == a);
            assert(acc[m].first_ms <= acc[m].last_ms);
        } else {
            assert(lines[k] == prev_lines[k]);
            let i = choose|i: int| 0 <= i < acc.len()
                && (#[trigger] acc[i]).session_id == (#[trigger] prev_lines[k]).session_id
                && acc[i].first_ms <= prev_lines[k].timestamp_ms <= acc[i].last_ms;
            if i == m { assert(out[m] == a); } else { assert(out[i] == acc[i]); }
        }
    }
}

proof fn lemma_span_update_attained(lines: Seq<AssistantUsageV>, acc: Seq<SessionAggV>, m: int, first: bool)
    requires
        lines.len() > 0,
        span_attained(lines.drop_last(), acc, first),
        0 <= m < acc.len(),
        has_session(lines.last().session_id)(acc[m]),
    ensures
        span_attained(lines, acc.update(m, widened(acc[m], lines.last())), first),
{
    let prev_lines = lines.drop_last();
    let l = lines.last();
    let n = lines.len() - 1;
    let a = widened(acc[m], l);
    let out = acc.update(m, a);
    assert forall|i: int| 0 <= i < out.len() implies exists|k: int| 0 <= k < lines.len()
        && (#[trigger] lines[k]).session_id == (#[trigger] out[i]).session_id
        && lines[k].timestamp_ms == (if first { out[i].first_ms } else { out[i].last_ms }) by {
        let k = choose|k: int| 0 <= k < prev_lines.len()
            && (#[trigger] prev_lines[k]).session_id == (#[trigger] acc[i]).session_id
            && prev_lines[k].timestamp_ms == (if first { acc[i].first_ms } else { acc[i].last_ms });
        assert(lines[k] == prev_lines[k]);
        if i == m {
            assert(out[m] == a);
            assert(lines[n] == l);
        } else {
            assert(out[i] == acc[i]);
        }
    }
}

} // verus!
