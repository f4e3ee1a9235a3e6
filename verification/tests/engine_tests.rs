use usage_tracker::alerts::{default_burst_cooldown_minutes, default_burst_enabled, default_burst_window_minutes};
use usage_tracker::backfill::{
    aggregate_sessions, merge_parse_stats, offset_from_stored, plan_file, request_action, session_outcome,
    BackfillInfo, BackfillState, BackfillSummary, FilePlan, RequestAction, SessionOutcome,
};
use usage_tracker::civil::{civil_from_days, days_from_civil};
use usage_tracker::db::{future_schema_message, plan_migrations, schema_version_of, should_migrate_legacy};
use usage_tracker::pricing::{cache_path, lookup_key, strip_date_suffix, UsageTokens};
use usage_tracker::queries::{
    boundaries_from_midnights, order_clause, page_limit, Facets, ProjectFacet, QuerySourceFacet, RangeFacet, SessionSort,
    SqlParam, TrailingWindows,
};
use usage_tracker::text::decimal;
use usage_tracker::tray_render::{row_text, Row};
use usage_tracker::budgets::Band;
use usage_tracker::transcript::{AssistantUsage, ParseStats};

fn line(session: &str, ts: i64, cwd: Option<&str>) -> AssistantUsage {
    AssistantUsage {
        request_id: Some(format!("r{ts}")),
        session_id: session.into(),
        timestamp_ms: ts,
        model: None,
        cwd: cwd.map(|c| c.to_string()),
        is_sidechain: false,
        input_tokens: 1,
        output_tokens: 1,
        cache_read_tokens: 0,
        cache_creation_tokens: 0,
        cache_creation_5m_tokens: None,
        cache_creation_1h_tokens: Some(3),
    }
}

#[test]
fn sessions_aggregate_first_cwd_and_time_span() {
    let lines = vec![line("a", 5, None), line("b", 1, Some("/b")), line("a", 2, Some("/a1")), line("a", 9, Some("/a2"))];
    let aggs = aggregate_sessions(&lines);
    assert_eq!(aggs.len(), 2);
    assert_eq!(aggs[0].session_id, "a");
    assert_eq!(aggs[0].cwd.as_deref(), Some("/a1"));
    assert_eq!((aggs[0].first_ms, aggs[0].last_ms), (2, 9));
    assert_eq!(aggs[1].session_id, "b");
}

#[test]
fn offsets_reset_on_truncation_and_skip_unchanged_files() {
    assert_eq!(plan_file(100, 40), FilePlan { reset: false, read_from: Some(40) });
    assert_eq!(plan_file(40, 40), FilePlan { reset: false, read_from: None });
    assert_eq!(plan_file(10, 40), FilePlan { reset: true, read_from: Some(0) });
    assert_eq!(plan_file(0, 40), FilePlan { reset: true, read_from: None });
    assert_eq!(offset_from_stored(Some(-3)), 0);
    assert_eq!(offset_from_stored(Some(17)), 17);
    assert_eq!(offset_from_stored(None), 0);
}

#[test]
fn existing_rows_win_and_only_missing_splits_fill() {
    let l = line("a", 1, None);
    assert_eq!(request_action(&l, None), RequestAction::Insert);
    assert_eq!(request_action(&l, Some((None, None))), RequestAction::Dedup { fill_split: true });
    assert_eq!(request_action(&l, Some((None, Some(1)))), RequestAction::Dedup { fill_split: false });
    let mut no_id = l.clone();
    no_id.request_id = None;
    assert_eq!(request_action(&no_id, None), RequestAction::Ignore);
    assert_eq!(session_outcome(&None, true), SessionOutcome::Created);
    assert_eq!(session_outcome(&Some(None), true), SessionOutcome::Healed);
    assert_eq!(session_outcome(&Some(Some("/x".into())), true), SessionOutcome::Unchanged);
}

#[test]
fn pass_bookkeeping_and_stats_merge() {
    let mut total = ParseStats::default();
    merge_parse_stats(&mut total, &ParseStats { lines_read: 3, assistant_lines: 1, skipped_lines: 2, malformed_lines: 0, invalid_assistant_lines: 0 });
    merge_parse_stats(&mut total, &ParseStats { lines_read: 1, assistant_lines: 0, skipped_lines: 0, malformed_lines: 1, invalid_assistant_lines: 0 });
    assert_eq!(total, ParseStats { lines_read: 4, assistant_lines: 1, skipped_lines: 2, malformed_lines: 1, invalid_assistant_lines: 0 });
    let mut state = BackfillState(BackfillInfo::default());
    state.begin_pass();
    assert!(state.0.running);
    let summary = BackfillSummary { files_discovered: 2, ..BackfillSummary::default() };
    state.finish_pass(summary);
    assert_eq!(state.0, BackfillInfo { running: false, last: Some(summary) });
}

#[test]
fn civil_conversions_roundtrip() {
    assert_eq!(civil_from_days(0), (1970, 1, 1));
    assert_eq!(civil_from_days(-1), (1969, 12, 31));
    assert_eq!(civil_from_days(11016), (2000, 2, 29));
    assert_eq!(civil_from_days(20615), (2026, 6, 11));
    for days in [-719468i64, -1, 0, 59, 60, 365, 10956, 20615, 2932896] {
        let (y, m, d) = civil_from_days(days);
        assert_eq!(days_from_civil(y, m, d), Some(days), "{days}");
    }
    assert_eq!(days_from_civil(2026, 2, 29), None);
}

#[test]
fn model_names_resolve_to_table_keys() {
    let keys: Vec<String> = ["fable-5", "haiku-3-20240307", "haiku-3-20231001", "sonnet-4-5"]
        .iter()
        .map(|s| s.to_string())
        .collect();
    assert_eq!(lookup_key(&keys, "fable-5"), Some(0));
    assert_eq!(lookup_key(&keys, "anthropic/fable-5"), Some(0));
    assert_eq!(lookup_key(&keys, " fable-5 "), Some(0));
    assert_eq!(lookup_key(&keys, "fable-5-20991231"), Some(0));
    assert_eq!(lookup_key(&keys, "sonnet-4-5-20250929"), Some(3));
    assert_eq!(lookup_key(&keys, "haiku-3"), Some(1), "newest dated variant");
    assert_eq!(lookup_key(&keys, ""), None);
    assert_eq!(lookup_key(&keys, "gpt-4o"), None);
    assert_eq!(lookup_key(&keys, "<synthetic>"), None);
    assert_eq!(strip_date_suffix("sonnet-4-5-20250929").as_deref(), Some("sonnet-4-5"));
    assert_eq!(strip_date_suffix("-20250929"), None);
    assert_eq!(strip_date_suffix("model-2025092x"), None);
    assert_eq!(cache_path("/data"), "/data/pricing-cache.json");
    assert_eq!(cache_path("/data/"), "/data/pricing-cache.json");
    assert_eq!(cache_path("rel/dir"), "rel/dir/pricing-cache.json");
}

#[test]
fn cache_write_split_prices_remainder_at_5m() {
    let mut t = UsageTokens { cache_creation_tokens: 100, ..UsageTokens::default() };
    assert_eq!(t.write_split(), (100, 0));
    t.cache_creation_1h_tokens = Some(30);
    assert_eq!(t.write_split(), (70, 30));
    t.cache_creation_5m_tokens = Some(90);
    assert_eq!(t.write_split(), (90, 30));
}

fn windows() -> TrailingWindows {
    TrailingWindows { day_start: 100, day_end: 200, week_start: 10, week_end: 200, month_start: 1, month_end: 200 }
}

#[test]
fn facets_compile_to_sql_conditions() {
    assert!(Facets::default().filter(true, &windows()).conditions.is_empty());
    let f = Facets {
        range: RangeFacet::Week,
        project: ProjectFacet::Cwd("/p".into()),
        model: Some("m".into()),
        query_source: QuerySourceFacet::Main,
    };
    let filter = f.filter(true, &windows());
    assert_eq!(
        filter.conditions,
        [
            "r.timestamp_ms >= ?",
            "r.timestamp_ms < ?",
            "r.model = ?",
            "(r.query_source IS NULL OR r.query_source <> 'subagent')",
            "r.session_id IN (SELECT session_id FROM sessions WHERE cwd = ?)",
        ]
    );
    assert_eq!(filter.params, vec![SqlParam::Int(10), SqlParam::Int(200), SqlParam::Text("m".into()), SqlParam::Text("/p".into())]);
    assert_eq!(
        filter.where_clause(),
        "WHERE r.timestamp_ms >= ? AND r.timestamp_ms < ? AND r.model = ? AND (r.query_source IS NULL OR r.query_source <> 'subagent') AND r.session_id IN (SELECT session_id FROM sessions WHERE cwd = ?)"
    );
    let untimed = f.filter(false, &windows());
    assert_eq!(untimed.conditions.len(), 3);
    assert_eq!(RangeFacet::Custom { start_ms: 3, end_ms: 4 }.resolve(&windows()), (Some(3), Some(4)));
    assert_eq!(RangeFacet::All.resolve(&windows()), (None, None));
}

#[test]
fn session_paging_and_ordering() {
    assert_eq!(page_limit(None), 200);
    assert_eq!(page_limit(Some(0)), 1);
    assert_eq!(page_limit(Some(5000)), 2000);
    assert_eq!(order_clause(SessionSort::Cost, true), "g.cost DESC, g.session_id");
    assert_eq!(order_clause(SessionSort::Start, false), "g.first_ms ASC, g.session_id");
}

#[test]
fn series_buckets_clamp_to_the_window() {
    assert_eq!(boundaries_from_midnights(150, 350, &[100, 200, 300, 400]), vec![150, 200, 300, 350]);
    assert_eq!(boundaries_from_midnights(100, 300, &[100, 200, 300]), vec![100, 200, 300]);
    assert!(boundaries_from_midnights(5, 5, &[0]).is_empty());
}

#[test]
fn schema_versions_and_migrations() {
    assert_eq!(schema_version_of(Some("4")), 4);
    assert_eq!(schema_version_of(Some("x")), 0);
    assert_eq!(schema_version_of(None), 0);
    assert_eq!(plan_migrations(2, 4), Ok(vec![3, 4]));
    assert_eq!(plan_migrations(4, 4), Ok(vec![]));
    assert_eq!(plan_migrations(5, 4), Err((5, 4)));
    assert_eq!(
        future_schema_message(5, 4),
        "database schema version 5 is newer than supported version 4; refusing to open"
    );
    assert!(should_migrate_legacy(false, true));
    assert!(!should_migrate_legacy(true, true));
}

#[test]
fn decimal_text_and_tray_rows() {
    assert_eq!(decimal(0), "0");
    assert_eq!(decimal(43177), "43177");
    assert_eq!(decimal(u64::MAX), u64::MAX.to_string());
    assert_eq!(row_text(&Row { marker: "D", percent: 34, band: Band::Green }), "D 34%");
    assert_eq!(row_text(&Row { marker: "M", percent: -2, band: Band::Red }), "M -2%");
}

#[test]
fn usage_tokens_carry_the_line_counts_and_split() {
    let mut l = line("a", 1, None);
    l.input_tokens = 11;
    l.output_tokens = 22;
    l.cache_read_tokens = 33;
    l.cache_creation_tokens = 44;
    l.cache_creation_5m_tokens = Some(4);
    let t = UsageTokens::from_usage(&l);
    assert_eq!(
        (t.input_tokens, t.output_tokens, t.cache_read_tokens, t.cache_creation_tokens),
        (11, 22, 33, 44)
    );
    assert_eq!((t.cache_creation_5m_tokens, t.cache_creation_1h_tokens), (Some(4), Some(3)));
    assert_eq!(t.write_split(), (41, 3));
}

#[test]
fn burst_rule_defaults() {
    assert_eq!(default_burst_window_minutes(), 10);
    assert_eq!(default_burst_cooldown_minutes(), 15);
    assert!(default_burst_enabled(), "burst is enabled by default");
}

#[test]
fn pass_summary_counts_each_store_outcome() {
    let mut summary = BackfillSummary::default();
    summary.count_request(RequestAction::Insert, true);
    summary.count_request(RequestAction::Insert, false);
    summary.count_request(RequestAction::Dedup { fill_split: true }, true);
    summary.count_request(RequestAction::Dedup { fill_split: false }, true);
    summary.count_request(RequestAction::Ignore, true);
    assert_eq!(
        (summary.requests_inserted, summary.unknown_model_rows, summary.requests_deduped, summary.splits_filled),
        (2, 1, 2, 1)
    );
    summary.count_session(SessionOutcome::Created);
    summary.count_session(SessionOutcome::Healed);
    summary.count_session(SessionOutcome::Unchanged);
    assert_eq!((summary.sessions_created, summary.sessions_healed), (1, 1));
}
