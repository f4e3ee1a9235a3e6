use chrono::{Datelike, TimeZone};
use usage_tracker::metrics::LocalInstant::{Ambiguous, Missing, Single};
use usage_tracker::queries::{day_boundaries, trailing_windows, RangeFacet, MAX_SERIES_DAYS};
use usage_tracker::metrics::{
    day_window_dates, local_day_window, local_midnight_ms, local_month_window, month_window_dates,
    midnight_lookups, midnight_probe, resolve_local_midnight, trailing_dates, trailing_day_boundaries, LocalDate,
    LocalInstant,
};

const DAY_MS: i64 = 86_400_000;

fn date(year: i32, month: u32, day: u32) -> LocalDate {
    LocalDate { year, month, day }
}

fn local_today() -> (chrono::DateTime<chrono::Local>, LocalDate) {
    let now = chrono::Local::now();
    let today = now.date_naive();
    (now, date(today.year(), today.month(), today.day()))
}

/// The `[start, end)` month window for a fixed local date.
fn month_window_for(year: i32, month: u32, day: u32) -> (i64, i64) {
    local_month_window(date(year, month, day))
}

/// Assert a unix-ms instant renders as the first of `month`/`year` at local
/// midnight.
fn assert_is_first_at_midnight(ms: i64, year: i32, month: u32) {
    let local = chrono::Local.timestamp_millis_opt(ms).unwrap();
    assert_eq!(local.year(), year);
    assert_eq!(local.month(), month);
    assert_eq!(local.day(), 1);
    assert_eq!(local.format("%H:%M:%S%.3f").to_string(), "00:00:00.000");
}

#[test]
fn local_day_window_brackets_now_and_spans_one_day() {
    let (now, today) = local_today();
    let (start, end) = local_day_window(today);
    let now_ms = now.timestamp_millis();
    assert!(
        start <= now_ms && now_ms < end,
        "now must fall inside its own day"
    );
    // A local day is 24h except on DST transitions (23h/25h).
    assert!(
        (end - start) >= 23 * 3_600_000 && (end - start) <= 25 * 3_600_000,
        "day length out of range: {}ms",
        end - start
    );
    let start_local = chrono::Local.timestamp_millis_opt(start).unwrap();
    assert_eq!(
        start_local.format("%H:%M:%S%.3f").to_string(),
        "00:00:00.000"
    );
}

#[test]
fn local_month_window_brackets_now_and_starts_on_the_first_at_midnight() {
    let (now, today) = local_today();
    let (start, end) = local_month_window(today);
    let now_ms = now.timestamp_millis();
    assert!(
        start <= now_ms && now_ms < end,
        "now must fall inside its own month"
    );
    // A month is 28-31 days, each 24h except DST transitions (23h/25h).
    let len = end - start;
    assert!(
        (27 * DAY_MS..=32 * DAY_MS).contains(&len),
        "month length out of range: {len}ms"
    );
    let start_local = chrono::Local.timestamp_millis_opt(start).unwrap();
    assert_eq!(start_local.day(), 1, "start is the first of the month");
    assert_eq!(
        start_local.format("%H:%M:%S%.3f").to_string(),
        "00:00:00.000"
    );
    let end_local = chrono::Local.timestamp_millis_opt(end).unwrap();
    assert_eq!(end_local.day(), 1, "end is the first of next month");
    assert_eq!(end_local.format("%H:%M:%S%.3f").to_string(), "00:00:00.000");
}

#[test]
fn local_month_window_mid_month_spans_first_to_first_of_next() {
    let (start, end) = month_window_for(2026, 6, 15);
    assert_is_first_at_midnight(start, 2026, 6);
    assert_is_first_at_midnight(end, 2026, 7);
}

#[test]
fn local_month_window_handles_december_to_january_rollover() {
    let (start, end) = month_window_for(2026, 12, 20);
    assert_is_first_at_midnight(start, 2026, 12);
    // Year rolls over: next month is January of the following year.
    assert_is_first_at_midnight(end, 2027, 1);
}

#[test]
fn local_month_window_february_leap_and_non_leap() {
    // 2024 is a leap year: February has 29 days. The window must close on
    // March 1 regardless, and span exactly 29 local days.
    let (leap_start, leap_end) = month_window_for(2024, 2, 10);
    assert_is_first_at_midnight(leap_start, 2024, 2);
    assert_is_first_at_midnight(leap_end, 2024, 3);
    let leap_days = (chrono::Local.timestamp_millis_opt(leap_end).unwrap()
        - chrono::Local.timestamp_millis_opt(leap_start).unwrap())
    .num_days();
    assert_eq!(leap_days, 29, "Feb 2024 is a leap month");

    // 2025 is not a leap year: February has 28 days.
    let (start, end) = month_window_for(2025, 2, 10);
    assert_is_first_at_midnight(start, 2025, 2);
    assert_is_first_at_midnight(end, 2025, 3);
    let days = (chrono::Local.timestamp_millis_opt(end).unwrap()
        - chrono::Local.timestamp_millis_opt(start).unwrap())
    .num_days();
    assert_eq!(days, 28, "Feb 2025 is not a leap month");
}

#[test]
fn local_month_window_start_is_local_midnight_across_a_dst_month() {
    let (start, end) = month_window_for(2026, 3, 12);
    assert_is_first_at_midnight(start, 2026, 3);
    assert_is_first_at_midnight(end, 2026, 4);
}

#[test]
fn trailing_day_boundaries_are_local_midnights_ascending() {
    let (_now, today) = local_today();
    for days in [7u32, 30] {
        let boundaries = trailing_day_boundaries(days, today);
        assert_eq!(boundaries.len(), days as usize + 1);
        assert!(boundaries.windows(2).all(|w| w[0] < w[1]));
        // The last pair is exactly today's window.
        let (today_start, today_end) = local_day_window(today);
        assert_eq!(boundaries[days as usize - 1], today_start);
        assert_eq!(boundaries[days as usize], today_end);
        for ms in &boundaries {
            let local = chrono::Local.timestamp_millis_opt(*ms).unwrap();
            assert_eq!(local.format("%H:%M:%S%.3f").to_string(), "00:00:00.000");
        }
        for w in boundaries.windows(2) {
            let len = w[1] - w[0];
            assert!(
                (23 * 3_600_000..=25 * 3_600_000).contains(&len),
                "day length out of range: {len}ms"
            );
        }
    }
}

#[test]
fn midnight_resolution_prefers_the_first_existing_wall_time() {
    // 00:00 exists once.
    assert_eq!(resolve_local_midnight(&[Single(100)], 7), 100);
    // 00:00 falls in a fold: the earlier instant wins.
    assert_eq!(resolve_local_midnight(&[Ambiguous(100, 3_700_000)], 7), 100);
    // 00:00 is skipped: the first wall time that exists is the boundary.
    assert_eq!(resolve_local_midnight(&[Missing, Missing, Single(250)], 7), 250);
    // Nothing resolves: UTC midnight.
    assert_eq!(resolve_local_midnight(&[Missing; 6], 7), 7);
    assert_eq!(resolve_local_midnight(&[], 7), 7);
}

#[test]
fn midnight_of_a_date_is_within_a_day_of_utc_midnight() {
    // 2026-06-15 is day 20619 after 1970-01-01.
    let ms = local_midnight_ms(date(2026, 6, 15));
    let utc = 20_619 * DAY_MS;
    assert!((ms - utc).abs() <= DAY_MS, "{ms} vs {utc}");
    let local = chrono::Local.timestamp_millis_opt(ms).unwrap();
    assert_eq!((local.year(), local.month(), local.day()), (2026, 6, 15));
}

#[test]
fn window_dates_follow_the_calendar() {
    assert_eq!(
        day_window_dates(date(2024, 2, 28)),
        (date(2024, 2, 28), date(2024, 2, 29))
    );
    assert_eq!(
        day_window_dates(date(2025, 12, 31)),
        (date(2025, 12, 31), date(2026, 1, 1))
    );
    assert_eq!(
        month_window_dates(date(2026, 12, 20)),
        (date(2026, 12, 1), date(2027, 1, 1))
    );
    assert_eq!(
        month_window_dates(date(2025, 2, 10)),
        (date(2025, 2, 1), date(2025, 3, 1))
    );
    assert_eq!(
        trailing_dates(3, date(2026, 3, 1)),
        vec![date(2026, 2, 27), date(2026, 2, 28), date(2026, 3, 1), date(2026, 3, 2)]
    );
    assert_eq!(trailing_dates(0, date(2026, 3, 1)), vec![date(2026, 3, 2)]);
}

#[test]
fn range_presets_resolve_to_local_midnight_windows() {
    let (_now, today) = local_today();
    let windows = trailing_windows(today);
    let (day_start, day_end) = local_day_window(today);
    assert_eq!(
        RangeFacet::Day.resolve(&windows),
        (Some(day_start), Some(day_end))
    );

    for (preset, days) in [(RangeFacet::Week, 7u32), (RangeFacet::Month, 30)] {
        let boundaries = trailing_day_boundaries(days, today);
        assert_eq!(
            preset.resolve(&windows),
            (boundaries.first().copied(), boundaries.last().copied())
        );
    }
    assert_eq!(RangeFacet::All.resolve(&windows), (None, None));
}

#[test]
fn day_boundaries_clamp_partial_days_and_align_interior_to_midnight() {
    let (_now, today) = local_today();
    let (today_start, today_end) = local_day_window(today);
    // A custom window from mid-yesterday to mid-today.
    let start = today_start - DAY_MS / 2;
    let end = today_start + DAY_MS / 4;
    let boundaries = day_boundaries(start, end);
    assert_eq!(
        boundaries.first(),
        Some(&start),
        "first bucket clamps to range start"
    );
    assert_eq!(
        boundaries.last(),
        Some(&end),
        "last bucket clamps to range end"
    );
    // Interior boundaries are exact local midnights.
    for ms in &boundaries[1..boundaries.len() - 1] {
        let local = chrono::Local.timestamp_millis_opt(*ms).unwrap();
        assert_eq!(local.format("%H:%M:%S%.3f").to_string(), "00:00:00.000");
    }
    // A whole-day window has exact midnight boundaries on both ends.
    assert_eq!(
        day_boundaries(today_start, today_end),
        vec![today_start, today_end]
    );
}

#[test]
fn day_boundaries_cap_keeps_most_recent_days() {
    let (_now, today) = local_today();
    let (_, today_end) = local_day_window(today);
    let ancient = today_end - 4000 * DAY_MS;
    let boundaries = day_boundaries(ancient, today_end);
    assert_eq!(boundaries.len(), MAX_SERIES_DAYS + 1);
    assert_eq!(boundaries.last(), Some(&today_end));
}

#[test]
fn empty_or_inverted_window_has_no_buckets() {
    assert!(day_boundaries(5_000, 5_000).is_empty());
    assert!(day_boundaries(9_000, 5_000).is_empty());
}

#[test]
fn midnight_probes_are_the_half_hours_from_midnight() {
    let probes: Vec<(u32, u32)> = (0..6).map(midnight_probe).collect();
    assert_eq!(probes, vec![(0, 0), (0, 30), (1, 0), (1, 30), (2, 0), (2, 30)]);
}

#[test]
fn midnight_lookups_ask_the_probes_in_order_until_one_exists() {
    let d = date(2026, 6, 15);
    let lookups = midnight_lookups(d);
    assert!(!lookups.is_empty() && lookups.len() <= 6);
    for (i, w) in lookups.iter().enumerate() {
        assert_eq!(w.date, d);
        assert_eq!((w.hour, w.minute), midnight_probe(i as u32));
        if i + 1 < lookups.len() {
            assert_eq!(w.answer, Missing);
        }
    }
    let answers: Vec<LocalInstant> = lookups.iter().map(|w| w.answer).collect();
    assert_eq!(resolve_local_midnight(&answers, 20_619 * DAY_MS), local_midnight_ms(d));
}
