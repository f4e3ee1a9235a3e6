//! Local calendar windows for the spend readouts: which local dates a day,
//! a month or a trailing run of days covers, and the instants at which
//! those dates begin on this machine's clock.
use vstd::prelude::*;
use chrono::{Datelike, TimeZone};
use crate::civil::{civil_days, days_in_month, days_from_civil, civil_from_days, lemma_year_within, lemma_civil_unique, days_in_month_exec};

verus! {

/// Day count (since 1970-01-01) of the earliest date chrono represents,
/// -262143-01-01.
pub const MIN_CALENDAR_DAY: i64 = -96_465_292;

/// Day count of the latest date chrono represents, 262142-12-31.
pub const MAX_CALENDAR_DAY: i64 = 95_026_236;

/// Milliseconds in a 24-hour day.
pub const DAY_MS: i64 = 86_400_000;

/// A date on the local calendar (proleptic Gregorian).
#[derive(Debug, Clone, Copy, PartialEq, Eq, Structural)]
pub struct LocalDate {
    pub year: i32,
    pub month: u32,
    pub day: u32,
}

impl LocalDate {
    /// Days from 1970-01-01 to this date.
    pub open spec fn days(self) -> int {
        civil_days(self.year as int, self.month as int, self.day as int)
    }

    /// A real date within chrono's calendar.
    pub open spec fn in_calendar(self) -> bool {
        &&& 1 <= self.month <= 12
        &&& 1 <= self.day <= days_in_month(self.year as int, self.month as int)
        &&& MIN_CALENDAR_DAY <= self.days() <= MAX_CALENDAR_DAY
    }
}

/// A calendar date is determined by its day count, so the windows below,
/// stated in day counts, name their dates exactly.
pub proof fn law_date_of_day_count(a: LocalDate, b: LocalDate)
    requires
        a.in_calendar(),
        b.in_calendar(),
        a.days() == b.days(),
    ensures
        a == b,
{
    lemma_civil_unique(a.year as int, a.month as int, a.day as int, b.year as int, b.month as int, b.day as int);
}

/// The date `days` days after 1970-01-01.
pub(crate) fn date_of_days(days: i64) -> (r: LocalDate)
    requires
        MIN_CALENDAR_DAY <= days <= MAX_CALENDAR_DAY,
    ensures
        r.in_calendar(),
        r.days() == days,
{
    let (y, m, d) = civil_from_days(days);
    proof { lemma_year_within(y as int, m as int, d as int); }
    LocalDate { year: y as i32, month: m, day: d }
}

/// Day count of a date within the calendar.
pub(crate) fn days_of(date: LocalDate) -> (r: i64)
    requires
        date.in_calendar(),
    ensures
        r == date.days(),
{
    match days_from_civil(date.year as i64, date.month, date.day) {
        Some(v) => v,
        None => {
            proof { assert(false); }
            0
        },
    }
}

/// The dates whose local midnights bound the day of `today`: today and
/// tomorrow.
pub fn day_window_dates(today: LocalDate) -> (r: (LocalDate, LocalDate))
    requires
        today.in_calendar(),
        today.days() < MAX_CALENDAR_DAY,
    ensures
        r.0 == today,
        r.1.in_calendar(),
        r.1.days() == today.days() + 1,
{
    let n = days_of(today);
    (today, date_of_days(n + 1))
}

/// The first of `today`'s month and the first of the next month lie in
/// the calendar.
pub open spec fn next_month_in_calendar(today: LocalDate) -> bool {
    today.days() - today.day + 1 + days_in_month(today.year as int, today.month as int) <= MAX_CALENDAR_DAY
}

/// The dates whose local midnights bound the calendar month of `today`:
/// the first of this month, and the day after this month's last day (the
/// first of the next month; December rolls over into January).
pub fn month_window_dates(today: LocalDate) -> (r: (LocalDate, LocalDate))
    requires
        today.in_calendar(),
        next_month_in_calendar(today),
    ensures
        r.0 == (LocalDate { year: today.year, month: today.month, day: 1 }),
        r.0.in_calendar(),
        r.1.in_calendar(),
        r.1.days() == r.0.days() + days_in_month(today.year as int, today.month as int),
{
    let first = LocalDate { year: today.year, month: today.month, day: 1 };
    proof { lemma_first_of_month(today); }
    let dim = days_in_month_exec(today.year as i64, today.month);
    let n = days_of(first);
    (first, date_of_days(n + dim as i64))
}

/// The first of a calendar date's month is in the calendar too: it is
/// `day - 1` days earlier, and the calendar starts on a first.
proof fn lemma_first_of_month(today: LocalDate)
    requires
        today.in_calendar(),
    ensures
        (LocalDate { year: today.year, month: today.month, day: 1 }).in_calendar(),
        (LocalDate { year: today.year, month: today.month, day: 1 }).days() == today.days() - (today.day - 1),
{
    let y = today.year as int;
    let m = today.month as int;
    let d = today.day as int;
    let first = civil_days(y, m, 1);
    assert(first == today.days() - (d - 1));
    if first < MIN_CALENDAR_DAY {
        let k = MIN_CALENDAR_DAY - first + 1;
        assert(civil_days(y, m, k) == civil_days(-262_143, 1, 1));
        lemma_civil_unique(y, m, k, -262_143, 1, 1);
    }
}

/// The local dates whose midnights bound the trailing `days` calendar
/// days ending with `today`: `days + 1` consecutive dates, the last two
/// being today and tomorrow.
pub fn trailing_dates(days: u32, today: LocalDate) -> (r: Vec<LocalDate>)
    requires
        today.in_calendar(),
        today.days() < MAX_CALENDAR_DAY,
        today.days() - days + 1 >= MIN_CALENDAR_DAY,
    ensures
        r@.len() == days + 1,
        forall|i: int| #![trigger r@[i]] 0 <= i < r@.len() ==> r@[i].in_calendar() && r@[i].days() == today.days() - days + 1 + i,
{
    let t = days_of(today);
    let start: i64 = t - days as i64 + 1;
    let mut out: Vec<LocalDate> = Vec::new();
    let mut i: u64 = 0;
    while i <= days as u64
        invariant
            i <= days + 1,
            t == today.days(),
            start == t - days + 1,
            MIN_CALENDAR_DAY <= start,
            t < MAX_CALENDAR_DAY,
            out@.len() == i,
            forall|j: int| #![trigger out@[j]] 0 <= j < out@.len() ==> out@[j].in_calendar() && out@[j].days() == start + j,
        decreases days + 1 - i,
    {
        out.push(date_of_days(start + i as i64));
        i += 1;
    }
    out
}

/// How the local time zone maps one wall-clock time: to one instant, to
/// two (a fold; chrono names the first the earliest), or to none (a gap),
/// each as unix ms.
#[derive(Debug, Clone, Copy, PartialEq, Eq, Structural)]
pub enum LocalInstant {
    Single(i64),
    Ambiguous(i64, i64),
    Missing,
}

/// The unix ms at which the wall-clock time `hour:minute` on `date` falls
/// in UTC.
pub open spec fn wall_ms(date: LocalDate, hour: int, minute: int) -> int {
    date.days() * DAY_MS + hour * 3_600_000 + minute * 60_000
}

/// Whether every instant of a lookup lies strictly between `lo` and `hi`.
pub open spec fn instants_within(l: LocalInstant, lo: int, hi: int) -> bool {
    match l {
        LocalInstant::Single(t) => lo < t < hi,
        LocalInstant::Ambiguous(a, b) => lo < a < hi && lo < b < hi,
        LocalInstant::Missing => true,
    }
}

/// One answer of the local time zone, with the wall-clock time it was
/// asked for: `hour:minute:00` on `date`.
#[derive(Debug, Clone, Copy, PartialEq, Eq, Structural)]
pub struct WallLookup {
    pub date: LocalDate,
    pub hour: u32,
    pub minute: u32,
    pub answer: LocalInstant,
}

/// chrono's `Local.from_local_datetime` for the wall-clock time
/// `hour:minute:00` on `date`, its instants as unix ms (a fold's two in
/// the order chrono gives them), together with the time asked for; chrono
/// also answers with no instant when it cannot resolve the time. Which
/// instants come back depends on the machine's time-zone data and is left
/// open; what holds of every answer is what chrono's source shows: each
/// instant is the wall-clock time less a UTC offset, and chrono's offsets
/// (`FixedOffset`) are less than a day either way.
#[verifier::external_body]
fn local_instants(date: LocalDate, hour: u32, minute: u32) -> (r: WallLookup)
    requires
        hour < 24,
        minute < 60,
    ensures
        r.date == date && r.hour == hour && r.minute == minute,
        instants_within(r.answer, wall_ms(date, hour as int, minute as int) - DAY_MS,
            wall_ms(date, hour as int, minute as int) + DAY_MS),
{
    let naive = match chrono::NaiveDate::from_ymd_opt(date.year, date.month, date.day) {
        Some(d) => d.and_hms_opt(hour, minute, 0),
        None => None,
    };
    let lookup = match naive {
        Some(n) => chrono::Local.from_local_datetime(&n),
        None => chrono::LocalResult::None,
    };
    let answer = match lookup {
        chrono::LocalResult::Single(t) => LocalInstant::Single(t.timestamp_millis()),
        chrono::LocalResult::Ambiguous(a, b) => LocalInstant::Ambiguous(a.timestamp_millis(), b.timestamp_millis()),
        chrono::LocalResult::None => LocalInstant::Missing,
    };
    WallLookup { date, hour, minute, answer }
}

/// The instant a run of wall-clock lookups resolves to: the first lookup
/// that exists wins (of a fold's two instants, the first, which chrono
/// names the earliest); with none, `fallback`.
pub open spec fn resolved(lookups: Seq<LocalInstant>, fallback: int) -> int
    decreases lookups.len(),
{
    if lookups.len() == 0 {
        fallback
    } else {
        match lookups[0] {
            LocalInstant::Single(t) => t as int,
            LocalInstant::Ambiguous(earliest, _) => earliest as int,
            LocalInstant::Missing => resolved(lookups.drop_first(), fallback),
        }
    }
}

/// Local midnight from the time zone's answers for 00:00, 00:30, 01:00, ...
/// of one day (see [`resolved`]): when a transition makes 00:00 ambiguous
/// the first of the two instants chrono gives wins, and when it skips 00:00 the first existing
/// time of the day is the boundary; `utc_midnight_ms` when none exists.
pub fn resolve_local_midnight(lookups: &[LocalInstant], utc_midnight_ms: i64) -> (r: i64)
    ensures
        r == resolved(lookups@, utc_midnight_ms as int),
{
    let mut i = lookups.len();
    let mut acc = utc_midnight_ms;
    while i > 0
        invariant
            i <= lookups@.len(),
            acc == resolved(lookups@.subrange(i as int, lookups@.len() as int), utc_midnight_ms as int),
        decreases i,
    {
        i -= 1;
        proof {
            let rest = lookups@.subrange(i as int, lookups@.len() as int);
            assert(rest.drop_first() =~= lookups@.subrange(i + 1, lookups@.len() as int));
            assert(rest[0] == lookups@[i as int]);
        }
        acc = match lookups[i] {
            LocalInstant::Single(t) => t,
            LocalInstant::Ambiguous(earliest, _) => earliest,
            LocalInstant::Missing => acc,
        };
    }
    proof { assert(lookups@.subrange(0, lookups@.len() as int) =~= lookups@); }
    acc
}

/// Whether `ms` can be the local midnight opening the day `day` days after
/// 1970-01-01: within the reach of a UTC offset (under a day either way)
/// of that day's UTC midnight, or of the latest wall time probed for it,
/// 02:30.
pub open spec fn near_local_midnight(ms: int, day: int) -> bool {
    day * DAY_MS - DAY_MS < ms < day * DAY_MS + 9_000_000 + DAY_MS
}

/// A resolution lies within any bounds that hold all the lookups and the
/// fallback.
proof fn lemma_resolved_within(s: Seq<LocalInstant>, fallback: int, lo: int, hi: int)
    requires
        forall|i: int| 0 <= i < s.len() ==> instants_within(#[trigger] s[i], lo, hi),
        lo < fallback < hi,
    ensures
        lo < resolved(s, fallback) < hi,
    decreases s.len(),
{
    if s.len() > 0 {
        assert(instants_within(s[0], lo, hi));
        let t = s.drop_first();
        assert forall|i: int| 0 <= i < t.len() implies instants_within(#[trigger] t[i], lo, hi) by {
            assert(t[i] == s[i + 1]);
        }
        lemma_resolved_within(t, fallback, lo, hi);
    }
}

/// The `i`-th wall-clock time probed for a local midnight: 00:00, 00:30,
/// 01:00, ... (`i` half-hours after midnight), as hour and minute.
pub open spec fn probe_time(i: int) -> (int, int) {
    (i / 2, 30 * (i % 2))
}

/// The hour and minute of the `i`-th probe (see [`probe_time`]).
pub fn midnight_probe(i: u32) -> (r: (u32, u32))
    requires
        i < 6,
    ensures
        r.0 as int == probe_time(i as int).0,
        r.1 as int == probe_time(i as int).1,
{
    (i / 2, 30 * (i % 2))
}

/// The lookups for the local midnight opening day `day` (days after
/// 1970-01-01) as asked: the probes of [`probe_time`] in order, on that
/// date, one after another until the first that exists (or all six);
/// each answer within a UTC offset of its wall-clock time.
pub open spec fn midnight_lookups_of(day: int, l: Seq<WallLookup>) -> bool {
    &&& 1 <= l.len() <= 6
    &&& forall|i: int| #![trigger l[i]] 0 <= i < l.len() ==> {
        &&& l[i].date.days() == day
        &&& l[i].hour as int == probe_time(i).0
        &&& l[i].minute as int == probe_time(i).1
        &&& instants_within(l[i].answer, day * DAY_MS + probe_time(i).0 * 3_600_000 + probe_time(i).1 * 60_000 - DAY_MS,
            day * DAY_MS + probe_time(i).0 * 3_600_000 + probe_time(i).1 * 60_000 + DAY_MS)
    }
    &&& forall|i: int| 0 <= i < l.len() - 1 ==> (#[trigger] l[i]).answer is Missing
    &&& l.len() == 6 || !(l.last().answer is Missing)
}

/// The answers of a run of lookups.
pub open spec fn lookup_answers(l: Seq<WallLookup>) -> Seq<LocalInstant> {
    l.map_values(|w: WallLookup| w.answer)
}

/// Whether `ms` is the local midnight opening day `day`: resolved (see
/// [`resolved`], with UTC midnight as the fallback) from the time zone's
/// answers to the probes of that day asked as [`midnight_lookups_of`]
/// says; and so near the day's UTC midnight ([`near_local_midnight`]).
pub open spec fn local_midnight_of(ms: int, day: int) -> bool {
    &&& near_local_midnight(ms, day)
    &&& exists|l: Seq<WallLookup>| midnight_lookups_of(day, l)
        && ms == resolved(lookup_answers(l), day * DAY_MS)
}

/// Asks the local time zone for the probes of [`probe_time`] on `date`, in
/// order, until one exists (see [`midnight_lookups_of`]).
pub fn midnight_lookups(date: LocalDate) -> (r: Vec<WallLookup>)
    requires
        date.in_calendar(),
    ensures
        midnight_lookups_of(date.days(), r@),
{
    let mut lookups: Vec<WallLookup> = Vec::new();
    let mut i: u32 = 0;
    while i < 6
        invariant
            i <= 6,
            lookups@.len() == i,
            forall|j: int| #![trigger lookups@[j]] 0 <= j < lookups@.len() ==> {
                &&& lookups@[j].date.days() == date.days()
                &&& lookups@[j].hour as int == probe_time(j).0
                &&& lookups@[j].minute as int == probe_time(j).1
                &&& instants_within(lookups@[j].answer,
                    date.days() * DAY_MS + probe_time(j).0 * 3_600_000 + probe_time(j).1 * 60_000 - DAY_MS,
                    date.days() * DAY_MS + probe_time(j).0 * 3_600_000 + probe_time(j).1 * 60_000 + DAY_MS)
            },
            forall|j: int| 0 <= j < lookups@.len() ==> (#[trigger] lookups@[j]).answer is Missing,
        decreases 6 - i,
    {
        let (hour, minute) = midnight_probe(i);
        proof {
            let h = i as int;
            assert(0 <= h / 2 < 3 && 0 <= 30 * (h % 2) < 60) by (nonlinear_arith)
                requires 0 <= h < 6;
        }
        let found = local_instants(date, hour, minute);
        let ghost before = lookups@;
        lookups.push(found);
        proof {
            assert forall|j: int| 0 <= j < before.len() implies lookups@[j] == before[j] by {}
            assert(lookups@[i as int] == found);
        }
        if !matches!(found.answer, LocalInstant::Missing) {
            return lookups;
        }
        i += 1;
    }
    lookups
}

/// Unix ms of local midnight opening `date`: resolved as
/// [`resolve_local_midnight`] does from the answers [`midnight_lookups`]
/// gets (no time zone skips more than three hours at once), with UTC
/// midnight of `date` when none exists. Which instant that is depends on
/// the machine's time zone; whatever it is, it lies within a UTC offset of
/// the wall time it resolves (see [`local_midnight_of`]).
pub fn local_midnight_ms(date: LocalDate) -> (r: i64)
    requires
        date.in_calendar(),
    ensures
        local_midnight_of(r as int, date.days()),
{
    let utc = days_of(date) * DAY_MS;
    let lookups = midnight_lookups(date);
    let mut answers: Vec<LocalInstant> = Vec::new();
    let mut k: usize = 0;
    while k < lookups.len()
        invariant
            k <= lookups@.len(),
            answers@ == lookup_answers(lookups@).subrange(0, k as int),
        decreases lookups@.len() - k,
    {
        answers.push(lookups[k].answer);
        proof {
            assert(answers@ =~= lookup_answers(lookups@).subrange(0, k + 1));
        }
        k += 1;
    }
    proof {
        assert(answers@ =~= lookup_answers(lookups@));
        let lo = utc - DAY_MS;
        let hi = utc + 9_000_000 + DAY_MS;
        assert forall|i: int| 0 <= i < answers@.len() implies instants_within(#[trigger] answers@[i], lo, hi) by {
            assert(answers@[i] == lookups@[i].answer);
            let h = i;
            assert(0 <= probe_time(h).0 * 3_600_000 + probe_time(h).1 * 60_000 <= 9_000_000) by (nonlinear_arith)
                requires 0 <= h < 6;
        }
        lemma_resolved_within(answers@, utc as int, lo, hi);
    }
    resolve_local_midnight(answers.as_slice(), utc)
}

/// The current local day of `today` as a `[start, end)` unix-ms window:
/// the local midnights of today and tomorrow (see [`day_window_dates`]
/// and [`local_midnight_of`]).
pub fn local_day_window(today: LocalDate) -> (r: (i64, i64))
    requires
        today.in_calendar(),
        today.days() < MAX_CALENDAR_DAY,
    ensures
        local_midnight_of(r.0 as int, today.days()),
        local_midnight_of(r.1 as int, today.days() + 1),
{
    let (start, end) = day_window_dates(today);
    (local_midnight_ms(start), local_midnight_ms(end))
}

/// The local calendar month of `today` as a `[start, end)` unix-ms
/// window: local midnight of the first of this month up to local midnight
/// of the first of the next (see [`month_window_dates`] and
/// [`local_midnight_of`]).
pub fn local_month_window(today: LocalDate) -> (r: (i64, i64))
    requires
        today.in_calendar(),
        next_month_in_calendar(today),
    ensures
        local_midnight_of(r.0 as int, today.days() - (today.day - 1)),
        local_midnight_of(r.1 as int, today.days() - (today.day - 1)
            + days_in_month(today.year as int, today.month as int)),
{
    proof { lemma_first_of_month(today); }
    let (start, end) = month_window_dates(today);
    (local_midnight_ms(start), local_midnight_ms(end))
}

/// Local-midnight boundaries for the trailing `days` calendar days ending
/// today: `days + 1` instants, the local midnights of the dates
/// [`trailing_dates`] gives, so consecutive pairs bracket one day and the
/// last pair is today's window.
pub fn trailing_day_boundaries(days: u32, today: LocalDate) -> (r: Vec<i64>)
    requires
        today.in_calendar(),
        today.days() < MAX_CALENDAR_DAY,
        today.days() - days + 1 >= MIN_CALENDAR_DAY,
    ensures
        r@.len() == days + 1,
        forall|i: int| 0 <= i < r@.len() ==> local_midnight_of(#[trigger] r@[i] as int, today.days() - days + 1 + i),
{
    let dates = trailing_dates(days, today);
    let mut out: Vec<i64> = Vec::new();
    let mut i: usize = 0;
    while i < dates.len()
        invariant
            i <= dates@.len(),
            dates@.len() == days + 1,
            out@.len() == i,
            forall|j: int| #![trigger dates@[j]] 0 <= j < dates@.len() ==> dates@[j].in_calendar()
                && dates@[j].days() == today.days() - days + 1 + j,
            forall|j: int| 0 <= j < out@.len() ==> local_midnight_of(#[trigger] out@[j] as int, today.days() - days + 1 + j),
        decreases dates@.len() - i,
    {
        out.push(local_midnight_ms(dates[i]));
        i += 1;
    }
    out
}

/// An instant at least `margin` whole days inside chrono's calendar.
pub open spec fn instant_within(ms: int, margin: int) -> bool {
    (MIN_CALENDAR_DAY + margin) * DAY_MS <= ms < (MAX_CALENDAR_DAY - margin) * DAY_MS
}

/// chrono's `Local.timestamp_millis_opt(ms)` reduced to its local calendar
/// date. Only for an instant a day inside chrono's calendar: near its ends
/// `date_naive` panics when the UTC offset carries the local time past
/// them. chrono documents a single answer for every instant it represents,
/// and its offsets are less than a day, so the local date is within a day
/// of the UTC date; which of those dates it is depends on the machine's
/// time zone and is left open.
#[verifier::external_body]
pub(crate) fn local_date_of(ms: i64) -> (r: Option<LocalDate>)
    requires
        instant_within(ms as int, 1),
    ensures
        r is Some,
        r is Some ==> r->0.in_calendar(),
        r is Some ==> ms / DAY_MS - 1 <= r->0.days() <= ms / DAY_MS + 1,
{
    match chrono::Local.timestamp_millis_opt(ms) {
        chrono::LocalResult::Single(t) => {
            let d = t.date_naive();
            Some(LocalDate { year: d.year(), month: d.month(), day: d.day() })
        },
        chrono::LocalResult::Ambiguous(_, _) => None,
        chrono::LocalResult::None => None,
    }
}

} // verus!
