//! Proleptic Gregorian calendar arithmetic (Howard Hinnant's
//! `days_from_civil` / `civil_from_days`), exact over unbounded integers.
use vstd::prelude::*;
use vstd::string::StringExecFns;
use crate::text::{decimal, decimal_text, push_char};

verus! {

pub open spec fn is_leap(y: int) -> bool {
    y % 4 == 0 && (y % 100 != 0 || y % 400 == 0)
}

/// Days in month `m` of year `y`; 0 for a month outside 1..=12.
pub open spec fn days_in_month(y: int, m: int) -> int {
    if m == 1 || m == 3 || m == 5 || m == 7 || m == 8 || m == 10 || m == 12 {
        31
    } else if m == 4 || m == 6 || m == 9 || m == 11 {
        30
    } else if m == 2 {
        if is_leap(y) { 29 } else { 28 }
    } else {
        0
    }
}

/// Days from 1970-01-01 to `y-m-d` (March-based eras of 400 years).
pub open spec fn civil_days(y: int, m: int, d: int) -> int {
    let yy = if m <= 2 { y - 1 } else { y };
    let era = yy / 400;
    let yoe = yy - era * 400;
    let mp = (m + 9) % 12;
    let doy = (153 * mp + 2) / 5 + d - 1;
    let doe = yoe * 365 + yoe / 4 - yoe / 100 + doy;
    era * 146097 + doe - 719468
}

/// `days_from_civil`: `None` for a day that month does not have, and for
/// a count of days outside `i64`.
pub open spec fn spec_days_from_civil(y: int, m: int, d: int) -> Option<int> {
    if days_in_month(y, m) == 0 || d > days_in_month(y, m) {
        None
    } else {
        let v = civil_days(y, m, d);
        if i64::MIN <= v && v <= i64::MAX { Some(v) } else { None }
    }
}

pub(crate) fn days_in_month_exec(year: i64, month: u32) -> (r: u32)
    ensures
        r == days_in_month(year as int, month as int),
{
    if month == 1 || month == 3 || month == 5 || month == 7 || month == 8 || month == 10 || month == 12 {
        31
    } else if month == 4 || month == 6 || month == 9 || month == 11 {
        30
    } else if month == 2 {
        if year % 4 == 0 && (year % 100 != 0 || year % 400 == 0) { 29 } else { 28 }
    } else {
        0
    }
}

/// `floor(y / 400)` for any `y`.
fn floor_div_400(y: i128) -> (r: i128)
    requires
        -0x1_0000_0000_0000_0000i128 <= y <= 0x1_0000_0000_0000_0000i128,
    ensures
        r == y / 400,
{
    if y >= 0 {
        y / 400
    } else {
        let q = (-y + 399) / 400;
        proof {
            let n = -y;
            assert(q == (n + 399) / 400);
            assert(-q == y / 400) by (nonlinear_arith)
                requires
                    n > 0,
                    y == -n,
                    q == (n + 399) / 400,
            {
                let e = y / 400;
                let r0 = y % 400;
                assert(y == 400 * e + r0 && 0 <= r0 < 400);
                assert(n + 399 == 400 * (-e) + (399 - r0));
            }
        }
        -q
    }
}

/// Days since 1970-01-01 for a proleptic Gregorian date; `None` for a day
/// invalid in that month (or a count outside `i64`).
pub fn days_from_civil(year: i64, month: u32, day: u32) -> (r: Option<i64>)
    ensures
        match r {
            Some(v) => spec_days_from_civil(year as int, month as int, day as int) == Some(v as int),
            None => spec_days_from_civil(year as int, month as int, day as int) is None,
        },
{
    let dim = days_in_month_exec(year, month);
    if dim == 0 || day > dim {
        return None;
    }
    let y: i128 = if month <= 2 { year as i128 - 1 } else { year as i128 };
    let era = floor_div_400(y);
    let yoe = y - era * 400;
    assert(0 <= yoe < 400) by (nonlinear_arith)
        requires
            era == y / 400,
            yoe == y - era * 400,
    ;
    let mp: i128 = (month as i128 + 9) % 12;
    let doy: i128 = (153 * mp + 2) / 5 + day as i128 - 1;
    let doe: i128 = yoe * 365 + yoe / 4 - yoe / 100 + doy;
    assert(-0x1_0000_0000_0000_0000i128 <= era <= 0x1_0000_0000_0000_0000i128) by (nonlinear_arith)
        requires
            era == y / 400,
            -0x1_0000_0000_0000_0000i128 <= y <= 0x1_0000_0000_0000_0000i128,
    ;
    let v: i128 = era * 146097 + doe - 719468;
    if v < -9223372036854775808i128 || v > 9223372036854775807i128 {
        return None;
    }
    Some(v as i64)
}


/// Days in the first `k` years of a 400-year era (years running March to
/// February).
pub open spec fn days_before_year(k: int) -> int {
    365 * k + k / 4 - k / 100 + k / 400
}

/// Days in the first `mp` months of a March-based year.
pub open spec fn days_before_month(mp: int) -> int {
    (153 * mp + 2) / 5
}

/// The date of the day `days` after 1970-01-01: the one valid date that
/// `days_from_civil` maps to `days`.
pub open spec fn is_civil_of(days: int, y: int, m: int, d: int) -> bool {
    &&& 1 <= m <= 12
    &&& 1 <= d <= days_in_month(y, m)
    &&& civil_days(y, m, d) == days
}

proof fn lemma_year_len(k: int)
    requires
        0 <= k,
    ensures
        days_before_year(k + 1) - days_before_year(k) == 365
            + (if (k + 1) % 4 == 0 { 1int } else { 0 })
            - (if (k + 1) % 100 == 0 { 1int } else { 0 })
            + (if (k + 1) % 400 == 0 { 1int } else { 0 }),
{
    assert((k + 1) / 4 - k / 4 == (if (k + 1) % 4 == 0 { 1int } else { 0 })) by (nonlinear_arith)
        requires k >= 0;
    assert((k + 1) / 100 - k / 100 == (if (k + 1) % 100 == 0 { 1int } else { 0 })) by (nonlinear_arith)
        requires k >= 0;
    assert((k + 1) / 400 - k / 400 == (if (k + 1) % 400 == 0 { 1int } else { 0 })) by (nonlinear_arith)
        requires k >= 0;
}

proof fn lemma_leap_of_era(era: int, yoe: int)
    requires
        0 <= yoe < 400,
    ensures
        is_leap(era * 400 + yoe + 1) == ((yoe + 1) % 4 == 0 && ((yoe + 1) % 100 != 0 || (yoe + 1) % 400 == 0)),
{
    let y = era * 400 + yoe + 1;
    assert(y % 4 == (yoe + 1) % 4) by (nonlinear_arith) requires y == era * 400 + yoe + 1;
    assert(y % 100 == (yoe + 1) % 100) by (nonlinear_arith) requires y == era * 400 + yoe + 1;
    assert(y % 400 == (yoe + 1) % 400) by (nonlinear_arith) requires y == era * 400 + yoe + 1;
}

fn year_len(yoe: i128) -> (r: i128)
    requires
        0 <= yoe < 400,
    ensures
        r == days_before_year(yoe + 1) - days_before_year(yoe as int),
        r == 365 || r == 366,
{
    proof { lemma_year_len(yoe as int); }
    let k = yoe + 1;
    365 + (if k % 4 == 0 { 1 } else { 0 }) - (if k % 100 == 0 { 1 } else { 0 }) + (if k % 400 == 0 { 1 } else { 0 })
}

fn month_start(mp: i128) -> (r: i128)
    requires
        0 <= mp <= 12,
    ensures
        r == days_before_month(mp as int),
{
    proof {
        assert(days_before_month(0) == 0) by (nonlinear_arith);
        assert(days_before_month(1) == 31) by (nonlinear_arith);
        assert(days_before_month(2) == 61) by (nonlinear_arith);
        assert(days_before_month(3) == 92) by (nonlinear_arith);
        assert(days_before_month(4) == 122) by (nonlinear_arith);
        assert(days_before_month(5) == 153) by (nonlinear_arith);
        assert(days_before_month(6) == 184) by (nonlinear_arith);
        assert(days_before_month(7) == 214) by (nonlinear_arith);
        assert(days_before_month(8) == 245) by (nonlinear_arith);
        assert(days_before_month(9) == 275) by (nonlinear_arith);
        assert(days_before_month(10) == 306) by (nonlinear_arith);
        assert(days_before_month(11) == 337) by (nonlinear_arith);
        assert(days_before_month(12) == 367) by (nonlinear_arith);
    }
    if mp == 0 { 0 } else if mp == 1 { 31 } else if mp == 2 { 61 } else if mp == 3 { 92 }
    else if mp == 4 { 122 } else if mp == 5 { 153 } else if mp == 6 { 184 } else if mp == 7 { 214 }
    else if mp == 8 { 245 } else if mp == 9 { 275 } else if mp == 10 { 306 } else if mp == 11 { 337 }
    else { 367 }
}

/// Days since 1970-01-01 to the proleptic Gregorian `(year, month, day)`:
/// the inverse of [`days_from_civil`].
pub fn civil_from_days(days: i64) -> (r: (i64, u32, u32))
    requires
        days + 719_468 <= i64::MAX,
    ensures
        is_civil_of(days as int, r.0 as int, r.1 as int, r.2 as int),
        spec_days_from_civil(r.0 as int, r.1 as int, r.2 as int) == Some(days as int),
        civil_of(days as int) == (r.0 as int, r.1 as int, r.2 as int),
        days >= 0 ==> r.0 >= 1600,
{
    let z: i128 = days as i128 + 719_468;
    let era: i128 = if z >= 0 { z / 146_097 } else { -((-z + 146_096) / 146_097) };
    assert(era == z / 146_097) by (nonlinear_arith)
        requires
            era == (if z >= 0 { z / 146_097 } else { -((-z + 146_096) / 146_097) }),
    {
        if z < 0 {
            let e = z / 146_097;
            let r0 = z % 146_097;
            assert(z == 146_097 * e + r0 && 0 <= r0 < 146_097);
            assert(-z + 146_096 == 146_097 * (-e) + (146_096 - r0));
        }
    }
    let doe: i128 = z - era * 146_097;
    assert(0 <= doe < 146_097) by (nonlinear_arith)
        requires
            era == z / 146_097,
            doe == z - era * 146_097,
    ;
    assert(days_before_year(400) == 146_097) by (nonlinear_arith);
    assert(days_before_year(0) == 0);
    let mut yoe: i128 = 0;
    let mut rem: i128 = doe;
    loop
        invariant
            0 <= doe < 146_097,
            days_before_year(400) == 146_097,
            0 <= yoe < 400,
            0 <= rem,
            rem == doe - days_before_year(yoe as int),
        ensures
            0 <= yoe < 400,
            0 <= rem < days_before_year(yoe + 1) - days_before_year(yoe as int),
            rem == doe - days_before_year(yoe as int),
        decreases rem,
    {
        let len = year_len(yoe);
        if rem < len {
            break;
        }
        rem = rem - len;
        yoe = yoe + 1;
        assert(yoe < 400) by {
            if yoe == 400 {
                assert(rem == doe - 146_097);
            }
        }
    }
    let ylen = year_len(yoe);
    let doy = rem;
    let mut mp: i128 = 0;
    while mp < 11 && doy >= month_start(mp + 1)
        invariant
            0 <= mp <= 11,
            0 <= doy < ylen,
            ylen == 365 || ylen == 366,
            doy >= days_before_month(mp as int),
        decreases 11 - mp,
    {
        mp = mp + 1;
    }
    let start = month_start(mp);
    let day: i128 = doy - start + 1;
    let month: i128 = if mp < 10 { mp + 3 } else { mp - 9 };
    let year: i128 = era * 400 + yoe + if month <= 2 { 1 } else { 0 };
    assert(days >= 0 ==> era >= 4) by (nonlinear_arith)
        requires
            era == z / 146_097,
            z == days + 719_468,
    ;
    assert(-0x1_0000_0000_0000i128 <= era <= 0x1_0000_0000_0000i128) by (nonlinear_arith)
        requires
            era == z / 146_097,
            z <= 0x8000_0000_0000_0000i128,
            z >= -0x8000_0000_0000_0000i128,
    ;
    proof {
        let y = year as int;
        let m = month as int;
        let d = day as int;
        lemma_year_len(yoe as int);
        lemma_leap_of_era(era as int, yoe as int);
        assert(mp < 11 ==> doy < days_before_month(mp + 1));
        assert(1 <= d);
        assert(d <= days_in_month(y, m)) by {
            assert(days_before_month(0) == 0) by (nonlinear_arith);
            assert(days_before_month(1) == 31) by (nonlinear_arith);
            assert(days_before_month(2) == 61) by (nonlinear_arith);
            assert(days_before_month(3) == 92) by (nonlinear_arith);
            assert(days_before_month(4) == 122) by (nonlinear_arith);
            assert(days_before_month(5) == 153) by (nonlinear_arith);
            assert(days_before_month(6) == 184) by (nonlinear_arith);
            assert(days_before_month(7) == 214) by (nonlinear_arith);
            assert(days_before_month(8) == 245) by (nonlinear_arith);
            assert(days_before_month(9) == 275) by (nonlinear_arith);
            assert(days_before_month(10) == 306) by (nonlinear_arith);
            assert(days_before_month(11) == 337) by (nonlinear_arith);
        }
        let yy = if m <= 2 { y - 1 } else { y };
        assert(yy == era * 400 + yoe);
        assert(yy / 400 == era) by (nonlinear_arith)
            requires
                yy == era * 400 + yoe,
                0 <= yoe < 400,
        ;
        assert((m + 9) % 12 == mp);
        assert(yoe / 400 == 0);
        assert(civil_days(y, m, d) == days);
        law_civil_roundtrip(y, m, d);
    }
    (year as i64, month as u32, day as u32)
}


proof fn lemma_month_table()
    ensures
        days_before_month(0) == 0,
        days_before_month(1) == 31,
        days_before_month(2) == 61,
        days_before_month(3) == 92,
        days_before_month(4) == 122,
        days_before_month(5) == 153,
        days_before_month(6) == 184,
        days_before_month(7) == 214,
        days_before_month(8) == 245,
        days_before_month(9) == 275,
        days_before_month(10) == 306,
        days_before_month(11) == 337,
{
    assert(days_before_month(0) == 0) by (nonlinear_arith);
    assert(days_before_month(1) == 31) by (nonlinear_arith);
    assert(days_before_month(2) == 61) by (nonlinear_arith);
    assert(days_before_month(3) == 92) by (nonlinear_arith);
    assert(days_before_month(4) == 122) by (nonlinear_arith);
    assert(days_before_month(5) == 153) by (nonlinear_arith);
    assert(days_before_month(6) == 184) by (nonlinear_arith);
    assert(days_before_month(7) == 214) by (nonlinear_arith);
    assert(days_before_month(8) == 245) by (nonlinear_arith);
    assert(days_before_month(9) == 275) by (nonlinear_arith);
    assert(days_before_month(10) == 306) by (nonlinear_arith);
    assert(days_before_month(11) == 337) by (nonlinear_arith);
}

/// Whole years of an era take strictly more days the more there are.
proof fn lemma_years_increase(a: int, b: int)
    requires
        0 <= a < b,
    ensures
        days_before_year(a + 1) <= days_before_year(b),
    decreases b - a,
{
    if a + 1 < b {
        lemma_years_increase(a + 1, b);
        lemma_year_len(a + 1);
    }
}

/// The era, year of era and day of year of a valid date, and its day
/// count in those terms.
proof fn lemma_decompose(y: int, m: int, d: int) -> (r: (int, int, int, int))
    requires
        1 <= m <= 12,
        1 <= d <= days_in_month(y, m),
    ensures
        ({
            let (era, yoe, mp, doy) = r;
            &&& 0 <= yoe < 400
            &&& 0 <= mp < 12
            &&& mp == (m + 9) % 12
            &&& era * 400 + yoe == (if m <= 2 { y - 1 } else { y })
            &&& doy == days_before_month(mp) + d - 1
            &&& 0 <= doy < days_before_year(yoe + 1) - days_before_year(yoe)
            &&& civil_days(y, m, d) + 719468 == era * 146097 + days_before_year(yoe) + doy
        }),
{
    let yy = if m <= 2 { y - 1 } else { y };
    let era = yy / 400;
    let yoe = yy - era * 400;
    assert(0 <= yoe < 400) by (nonlinear_arith)
        requires
            era == yy / 400,
            yoe == yy - era * 400,
    ;
    let mp = (m + 9) % 12;
    let doy = days_before_month(mp) + d - 1;
    lemma_month_table();
    lemma_year_len(yoe);
    lemma_leap_of_era(era, yoe);
    assert(yoe / 400 == 0);
    (era, yoe, mp, doy)
}

/// Two valid dates with the same day count are the same date.
pub proof fn lemma_civil_unique(y1: int, m1: int, d1: int, y2: int, m2: int, d2: int)
    requires
        1 <= m1 <= 12,
        1 <= d1 <= days_in_month(y1, m1),
        1 <= m2 <= 12,
        1 <= d2 <= days_in_month(y2, m2),
        civil_days(y1, m1, d1) == civil_days(y2, m2, d2),
    ensures
        y1 == y2 && m1 == m2 && d1 == d2,
{
    let (e1, k1, p1, o1) = lemma_decompose(y1, m1, d1);
    let (e2, k2, p2, o2) = lemma_decompose(y2, m2, d2);
    assert(days_before_year(400) == 146_097) by (nonlinear_arith);
    if k1 < 399 { lemma_years_increase(k1, 400); }
    if k2 < 399 { lemma_years_increase(k2, 400); }
    let doe1 = days_before_year(k1) + o1;
    let doe2 = days_before_year(k2) + o2;
    assert(0 <= doe1 < 146_097);
    assert(0 <= doe2 < 146_097);
    assert(e1 == e2 && doe1 == doe2) by (nonlinear_arith)
        requires
            e1 * 146097 + doe1 == e2 * 146097 + doe2,
            0 <= doe1 < 146_097,
            0 <= doe2 < 146_097,
    ;
    if k1 < k2 {
        lemma_years_increase(k1, k2);
    } else if k2 < k1 {
        lemma_years_increase(k2, k1);
    }
    assert(k1 == k2);
    assert(o1 == o2);
    lemma_month_table();
    assert(p1 == p2);
    assert(d1 == d2);
    assert(m1 == m2);
}

/// A valid date less than 10^8 days from 1970-01-01 lies within 300000
/// years of year 0.
pub proof fn lemma_year_within(y: int, m: int, d: int)
    requires
        1 <= m <= 12,
        1 <= d <= days_in_month(y, m),
        -100_000_000 <= civil_days(y, m, d) <= 100_000_000,
    ensures
        -300_000 <= y <= 300_000,
{
    let (e, k, p, o) = lemma_decompose(y, m, d);
    assert(days_before_year(400) == 146_097) by (nonlinear_arith);
    if k < 399 { lemma_years_increase(k, 400); }
    let s = days_before_year(k) + o;
    assert(0 <= s < 146_097);
    let t = civil_days(y, m, d) + 719468;
    assert(-700 <= e <= 700) by (nonlinear_arith)
        requires
            t == e * 146097 + s,
            0 <= s < 146_097,
            -100_000_000 + 719468 <= t <= 100_000_000 + 719468,
    ;
}

/// The date `days` after 1970-01-01.
pub open spec fn civil_of(days: int) -> (int, int, int) {
    choose|t: (int, int, int)| is_civil_of(days, t.0, t.1, t.2)
}

/// Civil dates and day counts convert back and forth: a valid date's day
/// count converts back to the date.
pub proof fn law_civil_roundtrip(y: int, m: int, d: int)
    requires
        1 <= m <= 12,
        1 <= d <= days_in_month(y, m),
    ensures
        civil_of(civil_days(y, m, d)) == (y, m, d),
{
    let v = civil_days(y, m, d);
    let w = (y, m, d);
    assert(is_civil_of(v, w.0, w.1, w.2));
    let t = civil_of(v);
    lemma_civil_unique(t.0, t.1, t.2, y, m, d);
}


/// `n` in decimal, zero-padded on the left to at least `width` digits.
pub open spec fn padded(n: nat, width: nat) -> Seq<char> {
    let t = decimal_text(n);
    if t.len() >= width { t } else { Seq::new((width - t.len()) as nat, |i: int| '0') + t }
}

fn pad(n: u64, width: usize) -> (r: String)
    ensures
        r@ == padded(n as nat, width as nat),
{
    let t = decimal(n);
    let len = t.unicode_len();
    if len >= width {
        return t;
    }
    let mut out = String::new();
    let mut i: usize = 0;
    while i < width - len
        invariant
            len < width,
            i <= width - len,
            out@ == Seq::new(i as nat, |k: int| '0'),
        decreases width - len - i,
    {
        push_char(&mut out, '0');
        proof { assert(out@ =~= Seq::new((i + 1) as nat, |k: int| '0')); }
        i += 1;
    }
    out.append(t.as_str());
    out
}

/// `YYYYMMDD-HHMMSS-mmm` in UTC for `secs` seconds and `millis`
/// milliseconds after the epoch (backup file names).
pub open spec fn spec_utc_timestamp(secs: int, millis: int) -> Seq<char> {
    let (y, m, d) = civil_of(secs / 86_400);
    let sod = secs % 86_400;
    padded(y as nat, 4) + padded(m as nat, 2) + padded(d as nat, 2) + seq!['-']
        + padded((sod / 3600) as nat, 2) + padded(((sod % 3600) / 60) as nat, 2) + padded((sod % 60) as nat, 2)
        + seq!['-'] + padded(millis as nat, 3)
}

/// Formats a wall-clock instant for backup file names (see
/// [`spec_utc_timestamp`]).
pub fn utc_timestamp(secs: i64, millis: u32) -> (r: String)
    requires
        0 <= secs,
        millis < 1000,
    ensures
        r@ == spec_utc_timestamp(secs as int, millis as int),
{
    let days = secs / 86_400;
    let sod = secs % 86_400;
    let (year, month, day) = civil_from_days(days);
    let mut out = pad(year as u64, 4);
    out.append(pad(month as u64, 2).as_str());
    out.append(pad(day as u64, 2).as_str());
    push_char(&mut out, '-');
    out.append(pad((sod / 3600) as u64, 2).as_str());
    out.append(pad(((sod % 3600) / 60) as u64, 2).as_str());
    out.append(pad((sod % 60) as u64, 2).as_str());
    push_char(&mut out, '-');
    out.append(pad(millis as u64, 3).as_str());
    out
}

} // verus!
