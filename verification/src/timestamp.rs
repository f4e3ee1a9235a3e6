//! RFC 3339 UTC timestamps (`2026-06-11T14:50:03.944Z`) to unix
//! milliseconds.
use vstd::prelude::*;
use vstd::string::StringSliceAdditionalSpecFns;
use crate::numparse::{
    parse_i64, parse_u32, parse_i64_spec, parse_u32_spec, all_digits, digits_value, slice_from,
    slice_range, is_digit,
};
use crate::civil::{days_from_civil, spec_days_from_civil};

verus! {

/// Position of the first `c` in `b`.
pub open spec fn first_index(b: Seq<u8>, c: u8) -> Option<int>
    decreases b.len(),
{
    if b.len() == 0 {
        None
    } else if b[0] == c {
        Some(0)
    } else {
        match first_index(b.subrange(1, b.len() as int), c) {
            Some(i) => Some(i + 1),
            None => None,
        }
    }
}

/// `b.split(sep)` when it yields exactly three pieces.
pub open spec fn split3(b: Seq<u8>, sep: u8) -> Option<(Seq<u8>, Seq<u8>, Seq<u8>)> {
    match first_index(b, sep) {
        None => None,
        Some(i) => {
            let rest = b.subrange(i + 1, b.len() as int);
            match first_index(rest, sep) {
                None => None,
                Some(j) => {
                    let third = rest.subrange(j + 1, rest.len() as int);
                    if first_index(third, sep) is Some {
                        None
                    } else {
                        Some((b.subrange(0, i), rest.subrange(0, j), third))
                    }
                },
            }
        },
    }
}

/// The first three bytes of `frac` right-padded with `0`s.
pub open spec fn millis_digits(frac: Seq<u8>) -> Seq<u8> {
    if frac.len() >= 3 {
        frac.subrange(0, 3)
    } else {
        frac + Seq::new((3 - frac.len()) as nat, |i: int| 48u8)
    }
}

/// The time-of-day part: hour, minute, second and milliseconds, with the
/// range checks (`hour <= 23`, `minute <= 59`, `second <= 60`).
pub open spec fn spec_time_of_day(time: Seq<u8>) -> Option<(int, int, int, int)> {
    let (hms, frac) = match first_index(time, 46u8) {
        Some(p) => (time.subrange(0, p), time.subrange(p + 1, time.len() as int)),
        None => (time, Seq::empty()),
    };
    match split3(hms, 58u8) {
        None => None,
        Some((hs, ms, ss)) => match (parse_i64_spec(hs), parse_i64_spec(ms), parse_i64_spec(ss)) {
            (Some(h), Some(mi), Some(se)) => if h > 23 || mi > 59 || se > 60 {
                None
            } else if frac.len() > 0 && !all_digits(frac) {
                None
            } else {
                let millis = if frac.len() == 0 { 0 } else { digits_value(millis_digits(frac)) };
                Some((h, mi, se, millis))
            },
            _ => None,
        },
    }
}

/// The grammar and arithmetic of `rfc3339_utc_to_ms`: date `Y-M-D`
/// (`Y` an `i64`, `M`/`D` `u32` in 1..=12 / 1..=31 and valid for the
/// month), `T`, time `h:m:s` with optional fraction of any precision
/// (truncated to ms), `Z`. A value outside `i64` milliseconds is
/// rejected.
pub open spec fn spec_rfc3339_ms(b: Seq<u8>) -> Option<int> {
    if b.len() == 0 || b.last() != 90u8 {
        None
    } else {
        let s = b.drop_last();
        match first_index(s, 84u8) {
            None => None,
            Some(t) => {
                let date = s.subrange(0, t);
                let time = s.subrange(t + 1, s.len() as int);
                match split3(date, 45u8) {
                    None => None,
                    Some((ys, ms, ds)) => match (parse_i64_spec(ys), parse_u32_spec(ms), parse_u32_spec(ds)) {
                        (Some(y), Some(m), Some(d)) => if !(1 <= m <= 12 && 1 <= d <= 31) {
                            None
                        } else {
                            match spec_time_of_day(time) {
                                None => None,
                                Some((h, mi, se, millis)) => match spec_days_from_civil(y, m, d) {
                                    None => None,
                                    Some(days) => {
                                        let v = (((days * 24 + h) * 60 + mi) * 60 + se) * 1000 + millis;
                                        if i64::MIN <= v <= i64::MAX { Some(v) } else { None }
                                    },
                                },
                            }
                        },
                        _ => None,
                    },
                }
            },
        }
    }
}

proof fn lemma_first_index(b: Seq<u8>, c: u8, i: int)
    requires
        0 <= i <= b.len(),
        forall|j: int| 0 <= j < i ==> b[j] != c,
    ensures
        i < b.len() && b[i] == c ==> first_index(b, c) == Some(i),
        i == b.len() ==> first_index(b, c) is None,
    decreases i,
{
    if i > 0 {
        let t = b.subrange(1, b.len() as int);
        assert forall|j: int| 0 <= j < i - 1 implies t[j] != c by {
            assert(t[j] == b[j + 1]);
        }
        lemma_first_index(t, c, i - 1);
        if i < b.len() {
            assert(t[i - 1] == b[i]);
        }
    }
}

pub fn find_byte(b: &[u8], c: u8) -> (r: Option<usize>)
    ensures
        match r {
            Some(i) => i < b.len() && first_index(b@, c) == Some(i as int),
            None => first_index(b@, c) is None,
        },
{
    let mut i: usize = 0;
    while i < b.len()
        invariant
            i <= b@.len(),
            forall|j: int| 0 <= j < i ==> b@[j] != c,
        decreases b@.len() - i,
    {
        if b[i] == c {
            proof { lemma_first_index(b@, c, i as int); }
            return Some(i);
        }
        i += 1;
    }
    proof { lemma_first_index(b@, c, i as int); }
    None
}

fn split3_exec(b: &[u8], sep: u8) -> (r: Option<(&[u8], &[u8], &[u8])>)
    ensures
        match r {
            Some((x, y, z)) => split3(b@, sep) == Some((x@, y@, z@)),
            None => split3(b@, sep) is None,
        },
{
    let i = match find_byte(b, sep) {
        Some(i) => i,
        None => { return None; },
    };
    let rest = slice_from(b, i + 1);
    let j = match find_byte(rest, sep) {
        Some(j) => j,
        None => { return None; },
    };
    let third = slice_from(rest, j + 1);
    match find_byte(third, sep) {
        Some(_) => None,
        None => Some((slice_range(b, 0, i), slice_range(rest, 0, j), third)),
    }
}

fn all_digits_exec(d: &[u8]) -> (r: bool)
    ensures
        r == all_digits(d@),
{
    let mut i: usize = 0;
    while i < d.len()
        invariant
            i <= d@.len(),
            forall|j: int| 0 <= j < i ==> is_digit(#[trigger] d@[j]),
        decreases d@.len() - i,
    {
        if !(48 <= d[i] && d[i] <= 57) {
            return false;
        }
        i += 1;
    }
    true
}

/// The fraction's first three digits, right-padded with zeros, as a value.
fn millis_of(frac: &[u8]) -> (r: i64)
    requires
        frac@.len() > 0,
        all_digits(frac@),
    ensures
        r == digits_value(millis_digits(frac@)),
        0 <= r < 1000,
{
    let d0 = (frac[0] - 48) as i64;
    let d1 = if frac.len() > 1 { (frac[1] - 48) as i64 } else { 0 };
    let d2 = if frac.len() > 2 { (frac[2] - 48) as i64 } else { 0 };
    proof {
        let m = millis_digits(frac@);
        assert(m.len() == 3);
        assert(m[0] == frac@[0]);
        assert(m[1] - 48 == d1);
        assert(m[2] - 48 == d2);
        let m1 = m.drop_last();
        let m0 = m1.drop_last();
        assert(m0.drop_last() =~= Seq::<u8>::empty());
        assert(digits_value(m0.drop_last()) == 0);
        assert(m0.last() == m[0]);
        assert(digits_value(m0) == d0);
        assert(m1.last() == m[1]);
        assert(digits_value(m1) == 10 * d0 + d1);
        assert(m.last() == m[2]);
        assert(digits_value(m) == 10 * (10 * d0 + d1) + d2);
    }
    d0 * 100 + d1 * 10 + d2
}

fn time_of_day(time: &[u8]) -> (r: Option<(i64, i64, i64, i64)>)
    ensures
        match r {
            Some((h, mi, se, ms)) => spec_time_of_day(time@) == Some((h as int, mi as int, se as int, ms as int))
                && 0 <= ms < 1000,
            None => spec_time_of_day(time@) is None,
        },
{
    let (hms, frac): (&[u8], &[u8]) = match find_byte(time, 46u8) {
        Some(p) => (slice_range(time, 0, p), slice_from(time, p + 1)),
        None => (time, slice_from(time, time.len())),
    };
    assert(frac@ =~= (match first_index(time@, 46u8) {
        Some(p) => time@.subrange(p + 1, time@.len() as int),
        None => Seq::<u8>::empty(),
    }));
    let (hs, ms, ss) = match split3_exec(hms, 58u8) {
        Some(parts) => parts,
        None => { return None; },
    };
    let h = match parse_i64(hs) { Some(v) => v, None => { return None; } };
    let mi = match parse_i64(ms) { Some(v) => v, None => { return None; } };
    let se = match parse_i64(ss) { Some(v) => v, None => { return None; } };
    if h > 23 || mi > 59 || se > 60 {
        return None;
    }
    if frac.len() == 0 {
        return Some((h, mi, se, 0));
    }
    if !all_digits_exec(frac) {
        return None;
    }
    Some((h, mi, se, millis_of(frac)))
}

/// RFC 3339 UTC timestamp → unix milliseconds (see [`spec_rfc3339_ms`]).
/// Anything but date, `T`, time, optional fraction, `Z` is `None`.
pub fn rfc3339_utc_to_ms(s: &str) -> (r: Option<i64>)
    ensures
        match r {
            Some(v) => spec_rfc3339_ms(s.spec_bytes()) == Some(v as int),
            None => spec_rfc3339_ms(s.spec_bytes()) is None,
        },
{
    let b = s.as_bytes();
    if b.len() == 0 || b[b.len() - 1] != 90u8 {
        return None;
    }
    let body = slice_range(b, 0, b.len() - 1);
    assert(body@ =~= b@.drop_last());
    let t = match find_byte(body, 84u8) {
        Some(t) => t,
        None => { return None; },
    };
    let date = slice_range(body, 0, t);
    let time = slice_from(body, t + 1);
    let (ys, ms, ds) = match split3_exec(date, 45u8) {
        Some(parts) => parts,
        None => { return None; },
    };
    let year = match parse_i64(ys) { Some(v) => v, None => { return None; } };
    let month = match parse_u32(ms) { Some(v) => v, None => { return None; } };
    let day = match parse_u32(ds) { Some(v) => v, None => { return None; } };
    if !(1 <= month && month <= 12 && 1 <= day && day <= 31) {
        return None;
    }
    let (h, mi, se, millis) = match time_of_day(time) {
        Some(parts) => parts,
        None => { return None; },
    };
    let days = match days_from_civil(year, month, day) {
        Some(d) => d,
        None => { return None; },
    };
    let v: i128 = (((days as i128 * 24 + h as i128) * 60 + mi as i128) * 60 + se as i128) * 1000 + millis as i128;
    if v < -9223372036854775808i128 || v > 9223372036854775807i128 {
        return None;
    }
    Some(v as i64)
}

} // verus!
