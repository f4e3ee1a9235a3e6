//! Decimal integer parsing with the grammar of Rust's `FromStr` for
//! integers: an optional sign (`+` always, `-` for signed types), then one
//! or more ASCII digits, and a value that fits the type.
use vstd::prelude::*;

verus! {

pub open spec fn is_digit(b: u8) -> bool {
    48 <= b && b <= 57
}

pub open spec fn all_digits(d: Seq<u8>) -> bool {
    forall|i: int| 0 <= i < d.len() ==> is_digit(#[trigger] d[i])
}

/// The decimal value of a run of digits.
pub open spec fn digits_value(d: Seq<u8>) -> int
    decreases d.len(),
{
    if d.len() == 0 {
        0
    } else {
        10 * digits_value(d.drop_last()) + (d.last() - 48)
    }
}

/// A sign (when allowed) and the digits after it.
pub open spec fn split_sign(b: Seq<u8>, signed: bool) -> (bool, Seq<u8>) {
    if b.len() > 0 && b[0] == 45u8 && signed {
        (true, b.subrange(1, b.len() as int))
    } else if b.len() > 0 && b[0] == 43u8 {
        (false, b.subrange(1, b.len() as int))
    } else {
        (false, b)
    }
}

/// The integer a string denotes under `FromStr`, before the range check.
pub open spec fn parse_int(b: Seq<u8>, signed: bool) -> Option<int> {
    let (neg, d) = split_sign(b, signed);
    if d.len() == 0 || !all_digits(d) {
        None
    } else if neg {
        Some(-digits_value(d))
    } else {
        Some(digits_value(d))
    }
}

/// `<i64 as FromStr>::from_str`.
pub open spec fn parse_i64_spec(b: Seq<u8>) -> Option<int> {
    match parse_int(b, true) {
        Some(v) => if i64::MIN <= v && v <= i64::MAX { Some(v) } else { None },
        None => None,
    }
}

/// `<u32 as FromStr>::from_str`.
pub open spec fn parse_u32_spec(b: Seq<u8>) -> Option<int> {
    match parse_int(b, false) {
        Some(v) => if 0 <= v && v <= u32::MAX { Some(v) } else { None },
        None => None,
    }
}

proof fn lemma_digits_nonneg(d: Seq<u8>)
    requires
        all_digits(d),
    ensures
        digits_value(d) >= 0,
    decreases d.len(),
{
    if d.len() > 0 {
        lemma_digits_nonneg(d.drop_last());
    }
}

/// A longer run of digits is worth at least as much as its prefix.
proof fn lemma_digits_monotone(d: Seq<u8>, k: int)
    requires
        all_digits(d),
        0 <= k <= d.len(),
    ensures
        digits_value(d.take(k)) <= digits_value(d),
    decreases d.len() - k,
{
    if k < d.len() {
        let t = d.take(k + 1);
        assert(t.drop_last() =~= d.take(k));
        lemma_digits_nonneg(d.take(k));
        lemma_digits_monotone(d, k + 1);
    } else {
        assert(d.take(k) =~= d);
    }
}

/// The digits value of `d` when it stays within `limit`, else `None`.
fn digits_up_to(d: &[u8], limit: u128) -> (r: Option<u128>)
    requires
        all_digits(d@),
        limit <= 0xFFFF_FFFF_FFFF_FFFFu128,
    ensures
        match r {
            Some(v) => v == digits_value(d@) && v <= limit,
            None => digits_value(d@) > limit,
        },
{
    let mut v: u128 = 0;
    let mut i: usize = 0;
    while i < d.len()
        invariant
            i <= d@.len(),
            all_digits(d@),
            limit <= 0xFFFF_FFFF_FFFF_FFFFu128,
            v == digits_value(d@.take(i as int)),
            v <= limit,
        decreases d@.len() - i,
    {
        proof {
            let t = d@.take(i + 1);
            assert(t.drop_last() =~= d@.take(i as int));
            assert(is_digit(d@[i as int]));
        }
        let next = v * 10 + (d[i] - 48) as u128;
        if next > limit {
            proof { lemma_digits_monotone(d@, i + 1); }
            return None;
        }
        v = next;
        i += 1;
    }
    assert(d@.take(d@.len() as int) =~= d@);
    Some(v)
}

fn check_digits(d: &[u8]) -> (r: bool)
    ensures
        r == all_digits(d@),
{
    let mut i: usize = 0;
    while i < d.len()
        invariant
            i <= d@.len(),
            forall|j: int| 0 <= j < i ==> is_digit(#[trigger] d@[j]),
        decreases d@.len() - i,
    {
        if !(48 <= d[i] && d[i] <= 57) {
            return false;
        }
        i += 1;
    }
    true
}

/// `s.parse::<i64>()` on the bytes of a string.
pub fn parse_i64(b: &[u8]) -> (r: Option<i64>)
    ensures
        match r {
            Some(v) => parse_i64_spec(b@) == Some(v as int),
            None => parse_i64_spec(b@) is None,
        },
{
    let (neg, start): (bool, usize) = if b.len() > 0 && b[0] == 45u8 {
        (true, 1)
    } else if b.len() > 0 && b[0] == 43u8 {
        (false, 1)
    } else {
        (false, 0)
    };
    let d = slice_from(b, start);
    assert(split_sign(b@, true) == (neg, d@));
    if d.len() == 0 || !check_digits(d) {
        return None;
    }
    proof { lemma_digits_nonneg(d@); }
    if neg {
        match digits_up_to(d, 9223372036854775808u128) {
            Some(v) => {
                if v == 9223372036854775808u128 {
                    Some(-9223372036854775807i64 - 1)
                } else {
                    Some(-(v as i64))
                }
            },
            None => None,
        }
    } else {
        match digits_up_to(d, 9223372036854775807u128) {
            Some(v) => Some(v as i64),
            None => None,
        }
    }
}

/// `s.parse::<u32>()` on the bytes of a string.
pub fn parse_u32(b: &[u8]) -> (r: Option<u32>)
    ensures
        match r {
            Some(v) => parse_u32_spec(b@) == Some(v as int),
            None => parse_u32_spec(b@) is None,
        },
{
    let start: usize = if b.len() > 0 && b[0] == 43u8 { 1 } else { 0 };
    let d = slice_from(b, start);
    assert(split_sign(b@, false) == (false, d@));
    if d.len() == 0 || !check_digits(d) {
        return None;
    }
    proof { lemma_digits_nonneg(d@); }
    match digits_up_to(d, 4294967295u128) {
        Some(v) => Some(v as u32),
        None => None,
    }
}

/// `<u64 as FromStr>::from_str`.
pub open spec fn parse_u64_spec(b: Seq<u8>) -> Option<int> {
    match parse_int(b, false) {
        Some(v) => if 0 <= v && v <= u64::MAX { Some(v) } else { None },
        None => None,
    }
}

/// `s.parse::<u64>()` on the bytes of a string.
pub fn parse_u64(b: &[u8]) -> (r: Option<u64>)
    ensures
        match r {
            Some(v) => parse_u64_spec(b@) == Some(v as int),
            None => parse_u64_spec(b@) is None,
        },
{
    let start: usize = if b.len() > 0 && b[0] == 43u8 { 1 } else { 0 };
    let d = slice_from(b, start);
    assert(split_sign(b@, false) == (false, d@));
    if d.len() == 0 || !check_digits(d) {
        return None;
    }
    proof { lemma_digits_nonneg(d@); }
    match digits_up_to(d, 0xFFFF_FFFF_FFFF_FFFFu128) {
        Some(v) => Some(v as u64),
        None => None,
    }
}

/// The bytes of `b` from `start` on.
pub fn slice_from(b: &[u8], start: usize) -> (r: &[u8])
    requires
        start <= b@.len(),
    ensures
        r@ == b@.subrange(start as int, b@.len() as int),
{
    let (_, tail) = b.split_at(start);
    tail
}

/// The bytes of `b` in `[start, end)`.
pub fn slice_range(b: &[u8], start: usize, end: usize) -> (r: &[u8])
    requires
        start <= end <= b@.len(),
    ensures
        r@ == b@.subrange(start as int, end as int),
{
    let (head, _) = b.split_at(end);
    let (_, mid) = head.split_at(start);
    mid
}

} // verus!
