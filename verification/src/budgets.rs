//! Budget spend bands.
use vstd::prelude::*;

verus! {

/// Spend band of a budget line, from best to worst.
#[derive(Debug, Clone, Copy, PartialEq, Eq, PartialOrd, Ord, Structural)]
pub enum Band {
    Green,
    Yellow,
    Amber,
    Red,
}

impl Band {
    /// Position in the order Green < Yellow < Amber < Red.
    pub open spec fn rank(self) -> int {
        match self {
            Band::Green => 0,
            Band::Yellow => 1,
            Band::Amber => 2,
            Band::Red => 3,
        }
    }

    /// Band for a rounded percent: Green up to 50, Yellow up to 75, Amber
    /// up to 90, Red above.
    pub open spec fn spec_from_percent(percent: int) -> Band {
        if percent <= 50 {
            Band::Green
        } else if percent <= 75 {
            Band::Yellow
        } else if percent <= 90 {
            Band::Amber
        } else {
            Band::Red
        }
    }

    /// Band for a rounded percent (see [`Band::spec_from_percent`]).
    pub fn from_percent(percent: i64) -> (r: Band)
        ensures
            r == Band::spec_from_percent(percent as int),
    {
        if percent <= 50 {
            Band::Green
        } else if percent <= 75 {
            Band::Yellow
        } else if percent <= 90 {
            Band::Amber
        } else {
            Band::Red
        }
    }

    /// The worse of two bands.
    pub fn worst(a: Band, b: Band) -> (r: Band)
        ensures
            r == a || r == b,
            r.rank() >= a.rank() && r.rank() >= b.rank(),
    {
        let ra: u8 = match a { Band::Green => 0, Band::Yellow => 1, Band::Amber => 2, Band::Red => 3 };
        let rb: u8 = match b { Band::Green => 0, Band::Yellow => 1, Band::Amber => 2, Band::Red => 3 };
        if ra >= rb { a } else { b }
    }
}

/// The worst band across the budgets that are set (`None` for an unset or
/// disabled budget); Green when none is set.
pub fn worst_band(daily: Option<Band>, monthly: Option<Band>) -> (r: Band)
    ensures
        r == (match (daily, monthly) {
            (None, None) => Band::Green,
            (Some(a), None) => a,
            (None, Some(b)) => b,
            (Some(a), Some(b)) => if a.rank() >= b.rank() { a } else { b },
        }),
{
    match (daily, monthly) {
        (None, None) => Band::Green,
        (Some(a), None) => a,
        (None, Some(b)) => b,
        (Some(a), Some(b)) => Band::worst(a, b),
    }
}

/// The bands are contiguous and ordered: more spend never gives a better
/// band, and each percent has exactly the band of its range.
pub proof fn law_band_monotone(p: int, q: int)
    requires
        p <= q,
    ensures
        Band::spec_from_percent(p).rank() <= Band::spec_from_percent(q).rank(),
{
}

} // verus!
