//! The text of the stacked menu-bar budget readout: today's cost and one
//! row per set budget with its stoplight band.
use vstd::prelude::*;
use crate::budgets::Band;
use crate::text::{cat, cat3, signed_decimal, signed_decimal_text};

verus! {

/// One budget row of the readout (e.g. `D` / `34%` / amber).
#[derive(Debug, Clone, Copy, PartialEq, Eq)]
pub struct Row {
    /// `D` (daily) or `M` (monthly).
    pub marker: &'static str,
    pub percent: i64,
    pub band: Band,
}

/// What the menu-bar widget shows: today's cost and 0-2 budget rows.
#[derive(Debug, Clone, PartialEq, Eq)]
pub struct Model {
    pub cost: String,
    pub rows: Vec<Row>,
}

/// The label of a row: marker, space, percent and `%`.
pub fn row_text(row: &Row) -> (r: String)
    ensures
        r@ == row.marker@ + " "@ + signed_decimal_text(row.percent as int) + "%"@,
{
    let p = signed_decimal(row.percent);
    let head = cat3(row.marker, " ", p.as_str());
    cat(head.as_str(), "%")
}

} // verus!
