//! What the Hebrew conversions report instead of a result.

use vstd::prelude::*;

verus! {

/// The ways in which a Hebrew date or month cannot be had.
#[derive(Debug, PartialEq)]
pub enum HebrewDateErrors {
    /// The day lies before the calendar's first day; the text names the day.
    BeforeEpochError(String),
    /// The month number is none that the year has.
    BadMonthArgument,
}

} // verus!
