//! An event of the calendar: a date, what it is called, and its kinds.

use crate::flags::{Flags, CHUL_ONLY, ISRAEL_ONLY};
use crate::gregorian::{date_of_fixed, GregorianDate};
use crate::hdate::Hdate;
use vstd::prelude::*;

verus! {

/// Something that falls on a Hebrew date.
#[derive(Clone, Debug, PartialEq)]
pub struct Event {
    pub date: Hdate,
    pub description: String,
    pub mask: Flags,
}

impl Event {
    pub fn new(date: Hdate, description: String, mask: Flags) -> (event: Self)
        ensures
            event.date == date,
            event.description == description,
            event.mask == mask,
    {
        Self { date, description, mask }
    }

    /// Whether the event is observed in Israel: every event but those kept
    /// in the Diaspora only.
    pub fn observed_in_israel(&self) -> (observed: bool)
        ensures
            observed == (self.mask@ & CHUL_ONLY == 0),
    {
        !self.mask.intersects(Flags::from_bits_retain(CHUL_ONLY))
    }

    /// Whether the event is observed in the Diaspora: every event but those
    /// kept in Israel only.
    pub fn observed_in_diaspora(&self) -> (observed: bool)
        ensures
            observed == (self.mask@ & ISRAEL_ONLY == 0),
    {
        !self.mask.intersects(Flags::from_bits_retain(ISRAEL_ONLY))
    }

    /// The Gregorian date of the event's day.
    pub fn get_gregorian_date(&self) -> (date: GregorianDate)
        ensures
            date.valid(),
            date.fixed() == self.date.fixed(),
            date == date_of_fixed(self.date.fixed()),
    {
        self.date.to_gregorian()
    }
}

} // verus!
