//! The daily event that names the Hebrew date.

use crate::event::Event;
use crate::flags::{Flags, HEBREW_DATE};
use crate::hdate::Hdate;
use vstd::prelude::*;

verus! {

/// The event that each day is: its own Hebrew date.
#[derive(Debug, Clone)]
pub struct HebrewDateEvent(pub Event);

impl HebrewDateEvent {
    pub fn new(date: Hdate) -> (event: Self)
        ensures
            event.0.date == date,
            event.0.description@ == date.text(),
            event.0.mask@ == HEBREW_DATE,
    {
        Self(Event::new(date, date.to_string(), Flags::from_bits_retain(HEBREW_DATE)))
    }
}

} // verus!
