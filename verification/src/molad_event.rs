//! The event that announces a month's molad.

use crate::event::Event;
use crate::flags::{Flags, MOLAD};
use crate::hdate::Hdate;
use crate::molad::{instant_day_of_week, instant_hour, instant_minute, instant_parts, molad_instant, Molad};
use crate::month::{month_name, HebrewMonth};
use crate::text::{decimal_nat, push_decimal_nat, push_str};
use vstd::prelude::*;

verus! {

/// The announcement, on a date, of the molad of a month.
pub struct MoladEvent {
    pub event: Event,
    pub molad: Molad,
}

impl MoladEvent {
    /// The announcement on `date` of the molad of `to_month` in `to_year`.
    pub fn new(date: Hdate, to_month: HebrewMonth, to_year: u32) -> (announcement: Self)
        requires
            to_year >= 1,
        ensures
            announcement.event.date == date,
            announcement.event.description@ == "Molad "@ + month_name(to_month) + " "@
                + decimal_nat(to_year as nat),
            announcement.event.mask@ == MOLAD,
            announcement.molad.year == to_year,
            announcement.molad.month == to_month,
            announcement.molad.day_of_week == instant_day_of_week(
                molad_instant(to_year as int, to_month),
            ),
            announcement.molad.hour == instant_hour(molad_instant(to_year as int, to_month)),
            announcement.molad.minute == instant_minute(molad_instant(to_year as int, to_month)),
            announcement.molad.parts == instant_parts(molad_instant(to_year as int, to_month)),
    {
        let molad = Molad::new(to_year, to_month);
        let mut description = String::new();
        push_str(&mut description, "Molad ");
        push_str(&mut description, to_month.name());
        push_str(&mut description, " ");
        push_decimal_nat(&mut description, to_year as u64);
        proof {
            assert(description@ =~= "Molad "@ + month_name(to_month) + " "@ + decimal_nat(
                to_year as nat,
            ));
        }
        let event = Event::new(date, description, Flags::from_bits_retain(MOLAD));
        Self { event, molad }
    }

    /// The announcement of the molad in words.
    pub fn to_string(&self) -> (text: String)
        ensures
            text@ == self.molad.text(),
    {
        self.molad.to_string()
    }
}

} // verus!
