//! Holidays and the events around the new month.

use crate::event::Event;
use crate::flags::{Flags, ROSH_CHODESH, SHABBAT_MEVARCHIM, SPECIAL_SHABBAT};
use crate::gregorian::{date_of_fixed, GregorianDate};
use crate::hdate::Hdate;
use crate::month::{month_name, HebrewMonth};
use crate::text::{decimal_nat, push_decimal_nat, push_str};
use vstd::prelude::*;

verus! {

/// A sign to show beside an event.
pub trait Emoji {
    fn get_emoji(&self) -> &str;
}

/// A holiday.
pub struct HolidayEvent(pub Event);

impl HolidayEvent {
    pub fn new(date: Hdate, description: String, mask: Flags) -> (event: Self)
        ensures
            event.0.date == date,
            event.0.description == description,
            event.0.mask == mask,
    {
        Self(Event::new(date, description, mask))
    }

    /// The Gregorian date of the holiday.
    pub fn get_gregorian_date(&self) -> (date: GregorianDate)
        ensures
            date.valid(),
            date.fixed() == self.0.date.fixed(),
            date == date_of_fixed(self.0.date.fixed()),
    {
        self.0.date.to_gregorian()
    }
}

/// The sign of a holiday with the given kinds: a synagogue for a special
/// Shabbat, a star of David for any other.
pub open spec fn holiday_emoji(mask: u32) -> Seq<char> {
    if mask & SPECIAL_SHABBAT != 0 {
        "\u{1F54D}"@
    } else {
        "\u{2721}\u{FE0F}"@
    }
}

impl Emoji for HolidayEvent {
    fn get_emoji(&self) -> (sign: &str)
        ensures
            sign@ == holiday_emoji(self.0.mask@),
    {
        if self.0.mask.intersects(Flags::from_bits_retain(SPECIAL_SHABBAT)) {
            "\u{1F54D}"
        } else {
            "\u{2721}\u{FE0F}"
        }
    }
}

/// The first day of a month.
pub struct RoshChodeshEvent(pub HolidayEvent);

impl RoshChodeshEvent {
    pub fn new(date: Hdate) -> (event: Self)
        ensures
            event.0.0.date == date,
            event.0.0.description@ == "Rosh Chodesh "@ + month_name(date.month),
            event.0.0.mask@ == ROSH_CHODESH,
    {
        let mut description = String::new();
        push_str(&mut description, "Rosh Chodesh ");
        push_str(&mut description, date.month.name());
        proof {
            assert(description@ =~= "Rosh Chodesh "@ + month_name(date.month));
        }
        Self(HolidayEvent::new(date, description, Flags::from_bits_retain(ROSH_CHODESH)))
    }
}

impl Emoji for RoshChodeshEvent {
    /// The waxing crescent.
    fn get_emoji(&self) -> (sign: &str)
        ensures
            sign@ == "\u{1F312}"@,
    {
        "\u{1F312}"
    }
}

/// The fast of the tenth of Tevet.
pub struct AsaraBTevetEvent(pub HolidayEvent);

impl AsaraBTevetEvent {
    pub fn new(date: Hdate, mask: Flags) -> (event: Self)
        ensures
            event.0.0.date == date,
            event.0.0.description@ == "Asara B Tevet "@ + decimal_nat(date.year as nat),
            event.0.0.mask == mask,
    {
        let mut description = String::new();
        push_str(&mut description, "Asara B Tevet ");
        push_decimal_nat(&mut description, date.year as u64);
        proof {
            assert(description@ =~= "Asara B Tevet "@ + decimal_nat(date.year as nat));
        }
        Self(HolidayEvent::new(date, description, mask))
    }
}

/// The Shabbat on which the coming month is announced.
pub struct ShabbatMevarchimEvent {
    pub holyday_event: HolidayEvent,
    pub memo: String,
}

impl ShabbatMevarchimEvent {
    pub fn new(date: Hdate, of_month: HebrewMonth, memo: Option<String>) -> (event: Self)
        ensures
            event.holyday_event.0.date == date,
            event.holyday_event.0.description@ == "Shabbat Mevarchim "@ + month_name(of_month),
            event.holyday_event.0.mask@ == SHABBAT_MEVARCHIM,
            event.memo@ == match memo {
                Some(text) => text@,
                None => Seq::<char>::empty(),
            },
    {
        let mut description = String::new();
        push_str(&mut description, "Shabbat Mevarchim ");
        push_str(&mut description, of_month.name());
        proof {
            assert(description@ =~= "Shabbat Mevarchim "@ + month_name(of_month));
        }
        let holyday_event = HolidayEvent::new(
            date,
            description,
            Flags::from_bits_retain(SHABBAT_MEVARCHIM),
        );
        let memo = match memo {
            Some(text) => text,
            None => String::new(),
        };
        Self { holyday_event, memo }
    }
}

} // verus!
