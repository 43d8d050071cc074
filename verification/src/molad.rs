//! The molad: the mean conjunction of moon and sun that opens a Hebrew
//! month, by weekday, hour, minute and parts of a minute.

use crate::hebrew::{elapsed_months, molad_of_year, months_in_year, months_in_year_spec};
use crate::month::{month_name, HebrewMonth};
use crate::text::{decimal_nat, push_decimal_nat, push_str};
use vstd::prelude::*;

verus! {

/// The time of a month's mean conjunction.
#[derive(Debug, Clone, Copy)]
pub struct Molad {
    pub year: u32,
    pub month: HebrewMonth,
    /// 0 for Sunday to 6 for Saturday.
    pub day_of_week: u8,
    /// The hour of the day, 0 to 23.
    pub hour: u8,
    /// Minutes after the hour, 0 to 59.
    pub minute: u8,
    /// Parts (chalakim) after the minute, 0 to 17: a minute has 18.
    pub parts: u16,
}

/// Months from Tishrei of `year` to `month`, where the months from Nisan to
/// Elul follow the year's last month.
pub open spec fn months_from_tishrei(year: int, month: HebrewMonth) -> int {
    if month.number() < 7 {
        month.number() - 7 + months_in_year_spec(year)
    } else {
        month.number() - 7
    }
}

/// The mean conjunction of `month` in `year`, in parts from the start of the
/// week in which the calendar begins, set back by six hours so that hours
/// count from midnight and not from the evening before.
pub open spec fn molad_instant(year: int, month: HebrewMonth) -> int {
    molad_of_year(year) + 765433 * months_from_tishrei(year, month) - 6480
}

/// The weekday of an instant, 0 for Sunday.
pub open spec fn instant_day_of_week(instant: int) -> int {
    (1 + instant / 25920) % 7
}

/// The hour of the day of an instant.
pub open spec fn instant_hour(instant: int) -> int {
    (instant / 1080) % 24
}

/// The whole minutes after the hour of an instant.
pub open spec fn instant_minute(instant: int) -> int {
    (instant % 1080) / 18
}

/// The parts after the minute of an instant.
pub open spec fn instant_parts(instant: int) -> int {
    (instant % 1080) % 18
}

/// The short name of a weekday, 0 for Sunday.
pub open spec fn short_day_name(day_of_week: int) -> Seq<char> {
    if day_of_week == 0 {
        "Sun"@
    } else if day_of_week == 1 {
        "Mon"@
    } else if day_of_week == 2 {
        "Tue"@
    } else if day_of_week == 3 {
        "Wed"@
    } else if day_of_week == 4 {
        "Thu"@
    } else if day_of_week == 5 {
        "Fri"@
    } else {
        "Sat"@
    }
}

fn day_name(day_of_week: u8) -> (name: &'static str)
    ensures
        name@ == short_day_name(day_of_week as int),
{
    if day_of_week == 0 {
        "Sun"
    } else if day_of_week == 1 {
        "Mon"
    } else if day_of_week == 2 {
        "Tue"
    } else if day_of_week == 3 {
        "Wed"
    } else if day_of_week == 4 {
        "Thu"
    } else if day_of_week == 5 {
        "Fri"
    } else {
        "Sat"
    }
}

/// Days, hours and parts of the conjunction that lies `elapsed_months` mean
/// months after the calendar's first, six hours set back. The days count
/// from the start of the week before the one in which the calendar begins,
/// so that the first conjunction, five hours into its day, can be set back.
fn split_instant(elapsed_months: u64) -> (fields: (u64, u64, u64))
    requires
        elapsed_months <= 100_000_000_000,
    ensures
        25920 * (fields.0 - 7) + 1080 * fields.1 + fields.2 == 5604 + 765433 * elapsed_months
            - 6480,
        fields.0 >= 6,
        fields.1 < 24,
        fields.2 < 1080,
{
    let elapsed_parts: u64 = 204 + 793 * (elapsed_months % 1080);
    let elapsed_hours: u64 = 5 + 12 * elapsed_months + 793 * (elapsed_months / 1080) + (
    elapsed_parts / 1080) + 162;
    let parts: u64 = elapsed_parts % 1080;
    let day: u64 = 29 * elapsed_months + elapsed_hours / 24;
    let hour: u64 = elapsed_hours % 24;
    assert(elapsed_months == 1080 * (elapsed_months / 1080) + elapsed_months % 1080);
    assert(elapsed_parts == 1080 * (elapsed_parts / 1080) + parts);
    assert(1080 * elapsed_hours + parts == 5604 + 13753 * elapsed_months + 174960);
    (day, hour, parts)
}

/// An instant made of whole days, hours below 24 and parts below 1080 has
/// these as its fields.
proof fn lemma_instant_fields(instant: int, day: int, hour: int, parts: int)
    requires
        25920 * (day - 7) + 1080 * hour + parts == instant,
        0 <= hour < 24,
        0 <= parts < 1080,
    ensures
        instant_day_of_week(instant) == (day + 1) % 7,
        instant_hour(instant) == hour,
        instant_minute(instant) == parts / 18,
        instant_parts(instant) == parts % 18,
{
    assert(instant / 25920 == day - 7);
    assert(instant / 1080 == 24 * (day - 7) + hour);
    assert(instant % 1080 == parts);
    assert((24 * (day - 7) + hour) % 24 == hour);
    assert((1 + (day - 7)) % 7 == (day + 1) % 7);
}

impl Molad {
    /// The announcement of the molad in words.
    pub open spec fn text(&self) -> Seq<char> {
        "Molad "@ + month_name(self.month) + " "@ + decimal_nat(self.year as nat) + ": "@
            + short_day_name(self.day_of_week as int) + ", "@ + decimal_nat(self.minute as nat)
            + " minutes and "@ + decimal_nat(self.parts as nat) + " chalakim after "@ + decimal_nat(
            self.hour as nat,
        ) + ":00"@
    }

    /// The molad of `month` in `year`.
    pub fn new(year: u32, month: HebrewMonth) -> (molad: Self)
        requires
            year >= 1,
        ensures
            molad.year == year,
            molad.month == month,
            molad.day_of_week == instant_day_of_week(molad_instant(year as int, month)),
            molad.hour == instant_hour(molad_instant(year as int, month)),
            molad.minute == instant_minute(molad_instant(year as int, month)),
            molad.parts == instant_parts(molad_instant(year as int, month)),
            molad.day_of_week < 7,
            molad.hour < 24,
            molad.minute < 60,
            molad.parts < 18,
    {
        let number: u64 = month.to_number() as u64;
        let adjusted_month: u64 = if number < 7 {
            number + months_in_year(year) as u64 - 7
        } else {
            number - 7
        };
        let elapsed_months: u64 = elapsed_months(year as u64) + adjusted_month;
        let (day, hour, parts) = split_instant(elapsed_months);
        proof {
            lemma_instant_fields(molad_instant(year as int, month), day as int, hour as int, parts as int);
        }
        Self {
            year,
            month,
            day_of_week: ((day + 1) % 7) as u8,
            hour: hour as u8,
            minute: (parts / 18) as u8,
            parts: (parts % 18) as u16,
        }
    }

    /// The announcement of the molad in words.
    pub fn to_string(&self) -> (text: String)
        ensures
            text@ == self.text(),
    {
        let mut text = String::new();
        push_str(&mut text, "Molad ");
        push_str(&mut text, self.month.name());
        push_str(&mut text, " ");
        push_decimal_nat(&mut text, self.year as u64);
        push_str(&mut text, ": ");
        push_str(&mut text, day_name(self.day_of_week));
        push_str(&mut text, ", ");
        push_decimal_nat(&mut text, self.minute as u64);
        push_str(&mut text, " minutes and ");
        push_decimal_nat(&mut text, self.parts as u64);
        push_str(&mut text, " chalakim after ");
        push_decimal_nat(&mut text, self.hour as u64);
        push_str(&mut text, ":00");
        proof {
            assert(text@ =~= self.text());
        }
        text
    }
}

} // verus!
