//! A Hebrew date that carries its fixed day number, for comparing dates and
//! counting days between them.

use crate::error::HebrewDateErrors;
use crate::gregorian::{
    absolute_to_gregorian, date_of_fixed, gregorian_to_absolute, reminder, GregorianDate,
};
use crate::hebrew::{days_in_month_spec, is_leap_year_spec, EPOCH};
use crate::hebrew_date::{hebrew_fixed, is_date_of, HebrewDate};
use crate::month::{month_name, HebrewMonth};
use crate::text::{decimal_nat, push_decimal_nat, push_str};
use std::cmp::Ordering;
use vstd::prelude::*;
use vstd::std_specs::cmp::{PartialEqSpecImpl, PartialOrdSpecImpl};

verus! {

/// A Hebrew date together with its fixed day number. Dates compare by that
/// number.
#[derive(Eq, Debug, Clone, Copy)]
pub struct Hdate {
    pub year: u32,
    pub month: HebrewMonth,
    pub day: u8,
    /// The fixed day number of the date.
    pub rd: i32,
}

impl PartialEq for Hdate {
    fn eq(&self, other: &Self) -> (r: bool) {
        self.rd == other.rd
    }
}

impl PartialEqSpecImpl for Hdate {
    open spec fn obeys_eq_spec() -> bool {
        true
    }

    open spec fn eq_spec(&self, other: &Self) -> bool {
        self.fixed() == other.fixed()
    }
}

impl PartialOrd for Hdate {
    fn partial_cmp(&self, other: &Self) -> (r: Option<Ordering>) {
        if self.rd < other.rd {
            Some(Ordering::Less)
        } else if self.rd > other.rd {
            Some(Ordering::Greater)
        } else {
            Some(Ordering::Equal)
        }
    }
}

impl PartialOrdSpecImpl for Hdate {
    open spec fn obeys_partial_cmp_spec() -> bool {
        true
    }

    open spec fn partial_cmp_spec(&self, other: &Self) -> Option<Ordering> {
        if self.fixed() < other.fixed() {
            Some(Ordering::Less)
        } else if self.fixed() > other.fixed() {
            Some(Ordering::Greater)
        } else {
            Some(Ordering::Equal)
        }
    }
}

impl Hdate {
    /// The fixed day number that the date carries.
    pub open spec fn fixed(&self) -> int {
        self.rd as int
    }

    /// The fixed day number carried is that of the date's year, month and
    /// day.
    pub open spec fn wf(&self) -> bool {
        self.fixed() == self.date().fixed()
    }

    /// The year, month and day without the number.
    pub open spec fn date(&self) -> HebrewDate {
        HebrewDate { year: self.year, month: self.month, day: self.day }
    }

    /// The date as the day, the month's name and the year.
    pub open spec fn text(&self) -> Seq<char> {
        decimal_nat(self.day as nat) + " "@ + month_name(self.month) + " "@ + decimal_nat(
            self.year as nat,
        )
    }

    /// The given day of a Hebrew month.
    pub fn from_ymd(year: u32, month: HebrewMonth, day: u8) -> (date: Self)
        requires
            year >= 1,
            hebrew_fixed(year as int, month, day as int) <= i32::MAX,
        ensures
            date.year == year,
            date.month == month,
            date.day == day,
            date.wf(),
    {
        let naive = HebrewDate::new(year, month, day);
        let rd = naive.into_absolute();
        Self { year, month, day, rd }
    }

    /// The Hebrew date of a fixed day from the epoch on.
    pub fn from_absolute(rd: i32) -> (result: Result<Self, HebrewDateErrors>)
        ensures
            is_date_of(
                match result {
                    Ok(date) => Ok(date.date()),
                    Err(error) => Err(error),
                },
                rd as int,
            ),
            result.is_ok() ==> result.unwrap().fixed() == rd && result.unwrap().wf(),
    {
        match HebrewDate::try_from_absolute(rd) {
            Ok(naive) => Ok(Self { year: naive.year, month: naive.month, day: naive.day, rd }),
            Err(error) => Err(error),
        }
    }

    /// The Hebrew date of a day given by its Gregorian date.
    pub fn try_from(value: GregorianDate) -> (result: Result<Self, HebrewDateErrors>)
        requires
            value.valid(),
            i32::MIN <= value.fixed() <= i32::MAX,
        ensures
            is_date_of(
                match result {
                    Ok(date) => Ok(date.date()),
                    Err(error) => Err(error),
                },
                value.fixed(),
            ),
            result.is_ok() ==> result.unwrap().fixed() == value.fixed() && result.unwrap().wf(),
    {
        let rd = gregorian_to_absolute(value);
        Self::from_absolute(rd)
    }

    /// The Gregorian date of the same day.
    pub fn to_gregorian(&self) -> (date: GregorianDate)
        ensures
            date.valid(),
            date.fixed() == self.fixed(),
            date == date_of_fixed(self.fixed()),
    {
        absolute_to_gregorian(self.rd).unwrap()
    }

    /// Whether the date's year is a leap year.
    pub fn is_leap_year(&self) -> (leap: bool)
        ensures
            leap == is_leap_year_spec(self.year as int),
    {
        crate::hebrew::is_leap_year(self.year)
    }

    /// The number of days of the date's month.
    pub fn days_in_month(&self) -> (days: u8)
        requires
            self.year >= 1,
        ensures
            days == days_in_month_spec(self.month, self.year as int),
    {
        crate::hebrew::days_in_month(self.month, self.year)
    }

    /// The day of the week, 0 for Sunday to 6 for Saturday.
    pub fn get_week_day(&self) -> (day: u8)
        ensures
            day == self.fixed() % 7,
            day < 7,
    {
        reminder(self.rd as i64, 7) as u8
    }

    /// The number of days from `other` to this date.
    pub fn delta_days(&self, other: Self) -> (days: i32)
        requires
            i32::MIN <= self.fixed() - other.fixed() <= i32::MAX,
        ensures
            days == self.fixed() - other.fixed(),
    {
        self.rd - other.rd
    }

    /// The date `rhs` days later, or earlier for a negative `rhs`.
    pub fn add(self, rhs: i32) -> (date: Self)
        requires
            EPOCH <= self.fixed() + rhs <= i32::MAX,
        ensures
            date.fixed() == self.fixed() + rhs,
            date.wf(),
            date.date().valid(),
    {
        let rd = self.rd + rhs;
        let naive_hdate = HebrewDate::try_from_absolute(rd).unwrap();
        Hdate { year: naive_hdate.year, month: naive_hdate.month, day: naive_hdate.day, rd }
    }

    /// The date `rhs` days earlier, or later for a negative `rhs`.
    pub fn sub(self, rhs: i32) -> (date: Self)
        requires
            EPOCH <= self.fixed() - rhs <= i32::MAX,
        ensures
            date.fixed() == self.fixed() - rhs,
            date.wf(),
            date.date().valid(),
    {
        let rd = (self.rd as i64 - rhs as i64) as i32;
        let naive_hdate = HebrewDate::try_from_absolute(rd).unwrap();
        Hdate { year: naive_hdate.year, month: naive_hdate.month, day: naive_hdate.day, rd }
    }

    /// The date as the day, the month's name and the year.
    pub fn to_string(&self) -> (text: String)
        ensures
            text@ == self.text(),
    {
        let mut text = String::new();
        push_decimal_nat(&mut text, self.day as u64);
        push_str(&mut text, " ");
        push_str(&mut text, self.month.name());
        push_str(&mut text, " ");
        push_decimal_nat(&mut text, self.year as u64);
        proof {
            assert(text@ =~= self.text());
        }
        text
    }
}

} // verus!
