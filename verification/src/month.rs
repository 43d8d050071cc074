//! The months of the Hebrew year, numbered from Nisan.

use crate::error::HebrewDateErrors;
use crate::hebrew::{is_leap_year, is_leap_year_spec};
use vstd::prelude::*;

verus! {

/// A month of the Hebrew year. Nisan is month 1 and the civil year begins
/// with Tishrei, month 7; a leap year has both Adars, a common year only the
/// first.
#[derive(PartialEq, Eq, PartialOrd, Debug, Copy, Clone, Structural)]
pub enum HebrewMonth {
    Nisan,
    Iyyar,
    Sivan,
    Tamuz,
    Av,
    Elul,
    Tishrei,
    Cheshvan,
    Kislev,
    Tevet,
    Shvat,
    AdarI,
    AdarII,
}

/// The month with the given number, 1 for Nisan to 13 for the second Adar.
pub open spec fn month_of_number(number: int) -> HebrewMonth {
    if number == 1 {
        HebrewMonth::Nisan
    } else if number == 2 {
        HebrewMonth::Iyyar
    } else if number == 3 {
        HebrewMonth::Sivan
    } else if number == 4 {
        HebrewMonth::Tamuz
    } else if number == 5 {
        HebrewMonth::Av
    } else if number == 6 {
        HebrewMonth::Elul
    } else if number == 7 {
        HebrewMonth::Tishrei
    } else if number == 8 {
        HebrewMonth::Cheshvan
    } else if number == 9 {
        HebrewMonth::Kislev
    } else if number == 10 {
        HebrewMonth::Tevet
    } else if number == 11 {
        HebrewMonth::Shvat
    } else if number == 12 {
        HebrewMonth::AdarI
    } else {
        HebrewMonth::AdarII
    }
}

/// The month that a month number stands for in a year, if any: 1 to 12 are
/// the months themselves; 13 is the second Adar in a leap year and wraps to
/// Nisan in a common year; 14 wraps to Nisan in a leap year only.
pub open spec fn month_in_year(number: int, leap: bool) -> Option<HebrewMonth> {
    if number < 1 || number > 14 {
        None
    } else if number == 14 {
        if leap {
            Some(HebrewMonth::Nisan)
        } else {
            None
        }
    } else if number == 13 && !leap {
        Some(HebrewMonth::Nisan)
    } else {
        Some(month_of_number(number))
    }
}

impl HebrewMonth {
    /// The month's number, 1 for Nisan to 13 for the second Adar.
    pub open spec fn number(self) -> int {
        match self {
            HebrewMonth::Nisan => 1,
            HebrewMonth::Iyyar => 2,
            HebrewMonth::Sivan => 3,
            HebrewMonth::Tamuz => 4,
            HebrewMonth::Av => 5,
            HebrewMonth::Elul => 6,
            HebrewMonth::Tishrei => 7,
            HebrewMonth::Cheshvan => 8,
            HebrewMonth::Kislev => 9,
            HebrewMonth::Tevet => 10,
            HebrewMonth::Shvat => 11,
            HebrewMonth::AdarI => 12,
            HebrewMonth::AdarII => 13,
        }
    }

    /// The month's number, 1 for Nisan to 13 for the second Adar.
    pub fn to_number(self) -> (n: u8)
        ensures
            n == self.number(),
            1 <= n <= 13,
            month_of_number(n as int) == self,
    {
        match self {
            HebrewMonth::Nisan => 1,
            HebrewMonth::Iyyar => 2,
            HebrewMonth::Sivan => 3,
            HebrewMonth::Tamuz => 4,
            HebrewMonth::Av => 5,
            HebrewMonth::Elul => 6,
            HebrewMonth::Tishrei => 7,
            HebrewMonth::Cheshvan => 8,
            HebrewMonth::Kislev => 9,
            HebrewMonth::Tevet => 10,
            HebrewMonth::Shvat => 11,
            HebrewMonth::AdarI => 12,
            HebrewMonth::AdarII => 13,
        }
    }

    /// The month with the given number.
    pub fn from(value: u8) -> (month: HebrewMonth)
        requires
            1 <= value <= 13,
        ensures
            month == month_of_number(value as int),
            month.number() == value,
    {
        match value {
            1 => HebrewMonth::Nisan,
            2 => HebrewMonth::Iyyar,
            3 => HebrewMonth::Sivan,
            4 => HebrewMonth::Tamuz,
            5 => HebrewMonth::Av,
            6 => HebrewMonth::Elul,
            7 => HebrewMonth::Tishrei,
            8 => HebrewMonth::Cheshvan,
            9 => HebrewMonth::Kislev,
            10 => HebrewMonth::Tevet,
            11 => HebrewMonth::Shvat,
            12 => HebrewMonth::AdarI,
            _ => HebrewMonth::AdarII,
        }
    }

    /// The month that `month` stands for in `year`, where 13 in a common
    /// year and 14 in a leap year mean the Nisan that follows.
    pub fn try_from_ym(month: u8, year: u32) -> (result: Result<HebrewMonth, HebrewDateErrors>)
        ensures
            result == match month_in_year(month as int, is_leap_year_spec(year as int)) {
                Some(m) => Ok::<HebrewMonth, HebrewDateErrors>(m),
                None => Err(HebrewDateErrors::BadMonthArgument),
            },
    {
        if month < 1 || month > 14 {
            return Err(HebrewDateErrors::BadMonthArgument);
        }
        if is_leap_year(year) {
            if month == 14 {
                Ok(HebrewMonth::Nisan)
            } else {
                Ok(HebrewMonth::from(month))
            }
        } else {
            if month == 14 {
                Err(HebrewDateErrors::BadMonthArgument)
            } else if month == 13 {
                Ok(HebrewMonth::Nisan)
            } else {
                Ok(HebrewMonth::from(month))
            }
        }
    }

    /// The month's name in Latin letters.
    pub fn name(&self) -> (name: &'static str)
        ensures
            name@ == month_name(*self),
    {
        match self {
            HebrewMonth::Nisan => "Nisan",
            HebrewMonth::Iyyar => "Iyyar",
            HebrewMonth::Sivan => "Sivan",
            HebrewMonth::Tamuz => "Tamuz",
            HebrewMonth::Av => "Av",
            HebrewMonth::Elul => "Elul",
            HebrewMonth::Tishrei => "Tishrei",
            HebrewMonth::Cheshvan => "Cheshvan",
            HebrewMonth::Kislev => "Kislev",
            HebrewMonth::Tevet => "Tevet",
            HebrewMonth::Shvat => "Shvat",
            HebrewMonth::AdarI => "AdarI",
            HebrewMonth::AdarII => "AdarII",
        }
    }

    /// The month's name as an owned text.
    pub fn to_string(&self) -> (name: String)
        ensures
            name@ == month_name(*self),
    {
        self.name().to_owned()
    }
}

/// The name of each month.
pub open spec fn month_name(month: HebrewMonth) -> Seq<char> {
    match month {
        HebrewMonth::Nisan => "Nisan"@,
        HebrewMonth::Iyyar => "Iyyar"@,
        HebrewMonth::Sivan => "Sivan"@,
        HebrewMonth::Tamuz => "Tamuz"@,
        HebrewMonth::Av => "Av"@,
        HebrewMonth::Elul => "Elul"@,
        HebrewMonth::Tishrei => "Tishrei"@,
        HebrewMonth::Cheshvan => "Cheshvan"@,
        HebrewMonth::Kislev => "Kislev"@,
        HebrewMonth::Tevet => "Tevet"@,
        HebrewMonth::Shvat => "Shvat"@,
        HebrewMonth::AdarI => "AdarI"@,
        HebrewMonth::AdarII => "AdarII"@,
    }
}

} // verus!
