//! The proleptic Gregorian calendar: leap years, month lengths and the
//! conversion between a date and its fixed day number.

use vstd::prelude::*;

verus! {

/// A Gregorian calendar date. Years at or below zero count before the
/// common era (year 0 precedes year 1).
#[derive(Clone, Copy, Debug, PartialEq, Eq, Structural)]
pub struct GregorianDate {
    pub year: i32,
    pub month: u32,
    pub day: u32,
}

/// The Gregorian leap-year rule.
pub open spec fn is_leap_year_spec(year: int) -> bool {
    year % 4 == 0 && (year % 100 != 0 || year % 400 == 0)
}

/// Length of a month; meaningful for months 1 to 12.
pub open spec fn days_in_month_spec(month: int, year: int) -> int {
    if month == 2 {
        if is_leap_year_spec(year) {
            29
        } else {
            28
        }
    } else if month == 4 || month == 6 || month == 9 || month == 11 {
        30
    } else {
        31
    }
}

/// A month from 1 to 12 and a day that the month has.
pub open spec fn valid_ymd(year: int, month: int, day: int) -> bool {
    1 <= month <= 12 && 1 <= day <= days_in_month_spec(month, year)
}

/// Days in all the years before `year`, counted from fixed day 0.
pub open spec fn days_before_year(year: int) -> int {
    let p = year - 1;
    365 * p + p / 4 - p / 100 + p / 400
}

/// Days of `year` that lie before the first of `month`.
pub open spec fn days_before_month(year: int, month: int) -> int {
    (367 * month - 362) / 12 + if month <= 2 {
        0
    } else if is_leap_year_spec(year) {
        -1
    } else {
        -2
    }
}

/// The fixed day number of a Gregorian date: 1 for 1 January of year 1.
pub open spec fn gregorian_fixed(year: int, month: int, day: int) -> int {
    days_before_year(year) + days_before_month(year, month) + day
}

/// The year in which a fixed day falls, by cycles of 400, 100, 4 and 1 years.
pub open spec fn year_of_fixed(fixed: int) -> int {
    let l0 = fixed - 1;
    let n400 = l0 / 146097;
    let d1 = l0 % 146097;
    let n100 = d1 / 36524;
    let d2 = d1 % 36524;
    let n4 = d2 / 1461;
    let d3 = d2 % 1461;
    let n1 = d3 / 365;
    let year = 400 * n400 + 100 * n100 + 4 * n4 + n1;
    if n100 != 4 && n1 != 4 {
        year + 1
    } else {
        year
    }
}

/// The month in which a fixed day falls.
pub open spec fn month_of_fixed(fixed: int) -> int {
    let year = year_of_fixed(fixed);
    let prior_days = fixed - gregorian_fixed(year, 1, 1);
    let correction: int = if fixed < gregorian_fixed(year, 3, 1) {
        0
    } else if is_leap_year_spec(year) {
        1
    } else {
        2
    };
    (12 * (prior_days + correction) + 373) / 367
}

/// The day of the month on which a fixed day falls.
pub open spec fn day_of_fixed(fixed: int) -> int {
    fixed - gregorian_fixed(year_of_fixed(fixed), month_of_fixed(fixed), 1) + 1
}

/// The Gregorian date of a fixed day.
pub open spec fn date_of_fixed(fixed: int) -> GregorianDate {
    GregorianDate {
        year: year_of_fixed(fixed) as i32,
        month: month_of_fixed(fixed) as u32,
        day: day_of_fixed(fixed) as u32,
    }
}

impl GregorianDate {
    /// The date is one of the calendar.
    pub open spec fn valid(&self) -> bool {
        valid_ymd(self.year as int, self.month as int, self.day as int)
    }

    /// The fixed day number of the date.
    pub open spec fn fixed(&self) -> int {
        gregorian_fixed(self.year as int, self.month as int, self.day as int)
    }

    pub fn new(year: i32, month: u32, day: u32) -> (date: Self)
        ensures
            date.year == year,
            date.month == month,
            date.day == day,
    {
        GregorianDate { year, month, day }
    }
}

/// Floor division by a positive divisor.
pub fn quotient(x: i64, y: i64) -> (q: i64)
    requires
        y > 0,
    ensures
        q == x as int / y as int,
{
    proof {
        lemma_floor_div_bounds(x as int, y as int);
    }
    match x.checked_div_euclid(y) {
        Some(q) => q,
        None => 0,
    }
}

/// The remainder that goes with `quotient`: never negative.
pub fn reminder(x: i64, y: i64) -> (r: i64)
    requires
        y > 0,
    ensures
        r == x as int % y as int,
        0 <= r < y,
{
    proof {
        lemma_floor_div_bounds(x as int, y as int);
    }
    match x.checked_rem_euclid(y) {
        Some(r) => r,
        None => 0,
    }
}

proof fn lemma_floor_div_bounds(x: int, y: int)
    requires
        y > 0,
    ensures
        x >= 0 ==> 0 <= x / y <= x,
        x < 0 ==> x <= x / y < 0,
        0 <= x % y < y,
{
    vstd::arithmetic::div_mod::lemma_fundamental_div_mod(x, y);
    vstd::arithmetic::div_mod::lemma_mod_bound(x, y);
    let q = x / y;
    let r = x % y;
    assert(x == y * q + r);
    if x >= 0 {
        if q < 0 {
            assert(y * q <= -y) by (nonlinear_arith)
                requires
                    q <= -1,
                    y > 0,
            ;
        }
        if q > x {
            assert(y * q >= q) by (nonlinear_arith)
                requires
                    q >= 0,
                    y >= 1,
            ;
        }
    } else {
        if q >= 0 {
            assert(y * q >= 0) by (nonlinear_arith)
                requires
                    q >= 0,
                    y > 0,
            ;
        }
        if q < x {
            assert(y * q <= y * x - y && y * x <= x) by (nonlinear_arith)
                requires
                    q <= x - 1,
                    x < 0,
                    y >= 1,
            ;
        }
    }
}

/// Whether `year` is a Gregorian leap year.
pub fn is_leap_year(year: i32) -> (leap: bool)
    ensures
        leap == is_leap_year_spec(year as int),
{
    let y: i64 = year as i64;
    reminder(y, 4) == 0 && (reminder(y, 100) != 0 || reminder(y, 400) == 0)
}

/// The number of days of `month` in `year`.
pub fn days_in_month(month: u32, year: i32) -> (days: u32)
    requires
        1 <= month <= 12,
    ensures
        days == days_in_month_spec(month as int, year as int),
        28 <= days <= 31,
{
    if month == 2 {
        if is_leap_year(year) {
            29
        } else {
            28
        }
    } else if month == 4 || month == 6 || month == 9 || month == 11 {
        30
    } else {
        31
    }
}

/// The fixed day number of the given day of a month, in 64 bits, so that no
/// year of the 32-bit range overflows.
fn fixed_wide(year: i32, month: u32, day: u32) -> (fixed: i64)
    requires
        1 <= month <= 12,
    ensures
        fixed == gregorian_fixed(year as int, month as int, day as int),
{
    let month: i64 = month as i64;
    let day: i64 = day as i64;
    let previous_year: i64 = year as i64 - 1;
    let leap_correction: i64 = if month <= 2 {
        0
    } else if is_leap_year(year) {
        -1
    } else {
        -2
    };
    365 * previous_year + quotient(previous_year, 4) - quotient(previous_year, 100) + quotient(
        previous_year,
        400,
    ) + quotient(367 * month - 362, 12) + leap_correction + day
}

/// The fixed day number of a Gregorian date.
pub fn to_fixed(year: i32, month: u32, day: u32) -> (fixed: i32)
    requires
        valid_ymd(year as int, month as int, day as int),
        i32::MIN <= gregorian_fixed(year as int, month as int, day as int) <= i32::MAX,
    ensures
        fixed == gregorian_fixed(year as int, month as int, day as int),
{
    fixed_wide(year, month, day) as i32
}

/// The fixed day number of a Gregorian date.
pub fn gregorian_to_absolute(date: GregorianDate) -> (absolute: i32)
    requires
        date.valid(),
        i32::MIN <= date.fixed() <= i32::MAX,
    ensures
        absolute == date.fixed(),
{
    to_fixed(date.year, date.month, date.day)
}

/// Every fixed day lies within the year that `year_of_fixed` gives: after the
/// last day of the year before, and not after that year's own last day.
pub proof fn lemma_year_of_fixed_brackets(fixed: int)
    ensures
        days_before_year(year_of_fixed(fixed)) < fixed <= days_before_year(
            year_of_fixed(fixed) + 1,
        ),
{
    let l0 = fixed - 1;
    let n400 = l0 / 146097;
    let d1 = l0 % 146097;
    let n100 = d1 / 36524;
    let d2 = d1 % 36524;
    let n4 = d2 / 1461;
    let d3 = d2 % 1461;
    let n1 = d3 / 365;
    let base = 400 * n400 + 100 * n100 + 4 * n4 + n1;
    assert(0 <= n100 <= 4);
    assert(0 <= n4 <= 24);
    assert(0 <= n1 <= 4);
    assert(l0 == 146097 * n400 + 36524 * n100 + 1461 * n4 + d3);
    if n100 == 4 {
        assert(d2 == 0 && n4 == 0 && n1 == 0);
        let p = base - 1;
        assert(p / 400 == n400);
        assert(p / 100 == 4 * n400 + 3);
        assert(p / 4 == 100 * n400 + 99);
        assert(base / 400 == n400 + 1);
        assert(base / 100 == 4 * n400 + 4);
        assert(base / 4 == 100 * n400 + 100);
    } else if n1 == 4 {
        assert(d3 == 1460);
        let p = base - 1;
        assert(p / 400 == n400);
        assert(p / 100 == 4 * n400 + n100);
        assert(p / 4 == 100 * n400 + 25 * n100 + n4);
        assert(base / 4 == 100 * n400 + 25 * n100 + n4 + 1);
        assert(base / 100 == (if n4 == 24 { 4 * n400 + n100 + 1 } else { 4 * n400 + n100 }));
        assert(base / 400 == n400);
    } else {
        let p = base;
        assert(p / 400 == n400);
        assert(p / 100 == 4 * n400 + n100);
        assert(p / 4 == 100 * n400 + 25 * n100 + n4);
        let q = base + 1;
        assert(q / 4 == (if n1 == 3 { p / 4 + 1 } else { p / 4 }));
        assert(q / 100 >= p / 100);
        assert(q / 400 >= p / 400);
        assert(q / 100 - q / 400 <= p / 100 - p / 400 + (if n1 == 3 && n4 == 24 { 1int } else { 0int }));
    }
}

/// Later years begin later: the day count before a year grows with the year.
pub proof fn lemma_days_before_year_increases(a: int, b: int)
    requires
        a < b,
    ensures
        days_before_year(a) + 365 * (b - a) <= days_before_year(b),
{
    let p = a - 1;
    let q = b - 1;
    assert(q / 4 >= p / 4);
    assert(q / 400 >= p / 400);
    assert(100 * (q / 100 - p / 100) < q - p + 100);
    assert(400 * (q / 400 - p / 400) > q - p - 400);
    assert(4 * (q / 4 - p / 4) > q - p - 4);
}

/// A day that lies within a year belongs to that year and to no other.
pub proof fn lemma_year_of_fixed_unique(fixed: int, year: int)
    requires
        days_before_year(year) < fixed <= days_before_year(year + 1),
    ensures
        year_of_fixed(fixed) == year,
{
    let found = year_of_fixed(fixed);
    lemma_year_of_fixed_brackets(fixed);
    if found < year {
        if found + 1 < year {
            lemma_days_before_year_increases(found + 1, year);
        }
    } else if year < found {
        if year + 1 < found {
            lemma_days_before_year_increases(year + 1, found);
        }
    }
}

/// Every date of a year within 5,879,000 years of year 0 has a fixed day
/// that 32 bits hold.
pub proof fn lemma_gregorian_fixed_fits(year: int, month: int, day: int)
    requires
        valid_ymd(year, month, day),
        -5_879_000 <= year <= 5_879_000,
    ensures
        i32::MIN <= gregorian_fixed(year, month, day) <= i32::MAX,
{
    lemma_days_before_month_steps(year, month);
}

/// The length of a year: the distance between two new years.
pub proof fn lemma_year_length(year: int)
    ensures
        days_before_year(year + 1) - days_before_year(year) == if is_leap_year_spec(year) {
            366int
        } else {
            365int
        },
{
    let p = year - 1;
    assert(year / 4 == (if year % 4 == 0 { p / 4 + 1 } else { p / 4 }));
    assert(year / 100 == (if year % 100 == 0 { p / 100 + 1 } else { p / 100 }));
    assert(year / 400 == (if year % 400 == 0 { p / 400 + 1 } else { p / 400 }));
    assert(year % 400 == 0 ==> year % 100 == 0);
    assert(year % 100 == 0 ==> year % 4 == 0);
}

/// The months of a year follow each other without gap, and the last one ends
/// with the year.
pub proof fn lemma_days_before_month_steps(year: int, month: int)
    requires
        1 <= month <= 12,
    ensures
        days_before_month(year, 1) == 0,
        month < 12 ==> days_before_month(year, month + 1) == days_before_month(year, month)
            + days_in_month_spec(month, year),
        month == 12 ==> days_before_month(year, 12) + 31 == if is_leap_year_spec(year) {
            366int
        } else {
            365int
        },
        0 <= days_before_month(year, month) <= 335,
{
}

/// The date that `year_of_fixed`, `month_of_fixed` and `day_of_fixed` give
/// for a fixed day is a date of the calendar, and that day is its number.
pub proof fn lemma_date_of_fixed_is_valid(fixed: int)
    ensures
        valid_ymd(year_of_fixed(fixed), month_of_fixed(fixed), day_of_fixed(fixed)),
        gregorian_fixed(year_of_fixed(fixed), month_of_fixed(fixed), day_of_fixed(fixed)) == fixed,
{
    let year = year_of_fixed(fixed);
    lemma_year_of_fixed_brackets(fixed);
    lemma_year_length(year);
    let prior_days = fixed - gregorian_fixed(year, 1, 1);
    assert(gregorian_fixed(year, 1, 1) == days_before_year(year) + 1);
    assert(0 <= prior_days <= 365);
    let leap = is_leap_year_spec(year);
    let correction: int = if fixed < gregorian_fixed(year, 3, 1) {
        0
    } else if leap {
        1
    } else {
        2
    };
    let x = prior_days + correction;
    let month = (12 * x + 373) / 367;
    assert(month == month_of_fixed(fixed));
    assert(gregorian_fixed(year, 3, 1) - gregorian_fixed(year, 1, 1) == (if leap { 60int } else { 59int }));
    assert(0 <= x <= 366);
    assert(1 <= month <= 12);
    if month == 1 {
    } else if month == 2 {
    } else if month == 3 {
    } else if month == 4 {
    } else if month == 5 {
    } else if month == 6 {
    } else if month == 7 {
    } else if month == 8 {
    } else if month == 9 {
    } else if month == 10 {
    } else if month == 11 {
    } else {
    }
}

/// Converting a date of the calendar to its fixed day and back gives the
/// date again, field by field.
pub proof fn lemma_fixed_of_date_round_trip(year: int, month: int, day: int)
    requires
        valid_ymd(year, month, day),
    ensures
        year_of_fixed(gregorian_fixed(year, month, day)) == year,
        month_of_fixed(gregorian_fixed(year, month, day)) == month,
        day_of_fixed(gregorian_fixed(year, month, day)) == day,
{
    let fixed = gregorian_fixed(year, month, day);
    lemma_year_length(year);
    lemma_days_before_month_steps(year, month);
    let leap = is_leap_year_spec(year);
    assert(1 <= days_before_month(year, month) + day <= (if leap { 366int } else { 365int })) by {
        if month == 1 {
        } else if month == 2 {
        } else if month == 3 {
        } else if month == 4 {
        } else if month == 5 {
        } else if month == 6 {
        } else if month == 7 {
        } else if month == 8 {
        } else if month == 9 {
        } else if month == 10 {
        } else if month == 11 {
        } else {
        }
    }
    lemma_year_of_fixed_unique(fixed, year);
    assert(gregorian_fixed(year, 1, 1) == days_before_year(year) + 1);
    assert(gregorian_fixed(year, 3, 1) - gregorian_fixed(year, 1, 1) == (if leap { 60int } else { 59int }));
    let prior_days = fixed - gregorian_fixed(year, 1, 1);
    let correction: int = if fixed < gregorian_fixed(year, 3, 1) {
        0
    } else if leap {
        1
    } else {
        2
    };
    let x = prior_days + correction;
    assert((12 * x + 373) / 367 == month) by {
        if month == 1 {
        } else if month == 2 {
        } else if month == 3 {
        } else if month == 4 {
        } else if month == 5 {
        } else if month == 6 {
        } else if month == 7 {
        } else if month == 8 {
        } else if month == 9 {
        } else if month == 10 {
        } else if month == 11 {
        } else {
        }
    }
}

/// Converting a date of the calendar to its fixed day and back gives the
/// date again.
pub proof fn lemma_gregorian_round_trip(date: GregorianDate)
    requires
        date.valid(),
    ensures
        date_of_fixed(date.fixed()) == date,
{
    lemma_fixed_of_date_round_trip(date.year as int, date.month as int, date.day as int);
}

/// Converting a fixed day to its date and back gives the day again.
pub proof fn lemma_fixed_round_trip(fixed: int)
    requires
        i32::MIN <= fixed <= i32::MAX,
    ensures
        date_of_fixed(fixed).valid(),
        date_of_fixed(fixed).fixed() == fixed,
{
    lemma_date_of_fixed_is_valid(fixed);
    lemma_year_of_fixed_brackets(fixed);
    let year = year_of_fixed(fixed);
    if year > i32::MAX {
        lemma_days_before_year_increases(1, year);
    }
    if year < i32::MIN {
        lemma_days_before_year_increases(year + 1, 1);
    }
}

/// The year in which a fixed day falls.
pub fn year_from_fixed(abs: i32) -> (year: i32)
    ensures
        year == year_of_fixed(abs as int),
        days_before_year(year as int) < abs <= days_before_year(year + 1),
{
    proof {
        lemma_year_of_fixed_brackets(abs as int);
    }
    let l0: i64 = abs as i64 - 1;
    let n400 = quotient(l0, 146097);
    let d1 = reminder(l0, 146097);
    let n100 = quotient(d1, 36524);
    let d2 = reminder(d1, 36524);
    let n4 = quotient(d2, 1461);
    let d3 = reminder(d2, 1461);
    let n1 = quotient(d3, 365);
    let year: i64 = 400 * n400 + 100 * n100 + 4 * n4 + n1;
    if n100 != 4 && n1 != 4 {
        (year + 1) as i32
    } else {
        year as i32
    }
}

/// The Gregorian date of a fixed day. Every day has one, so the result is
/// never `None`.
pub fn absolute_to_gregorian(absolute: i32) -> (date: Option<GregorianDate>)
    ensures
        date == Some(date_of_fixed(absolute as int)),
        date.unwrap().valid(),
        date.unwrap().fixed() == absolute,
{
    proof {
        lemma_date_of_fixed_is_valid(absolute as int);
    }
    let year = year_from_fixed(absolute);
    let fixed: i64 = absolute as i64;
    let prior_days: i64 = fixed - fixed_wide(year, 1, 1);
    let correction: i64 = if fixed < fixed_wide(year, 3, 1) {
        0
    } else if is_leap_year(year) {
        1
    } else {
        2
    };
    proof {
        lemma_year_length(year as int);
        assert(gregorian_fixed(year as int, 1, 1) == days_before_year(year as int) + 1);
    }
    let month: u32 = quotient(12 * (prior_days + correction) + 373, 367) as u32;
    let day: u32 = (fixed - fixed_wide(year, month, 1) + 1) as u32;
    Some(GregorianDate { year, month, day })
}

} // verus!
