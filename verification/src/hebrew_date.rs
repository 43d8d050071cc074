//! Hebrew dates and their fixed day numbers, in both directions.

use crate::error::HebrewDateErrors;
use crate::hebrew::{
    days_in_month_spec, days_in_year_spec, elapsed_days_spec, is_leap_year_spec,
    lemma_days_in_year, lemma_elapsed_days_bounds, lemma_elapsed_days_increases, months_in_year,
    months_in_year_spec, ElapsedDaysCache, EPOCH,
};
use crate::month::{month_of_number, HebrewMonth};
use crate::text::{decimal_int, push_decimal, push_str};
use vstd::prelude::*;

verus! {

/// A date of the Hebrew calendar.
#[derive(PartialEq, Eq, Debug, Clone, Copy, Structural)]
pub struct HebrewDate {
    /// The year of the Hebrew era. The era begins with year 1; year 0 is the
    /// year before it, whose last day is the epoch.
    pub year: u32,
    pub month: HebrewMonth,
    /// The day of the month, from 1.
    pub day: u8,
}

/// The mean Hebrew year has 35975351/98496 days: 235 mean months in 19
/// years. This is the numerator.
pub const MEAN_YEAR_DAYS_TIMES_DIVISOR: i64 = 35975351;

/// The denominator of the mean year's length in days.
pub const MEAN_YEAR_DIVISOR: i64 = 98496;

/// The lengths of the months numbered `from` to `to - 1`, added up.
pub open spec fn days_in_months(year: int, from: int, to: int) -> int
    decreases to - from,
{
    if from >= to {
        0
    } else {
        days_in_months(year, from, to - 1) + days_in_month_spec(month_of_number(to - 1), year)
    }
}

/// The days of `year` that lie before the first of a month. The year begins
/// with Tishrei, so the months from Nisan to Elul come after all the months
/// from Tishrei to the year's last.
pub open spec fn days_before_month(year: int, month: HebrewMonth) -> int {
    if month.number() < 7 {
        days_in_months(year, 7, months_in_year_spec(year) + 1) + days_in_months(
            year,
            1,
            month.number(),
        )
    } else {
        days_in_months(year, 7, month.number())
    }
}

/// The fixed day number of a day of a Hebrew month.
pub open spec fn hebrew_fixed(year: int, month: HebrewMonth, day: int) -> int {
    EPOCH + elapsed_days_spec(year) + days_before_month(year, month) + day - 1
}

/// The text that goes with a day before the calendar's first.
pub open spec fn before_epoch_message(absolute: int) -> Seq<char> {
    decimal_int(absolute) + " is before creation of time"@
}

/// The month that follows `month` in `year`; after the year's last month
/// comes Nisan.
pub open spec fn month_after(month: HebrewMonth, year: int) -> HebrewMonth {
    if month.number() >= months_in_year_spec(year) {
        HebrewMonth::Nisan
    } else {
        month_of_number(month.number() + 1)
    }
}

/// The Hebrew date of a fixed day: the date of the calendar that has this
/// number. No day has two.
pub open spec fn date_of_fixed(absolute: int) -> HebrewDate {
    choose|date: HebrewDate| date.valid() && date.fixed() == absolute
}

/// Whether `result` is what the conversion of a fixed day gives: from the
/// epoch on the one date of the calendar with that number, in year 1 or
/// later for every day after the epoch; before the epoch the error whose
/// text names the day.
pub open spec fn is_date_of(result: Result<HebrewDate, HebrewDateErrors>, absolute: int) -> bool {
    match result {
        Ok(date) => {
            &&& absolute >= EPOCH
            &&& date.valid()
            &&& date.fixed() == absolute
            &&& date == date_of_fixed(absolute)
            &&& (date.year >= 1 <==> absolute > EPOCH)
        },
        Err(error) => {
            &&& absolute < EPOCH
            &&& match error {
                HebrewDateErrors::BeforeEpochError(text) => text@ == before_epoch_message(absolute),
                HebrewDateErrors::BadMonthArgument => false,
            }
        },
    }
}

impl HebrewDate {
    /// The date is one of the calendar: a month that the year has, and a day
    /// that the month has.
    pub open spec fn valid(&self) -> bool {
        &&& self.month.number() <= months_in_year_spec(self.year as int)
        &&& 1 <= self.day <= days_in_month_spec(self.month, self.year as int)
    }

    /// The fixed day number of the date.
    pub open spec fn fixed(&self) -> int {
        hebrew_fixed(self.year as int, self.month, self.day as int)
    }

    pub fn new(year: u32, month: HebrewMonth, day: u8) -> (date: Self)
        ensures
            date.year == year,
            date.month == month,
            date.day == day,
    {
        Self { year, month, day }
    }

    /// The date with the month given by its number.
    pub fn from_ymd(year: u32, month: u8, day: u8) -> (date: Self)
        requires
            1 <= month <= 13,
        ensures
            date.year == year,
            date.month == month_of_number(month as int),
            date.day == day,
    {
        Self::new(year, HebrewMonth::from(month), day)
    }

    /// The fixed day number of the date.
    pub fn into_absolute(self) -> (absolute: i32)
        requires
            self.year >= 1,
            self.fixed() <= i32::MAX,
        ensures
            absolute == self.fixed(),
    {
        hebrew_to_absolute(self.year, self.month, self.day)
    }

    /// The Hebrew date of a fixed day: the one date of the calendar with that
    /// number, for every day from the epoch on, and an error that names the
    /// day for every earlier one. The epoch itself is the eve of the first
    /// new year, 29 Elul of year 0; every later day lies in year 1 or after.
    pub fn try_from_absolute(absolute: i32) -> (result: Result<Self, HebrewDateErrors>)
        ensures
            is_date_of(result, absolute as int),
    {
        let mut cache = ElapsedDaysCache::new();
        try_from_absolute_with(&mut cache, absolute)
    }
}

/// The sum of month lengths grows by whole months of 29 or 30 days.
pub proof fn lemma_days_in_months_bounds(year: int, from: int, to: int)
    requires
        from <= to,
    ensures
        29 * (to - from) <= days_in_months(year, from, to) <= 30 * (to - from),
    decreases to - from,
{
    if from < to {
        lemma_days_in_months_bounds(year, from, to - 1);
    }
}

/// Every day of every month of a year up to 5,883,000 has a fixed day that
/// 32 bits hold.
pub proof fn lemma_hebrew_fixed_fits(year: int, month: HebrewMonth, day: int)
    requires
        1 <= year <= 5_883_000,
        0 <= day <= 255,
    ensures
        EPOCH <= hebrew_fixed(year, month, day) <= i32::MAX,
{
    lemma_elapsed_days_bounds(year);
    lemma_days_in_months_bounds(year, 7, months_in_year_spec(year) + 1);
    if month.number() < 7 {
        lemma_days_in_months_bounds(year, 1, month.number());
    } else {
        lemma_days_in_months_bounds(year, 7, month.number());
    }
}

/// Where each month begins: the days before it, counted from Tishrei for
/// the months from Tishrei on and from Nisan for the months from Nisan to
/// Elul.
pub proof fn lemma_month_starts(year: int)
    ensures
        ({
            let c = days_in_month_spec(HebrewMonth::Cheshvan, year);
            let k = days_in_month_spec(HebrewMonth::Kislev, year);
            let a = days_in_month_spec(HebrewMonth::AdarI, year);
            &&& days_in_months(year, 7, 7) == 0
            &&& days_in_months(year, 7, 8) == 30
            &&& days_in_months(year, 7, 9) == 30 + c
            &&& days_in_months(year, 7, 10) == 30 + c + k
            &&& days_in_months(year, 7, 11) == 59 + c + k
            &&& days_in_months(year, 7, 12) == 89 + c + k
            &&& days_in_months(year, 7, 13) == 89 + c + k + a
            &&& days_in_months(year, 7, 14) == 118 + c + k + a
            &&& days_in_months(year, 1, 1) == 0
            &&& days_in_months(year, 1, 2) == 30
            &&& days_in_months(year, 1, 3) == 59
            &&& days_in_months(year, 1, 4) == 89
            &&& days_in_months(year, 1, 5) == 118
            &&& days_in_months(year, 1, 6) == 148
            &&& days_in_months(year, 1, 7) == 177
        }),
{
    let c = days_in_month_spec(HebrewMonth::Cheshvan, year);
    let k = days_in_month_spec(HebrewMonth::Kislev, year);
    let a = days_in_month_spec(HebrewMonth::AdarI, year);
    assert(days_in_months(year, 7, 7) == 0);
    assert(days_in_months(year, 7, 8) == 30);
    assert(days_in_months(year, 7, 9) == 30 + c);
    assert(days_in_months(year, 7, 10) == 30 + c + k);
    assert(days_in_months(year, 7, 11) == 59 + c + k);
    assert(days_in_months(year, 7, 12) == 89 + c + k);
    assert(days_in_months(year, 7, 13) == 89 + c + k + a);
    assert(days_in_months(year, 7, 14) == 118 + c + k + a);
    assert(days_in_months(year, 1, 1) == 0);
    assert(days_in_months(year, 1, 2) == 30);
    assert(days_in_months(year, 1, 3) == 59);
    assert(days_in_months(year, 1, 4) == 89);
    assert(days_in_months(year, 1, 5) == 118);
    assert(days_in_months(year, 1, 6) == 148);
    assert(days_in_months(year, 1, 7) == 177);
}

/// The days of a year before each of its months, and the year's length as
/// the months from Tishrei to Elul make it up.
pub proof fn lemma_days_before_month_values(year: int)
    ensures
        ({
            let c = days_in_month_spec(HebrewMonth::Cheshvan, year);
            let k = days_in_month_spec(HebrewMonth::Kislev, year);
            let first_half = if is_leap_year_spec(year) {
                148 + c + k
            } else {
                118 + c + k
            };
            &&& days_before_month(year, HebrewMonth::Tishrei) == 0
            &&& days_before_month(year, HebrewMonth::Cheshvan) == 30
            &&& days_before_month(year, HebrewMonth::Kislev) == 30 + c
            &&& days_before_month(year, HebrewMonth::Tevet) == 30 + c + k
            &&& days_before_month(year, HebrewMonth::Shvat) == 59 + c + k
            &&& days_before_month(year, HebrewMonth::AdarI) == 89 + c + k
            &&& is_leap_year_spec(year) ==> days_before_month(year, HebrewMonth::AdarII) == 119 + c
                + k
            &&& days_before_month(year, HebrewMonth::Nisan) == first_half
            &&& days_before_month(year, HebrewMonth::Iyyar) == first_half + 30
            &&& days_before_month(year, HebrewMonth::Sivan) == first_half + 59
            &&& days_before_month(year, HebrewMonth::Tamuz) == first_half + 89
            &&& days_before_month(year, HebrewMonth::Av) == first_half + 118
            &&& days_before_month(year, HebrewMonth::Elul) == first_half + 148
            &&& days_in_year_spec(year) == first_half + 177
            &&& 29 <= c <= 30
            &&& 29 <= k <= 30
        }),
{
    lemma_month_starts(year);
    lemma_days_in_year(year);
}

/// The months of a year fill it: each begins where the one before it ends,
/// Nisan follows the year's last month, and the day after the last of Elul
/// is the next new year.
pub proof fn lemma_months_fill_year(year: int)
    ensures
        days_before_month(year, HebrewMonth::Tishrei) == 0,
        forall|month: HebrewMonth|
            month.number() <= months_in_year_spec(year) && month != HebrewMonth::Elul
                ==> #[trigger] days_before_month(year, month_after(month, year))
                == days_before_month(year, month) + days_in_month_spec(month, year),
        days_before_month(year, HebrewMonth::Elul) + 29 == days_in_year_spec(year),
{
    lemma_days_before_month_values(year);
    assert forall|month: HebrewMonth|
        month.number() <= months_in_year_spec(year) && month != HebrewMonth::Elul
            implies #[trigger] days_before_month(year, month_after(month, year))
            == days_before_month(year, month) + days_in_month_spec(month, year) by {
        lemma_month_step(year, month);
    }
}

/// A month other than Elul ends where the month after it begins.
proof fn lemma_month_step(year: int, month: HebrewMonth)
    requires
        month.number() <= months_in_year_spec(year),
        month != HebrewMonth::Elul,
    ensures
        days_before_month(year, month_after(month, year)) == days_before_month(year, month)
            + days_in_month_spec(month, year),
{
    lemma_days_before_month_values(year);
    match month {
        HebrewMonth::Nisan => {},
        HebrewMonth::Iyyar => {},
        HebrewMonth::Sivan => {},
        HebrewMonth::Tamuz => {},
        HebrewMonth::Av => {},
        HebrewMonth::Elul => {},
        HebrewMonth::Tishrei => {},
        HebrewMonth::Cheshvan => {},
        HebrewMonth::Kislev => {},
        HebrewMonth::Tevet => {},
        HebrewMonth::Shvat => {},
        HebrewMonth::AdarI => {},
        HebrewMonth::AdarII => {},
    }
}

/// A date of the calendar lies within its year: not before the new year and
/// before the next one.
pub proof fn lemma_date_within_year(date: HebrewDate)
    requires
        date.valid(),
    ensures
        EPOCH + elapsed_days_spec(date.year as int) <= date.fixed() < EPOCH + elapsed_days_spec(
            date.year + 1,
        ),
{
    lemma_days_before_month_values(date.year as int);
}

/// The position of a month within the year that begins with Tishrei.
pub open spec fn month_position(month: HebrewMonth, year: int) -> int {
    if month.number() >= 7 {
        month.number() - 7
    } else {
        month.number() + months_in_year_spec(year) - 7
    }
}

/// Of two months of a year, the later one begins after the earlier one has
/// ended.
pub proof fn lemma_month_starts_apart(year: int, a: HebrewMonth, b: HebrewMonth)
    requires
        a.number() <= months_in_year_spec(year),
        b.number() <= months_in_year_spec(year),
        month_position(a, year) < month_position(b, year),
    ensures
        days_before_month(year, a) + days_in_month_spec(a, year) <= days_before_month(year, b),
{
    lemma_days_before_month_values(year);
}

/// Two dates of the calendar with the same fixed day are the same date, so
/// the date that a fixed day is converted to is the date it was made from.
pub proof fn lemma_hebrew_fixed_is_injective(a: HebrewDate, b: HebrewDate)
    requires
        a.valid(),
        b.valid(),
        a.fixed() == b.fixed(),
    ensures
        a == b,
{
    lemma_date_within_year(a);
    lemma_date_within_year(b);
    if a.year < b.year {
        lemma_elapsed_days_increases(a.year + 1, b.year as int);
    } else if b.year < a.year {
        lemma_elapsed_days_increases(b.year + 1, a.year as int);
    }
    assert(a.year == b.year);
    let year = a.year as int;
    assert(days_before_month(year, a.month) + a.day == days_before_month(year, b.month) + b.day);
    if month_position(a.month, year) < month_position(b.month, year) {
        lemma_month_starts_apart(year, a.month, b.month);
    } else if month_position(b.month, year) < month_position(a.month, year) {
        lemma_month_starts_apart(year, b.month, a.month);
    }
}

/// Converting a date of the calendar to its fixed day and back gives the
/// date again.
pub proof fn lemma_hebrew_round_trip(date: HebrewDate)
    requires
        date.valid(),
    ensures
        date_of_fixed(date.fixed()) == date,
        date.year >= 1 ==> date.fixed() > EPOCH,
{
    lemma_date_within_year(date);
    if date.year >= 1 {
        lemma_elapsed_days_bounds(date.year as int);
    }
    lemma_hebrew_fixed_is_injective(date_of_fixed(date.fixed()), date);
}

/// The epoch is the last day of the year before the first: 29 Elul of year
/// 0.
pub proof fn lemma_epoch_date()
    ensures
        (HebrewDate { year: 0, month: HebrewMonth::Elul, day: 29 }).valid(),
        (HebrewDate { year: 0, month: HebrewMonth::Elul, day: 29 }).fixed() == EPOCH,
{
    lemma_months_fill_year(0);
}

/// The date that follows a date: the next day of the same month, or the
/// first of the next month, or, after the last day of Elul, the first of
/// Tishrei of the next year.
pub open spec fn day_after(date: HebrewDate) -> HebrewDate {
    if date.day < days_in_month_spec(date.month, date.year as int) {
        HebrewDate { year: date.year, month: date.month, day: (date.day + 1) as u8 }
    } else if date.month != HebrewMonth::Elul {
        HebrewDate { year: date.year, month: month_after(date.month, date.year as int), day: 1 }
    } else {
        HebrewDate { year: (date.year + 1) as u32, month: HebrewMonth::Tishrei, day: 1 }
    }
}

/// The date that follows a date of the calendar is one of the calendar, and
/// its fixed day is the next.
pub proof fn lemma_day_after(date: HebrewDate)
    requires
        date.valid(),
        date.year < u32::MAX,
    ensures
        day_after(date).valid(),
        day_after(date).fixed() == date.fixed() + 1,
{
    let year = date.year as int;
    if date.day < days_in_month_spec(date.month, year) {
    } else if date.month != HebrewMonth::Elul {
        lemma_day_after_in_year(date);
    } else {
        lemma_months_fill_year(year);
        lemma_months_fill_year(year + 1);
    }
}

/// Every day from the epoch on, as far as 32 bits count, has a date of the
/// calendar.
pub proof fn lemma_every_day_has_a_date(absolute: int)
    requires
        EPOCH <= absolute <= i32::MAX,
    ensures
        date_of_fixed(absolute).valid(),
        date_of_fixed(absolute).fixed() == absolute,
{
    if absolute == EPOCH {
        lemma_epoch_date();
    } else {
        lemma_later_day_has_a_date(absolute);
    }
}

/// Every day after the epoch, as far as 32 bits count, has a date in year 1
/// or later.
proof fn lemma_later_day_has_a_date(absolute: int)
    requires
        EPOCH < absolute <= i32::MAX,
    ensures
        date_of_fixed(absolute).valid(),
        date_of_fixed(absolute).fixed() == absolute,
{
    let days = absolute - EPOCH;
    let year = lemma_year_of_day(days, 1);
    lemma_elapsed_days_bounds(year);
    lemma_days_before_month_values(year);
    let offset = days - elapsed_days_spec(year);
    let c = days_in_month_spec(HebrewMonth::Cheshvan, year);
    let k = days_in_month_spec(HebrewMonth::Kislev, year);
    let first_half = days_before_month(year, HebrewMonth::Nisan);
    let month = if offset < 30 {
        HebrewMonth::Tishrei
    } else if offset < 30 + c {
        HebrewMonth::Cheshvan
    } else if offset < 30 + c + k {
        HebrewMonth::Kislev
    } else if offset < 59 + c + k {
        HebrewMonth::Tevet
    } else if offset < 89 + c + k {
        HebrewMonth::Shvat
    } else if offset < 119 + c + k && is_leap_year_spec(year) {
        HebrewMonth::AdarI
    } else if offset < first_half && is_leap_year_spec(year) {
        HebrewMonth::AdarII
    } else if offset < first_half {
        HebrewMonth::AdarI
    } else if offset < first_half + 30 {
        HebrewMonth::Nisan
    } else if offset < first_half + 59 {
        HebrewMonth::Iyyar
    } else if offset < first_half + 89 {
        HebrewMonth::Sivan
    } else if offset < first_half + 118 {
        HebrewMonth::Tamuz
    } else if offset < first_half + 148 {
        HebrewMonth::Av
    } else {
        HebrewMonth::Elul
    };
    let day = offset - days_before_month(year, month) + 1;
    let date = HebrewDate { year: year as u32, month, day: day as u8 };
    assert(date.valid() && date.fixed() == absolute);
}

/// The year on whose days the given day of the count falls, sought from
/// `from` on.
proof fn lemma_year_of_day(days: int, from: int) -> (year: int)
    requires
        elapsed_days_spec(from) <= days,
    ensures
        from <= year,
        elapsed_days_spec(year) <= days < elapsed_days_spec(year + 1),
    decreases days - elapsed_days_spec(from),
{
    lemma_days_in_year(from);
    if days < elapsed_days_spec(from + 1) {
        from
    } else {
        lemma_year_of_day(days, from + 1)
    }
}

/// Of two dates of the calendar whose fixed days follow each other, the
/// second is the date after the first.
pub proof fn lemma_next_day_is_adjacent(today: HebrewDate, tomorrow: HebrewDate)
    requires
        today.valid(),
        tomorrow.valid(),
        tomorrow.fixed() == today.fixed() + 1,
    ensures
        tomorrow == day_after(today),
{
    if today.year == u32::MAX {
        lemma_date_within_year(today);
        lemma_date_within_year(tomorrow);
        lemma_days_in_year(today.year as int);
        if tomorrow.year < today.year {
            lemma_elapsed_days_increases(tomorrow.year + 1, today.year as int);
        }
        assert(tomorrow.year == today.year);
        lemma_months_fill_year(today.year as int);
        if today.day < days_in_month_spec(today.month, today.year as int) {
        } else {
            lemma_day_after_in_year(today);
        }
    } else {
        lemma_day_after(today);
    }
    lemma_hebrew_fixed_is_injective(day_after(today), tomorrow);
}

/// Consecutive days have adjacent dates: the date of a day's morrow is the
/// next day of the same month, or the first of the next month, or, after the
/// last day of Elul, the first of Tishrei of the next year.
pub proof fn lemma_consecutive_days(absolute: int)
    requires
        EPOCH <= absolute < i32::MAX,
    ensures
        date_of_fixed(absolute + 1) == day_after(date_of_fixed(absolute)),
{
    lemma_every_day_has_a_date(absolute);
    lemma_every_day_has_a_date(absolute + 1);
    lemma_next_day_is_adjacent(date_of_fixed(absolute), date_of_fixed(absolute + 1));
}

/// Within a year the date after a date is one of the calendar, and its fixed
/// day is the next.
proof fn lemma_day_after_in_year(date: HebrewDate)
    requires
        date.valid(),
        date.month != HebrewMonth::Elul,
        date.day == days_in_month_spec(date.month, date.year as int),
    ensures
        day_after(date).valid(),
        day_after(date).fixed() == date.fixed() + 1,
{
    let year = date.year as int;
    let next = day_after(date);
    lemma_months_fill_year(year);
    let n = date.month.number();
    if n < months_in_year_spec(year) {
        assert(month_of_number(n + 1).number() == n + 1);
    }
    assert(next.month.number() <= months_in_year_spec(year));
    assert(days_in_month_spec(next.month, year) >= 29);
}

/// The fixed day number in 64 bits, for every year whose end 32 bits hold.
fn hebrew_fixed_wide(cache: &mut ElapsedDaysCache, year: u32, month: HebrewMonth, day: u8) -> (fixed:
    i64)
    requires
        old(cache).wf(),
        year >= 1,
        elapsed_days_spec(year + 1) <= u32::MAX,
    ensures
        final(cache).wf(),
        fixed == hebrew_fixed(year as int, month, day as int),
{
    proof {
        lemma_days_in_year(year as int);
        lemma_elapsed_days_bounds(year as int);
        lemma_elapsed_days_bounds(year + 1);
    }
    let mut temp_absolute: u32 = day as u32;
    let number: u8 = month.to_number();
    if number < 7 {
        let last: u8 = months_in_year(year);
        let mut i: u8 = 7;
        while i <= last
            invariant
                cache.wf(),
                year >= 1,
                elapsed_days_spec(year + 1) <= u32::MAX,
                7 <= i <= last + 1,
                last <= 13,
                temp_absolute == day + days_in_months(year as int, 7, i as int),
                temp_absolute <= 255 + 30 * (i - 7),
            decreases last + 1 - i,
        {
            temp_absolute += cache.days_in_month(HebrewMonth::from(i), year) as u32;
            i += 1;
        }
        let mut i: u8 = 1;
        while i < number
            invariant
                cache.wf(),
                year >= 1,
                elapsed_days_spec(year + 1) <= u32::MAX,
                1 <= i <= number < 7,
                temp_absolute == day + days_in_months(year as int, 7, last + 1) + days_in_months(
                    year as int,
                    1,
                    i as int,
                ),
                temp_absolute <= 255 + 30 * 7 + 30 * (i - 1),
            decreases number - i,
        {
            temp_absolute += cache.days_in_month(HebrewMonth::from(i), year) as u32;
            i += 1;
        }
    } else {
        let mut i: u8 = 7;
        while i < number
            invariant
                cache.wf(),
                year >= 1,
                elapsed_days_spec(year + 1) <= u32::MAX,
                7 <= i <= number <= 13,
                temp_absolute == day + days_in_months(year as int, 7, i as int),
                temp_absolute <= 255 + 30 * (i - 7),
            decreases number - i,
        {
            temp_absolute += cache.days_in_month(HebrewMonth::from(i), year) as u32;
            i += 1;
        }
    }
    EPOCH as i64 + cache.elapsed_days(year) as i64 + temp_absolute as i64 - 1
}

/// The fixed day number of a day of a Hebrew month, with the new years taken
/// from and kept in `cache`.
pub fn hebrew_to_absolute_with(
    cache: &mut ElapsedDaysCache,
    year: u32,
    month: HebrewMonth,
    day: u8,
) -> (absolute: i32)
    requires
        old(cache).wf(),
        year >= 1,
        hebrew_fixed(year as int, month, day as int) <= i32::MAX,
    ensures
        final(cache).wf(),
        absolute == hebrew_fixed(year as int, month, day as int),
{
    proof {
        lemma_days_in_year(year as int);
        lemma_elapsed_days_bounds(year as int);
        if month.number() < 7 {
            lemma_days_in_months_bounds(year as int, 7, months_in_year_spec(year as int) + 1);
            lemma_days_in_months_bounds(year as int, 1, month.number());
        } else {
            lemma_days_in_months_bounds(year as int, 7, month.number());
        }
    }
    hebrew_fixed_wide(cache, year, month, day) as i32
}

/// The fixed day number of a day of a Hebrew month.
pub fn hebrew_to_absolute(year: u32, month: HebrewMonth, day: u8) -> (absolute: i32)
    requires
        year >= 1,
        hebrew_fixed(year as int, month, day as int) <= i32::MAX,
    ensures
        absolute == hebrew_fixed(year as int, month, day as int),
{
    let mut cache = ElapsedDaysCache::new();
    hebrew_to_absolute_with(&mut cache, year, month, day)
}

/// The fixed day number of the new year of `year`.
pub fn new_year(year: u32) -> (absolute: i32)
    requires
        year >= 1,
        EPOCH + elapsed_days_spec(year as int) <= i32::MAX,
    ensures
        absolute == EPOCH + elapsed_days_spec(year as int),
{
    proof {
        lemma_elapsed_days_bounds(year as int);
    }
    (EPOCH as i64 + crate::hebrew::elapsed_days(year) as i64) as i32
}

/// The text that goes with a day before the calendar's first.
pub fn before_epoch_text(absolute: i32) -> (text: String)
    ensures
        text@ == before_epoch_message(absolute as int),
{
    let mut text = String::new();
    push_decimal(&mut text, absolute as i64);
    push_str(&mut text, " is before creation of time");
    proof {
        assert(text@ =~= before_epoch_message(absolute as int));
    }
    text
}

/// The Hebrew year on whose days a fixed day falls: a first guess from the
/// mean length of a year, then a walk forward to the first new year after
/// the day, and one year back.
pub fn year_of_absolute(cache: &mut ElapsedDaysCache, absolute: i32) -> (year: u32)
    requires
        old(cache).wf(),
        absolute > EPOCH,
    ensures
        final(cache).wf(),
        year >= 1,
        EPOCH + elapsed_days_spec(year as int) <= absolute < EPOCH + elapsed_days_spec(year + 1),
        elapsed_days_spec(year + 1) <= u32::MAX,
{
    let target: i64 = absolute as i64;
    let days: i64 = target - EPOCH as i64;
    let estimate: i64 = days * MEAN_YEAR_DIVISOR / MEAN_YEAR_DAYS_TIMES_DIVISOR;
    let first: u32 = if estimate < 1 {
        1
    } else {
        estimate as u32
    };
    proof {
        lemma_elapsed_days_bounds(first as int);
        lemma_days_in_year(first as int);
    }
    let mut year: u32 = first;
    let mut start: i64 = EPOCH as i64 + cache.elapsed_days(year) as i64;
    while start <= target
        invariant
            cache.wf(),
            target == absolute,
            days == target - EPOCH,
            0 < days <= 0x8000_0000 + 1373428,
            1 <= first <= year,
            elapsed_days_spec(first as int) <= days,
            year > first ==> elapsed_days_spec(year - 1) <= days,
            elapsed_days_spec(year as int) <= days + 385,
            start == EPOCH + elapsed_days_spec(year as int),
        decreases days + 385 - elapsed_days_spec(year as int),
    {
        proof {
            lemma_elapsed_days_bounds(year as int);
            lemma_days_in_year(year as int);
        }
        year += 1;
        start = EPOCH as i64 + cache.elapsed_days(year) as i64;
    }
    year - 1
}

/// The number of the month of `year` on whose days a fixed day of that year
/// falls: from Tishrei on for a day before the first of Nisan, else from
/// Nisan on, month by month until one ends on or after the day.
pub fn month_of_absolute(cache: &mut ElapsedDaysCache, year: u32, absolute: i32) -> (month: u8)
    requires
        old(cache).wf(),
        year >= 1,
        elapsed_days_spec(year + 1) <= u32::MAX,
        EPOCH + elapsed_days_spec(year as int) <= absolute < EPOCH + elapsed_days_spec(year + 1),
    ensures
        final(cache).wf(),
        1 <= month <= months_in_year_spec(year as int),
        hebrew_fixed(year as int, month_of_number(month as int), 1) <= absolute,
        absolute <= hebrew_fixed(
            year as int,
            month_of_number(month as int),
            days_in_month_spec(month_of_number(month as int), year as int),
        ),
{
    let target: i64 = absolute as i64;
    proof {
        lemma_months_fill_year(year as int);
    }
    let nisan: i64 = hebrew_fixed_wide(cache, year, HebrewMonth::Nisan, 1);
    let last: u8 = months_in_year(year);
    let mut month: u8 = if target < nisan {
        7
    } else {
        1
    };
    let ghost from_tishrei = target < nisan;
    let mut length: u8 = cache.days_in_month(HebrewMonth::from(month), year);
    let mut month_end: i64 = hebrew_fixed_wide(cache, year, HebrewMonth::from(month), length);
    while target > month_end
        invariant
            cache.wf(),
            year >= 1,
            target == absolute,
            elapsed_days_spec(year + 1) <= u32::MAX,
            last == months_in_year_spec(year as int),
            nisan == hebrew_fixed(year as int, HebrewMonth::Nisan, 1),
            from_tishrei == (target < nisan),
            from_tishrei ==> 7 <= month <= last,
            !from_tishrei ==> 1 <= month <= 6,
            target < EPOCH + elapsed_days_spec(year + 1),
            hebrew_fixed(year as int, month_of_number(month as int), 1) <= target,
            length == days_in_month_spec(month_of_number(month as int), year as int),
            month_end == hebrew_fixed(year as int, month_of_number(month as int), length as int),
        decreases 14 - month,
    {
        proof {
            lemma_months_fill_year(year as int);
            let current = month_of_number(month as int);
            assert(current.number() == month);
            if month < last && month != 6 {
                assert(month_after(current, year as int) == month_of_number(month + 1));
            }
        }
        month += 1;
        length = cache.days_in_month(HebrewMonth::from(month), year);
        month_end = hebrew_fixed_wide(cache, year, HebrewMonth::from(month), length);
    }
    month
}

/// The Hebrew date of a fixed day, with the new years taken from and kept in
/// `cache`.
pub fn try_from_absolute_with(cache: &mut ElapsedDaysCache, absolute: i32) -> (result: Result<
    HebrewDate,
    HebrewDateErrors,
>)
    requires
        old(cache).wf(),
    ensures
        final(cache).wf(),
        is_date_of(result, absolute as int),
{
    if absolute < EPOCH {
        return Err(HebrewDateErrors::BeforeEpochError(before_epoch_text(absolute)));
    }
    if absolute == EPOCH {
        let eve = HebrewDate { year: 0, month: HebrewMonth::Elul, day: 29 };
        proof {
            lemma_epoch_date();
            lemma_hebrew_fixed_is_injective(date_of_fixed(absolute as int), eve);
        }
        return Ok(eve);
    }
    let year = year_of_absolute(cache, absolute);
    let number = month_of_absolute(cache, year, absolute);
    let month = HebrewMonth::from(number);
    let month_start: i64 = hebrew_fixed_wide(cache, year, month, 1);
    let day: i64 = 1 + absolute as i64 - month_start;
    let date = HebrewDate { year, month, day: day as u8 };
    proof {
        assert(date.valid() && date.fixed() == absolute);
        lemma_hebrew_fixed_is_injective(date_of_fixed(absolute as int), date);
    }
    Ok(date)
}

} // verus!
