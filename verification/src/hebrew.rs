//! The Hebrew calendar: the leap-year cycle, the mean conjunction that fixes
//! each new year, the postponement rules, month lengths, and the conversion
//! between a Hebrew date and its fixed day number.

use crate::month::HebrewMonth;
use std::collections::HashMap;
use vstd::prelude::*;

verus! {

/// The fixed day number from which the Hebrew days are counted: the day
/// before the first new year, which is day 1 of the count.
pub const EPOCH: i32 = -1373428;

/// The 19-year cycle holds seven leap years.
pub open spec fn is_leap_year_spec(year: int) -> bool {
    (1 + 7 * year) % 19 < 7
}

/// A leap year has thirteen months, a common year twelve.
pub open spec fn months_in_year_spec(year: int) -> int {
    if is_leap_year_spec(year) {
        13
    } else {
        12
    }
}

/// Leap years among the years 1 to `year - 1`.
pub open spec fn leap_years_before(year: int) -> int {
    (7 * (year - 1) + 1) / 19
}

/// Lunar months from the calendar's first new year to the new year of `year`.
pub open spec fn months_before_year(year: int) -> int {
    let p = year - 1;
    235 * (p / 19) + 12 * (p % 19) + (7 * (p % 19) + 1) / 19
}

/// Parts from the start of the week in which the calendar begins to the
/// mean conjunction of Tishrei of `year`. A part is 1/1080 of an hour, so a
/// day has 25920. The first conjunction falls 5 hours and 204 parts into the
/// second day (5604 parts), and each mean month adds 29 days, 12 hours and
/// 793 parts (765433 parts).
pub open spec fn molad_of_year(year: int) -> int {
    5604 + 765433 * months_before_year(year)
}

/// The day on which a year begins, given its mean conjunction in parts,
/// whether it is a leap year, and whether the year before it was one. The
/// conjunction's day is put off by one when it falls at or after 18 hours,
/// on a Tuesday at or after 9 hours 204 parts in a common year, or on a
/// Monday at or after 15 hours 589 parts after a leap year; and by one more
/// when the day would be a Sunday, a Wednesday or a Friday.
pub open spec fn new_year_day(molad: int, leap: bool, after_leap: bool) -> int {
    let day = 1 + molad / 25920;
    let parts = molad % 25920;
    let postponed = if parts >= 19440 || (day % 7 == 2 && parts >= 9924 && !leap) || (day % 7 == 1
        && parts >= 16789 && after_leap) {
        day + 1
    } else {
        day
    };
    if postponed % 7 == 0 || postponed % 7 == 3 || postponed % 7 == 5 {
        postponed + 1
    } else {
        postponed
    }
}

/// Days from the epoch to the new year (1 Tishrei) of `year`.
pub open spec fn elapsed_days_spec(year: int) -> int {
    new_year_day(molad_of_year(year), is_leap_year_spec(year), is_leap_year_spec(year - 1))
}

/// The length of a year: from its new year to the next.
pub open spec fn days_in_year_spec(year: int) -> int {
    elapsed_days_spec(year + 1) - elapsed_days_spec(year)
}

/// A year of twelve months has 353, 354 or 355 days, one of thirteen has
/// 383, 384 or 385, whatever the conjunction it starts from.
pub proof fn lemma_year_length_from_molad(
    molad: int,
    after_leap: bool,
    leap: bool,
    next_leap: bool,
)
    ensures
        ({
            let months: int = if leap {
                13
            } else {
                12
            };
            let length = new_year_day(molad + 765433 * months, next_leap, leap) - new_year_day(
                molad,
                leap,
                after_leap,
            );
            if leap {
                383 <= length <= 385
            } else {
                353 <= length <= 355
            }
        }),
{
    let d = molad / 25920;
    let p = molad % 25920;
    let w = d / 7;
    let dow = d % 7;
    assert(molad == 25920 * (7 * w + dow) + p);
    let next = molad + 765433 * (if leap { 13int } else { 12int });
    let d2 = next / 25920;
    if leap {
        assert(next == 25920 * (7 * w + dow + 383) + p + 23269);
        assert(d2 == d + 383 + (if p + 23269 >= 25920 { 1int } else { 0int }));
    } else {
        assert(next == 25920 * (7 * w + dow + 354) + p + 9516);
        assert(d2 == d + 354 + (if p + 9516 >= 25920 { 1int } else { 0int }));
    }
    assert((d + 1) % 7 == (dow + 1) % 7);
    assert((d + 2) % 7 == (dow + 2) % 7);
    assert((d + 3) % 7 == (dow + 3) % 7);
    assert((d2 + 1) % 7 == (dow + (d2 - d) + 1) % 7);
    assert((d2 + 2) % 7 == (dow + (d2 - d) + 2) % 7);
    assert((d2 + 3) % 7 == (dow + (d2 - d) + 3) % 7);
}

/// A year adds its own months, twelve or thirteen, to the count of months.
pub proof fn lemma_months_in_year(year: int)
    ensures
        months_before_year(year + 1) == months_before_year(year) + months_in_year_spec(year),
        molad_of_year(year + 1) == molad_of_year(year) + 765433 * months_in_year_spec(year),
{
    let p = year - 1;
    let c = p / 19;
    let r = p % 19;
    assert(p == 19 * c + r);
    assert((1 + 7 * year) % 19 == (7 * r + 8) % 19);
    if r == 18 {
        assert(year / 19 == c + 1 && year % 19 == 0);
    } else {
        assert(year / 19 == c && year % 19 == r + 1);
    }
}

/// The six lengths that a Hebrew year can have: 353, 354 or 355 days for a
/// common year, 383, 384 or 385 for a leap year. The last digit is therefore
/// 3, 4 or 5, and tells a short year (3) and a long one (5) from a regular one.
pub proof fn lemma_days_in_year(year: int)
    ensures
        is_leap_year_spec(year) ==> 383 <= days_in_year_spec(year) <= 385,
        !is_leap_year_spec(year) ==> 353 <= days_in_year_spec(year) <= 355,
        3 <= days_in_year_spec(year) % 10 <= 5,
{
    lemma_months_in_year(year);
    lemma_year_length_from_molad(
        molad_of_year(year),
        is_leap_year_spec(year - 1),
        is_leap_year_spec(year),
        is_leap_year_spec(year + 1),
    );
}

/// Later years begin later, by at least 353 days for each year between.
pub proof fn lemma_elapsed_days_increases(a: int, b: int)
    requires
        a <= b,
    ensures
        elapsed_days_spec(a) + 353 * (b - a) <= elapsed_days_spec(b),
    decreases b - a,
{
    if a < b {
        lemma_elapsed_days_increases(a, b - 1);
        lemma_days_in_year(b - 1);
    }
}

/// The new year keeps to the mean year of 35975351/98496 days (a little
/// under 365 days and a quarter), within about a month either way.
pub proof fn lemma_elapsed_days_bounds(year: int)
    requires
        year >= 1,
    ensures
        492480 * elapsed_days_spec(year) <= 179876755 * (year - 1) + 2349349,
        492480 * elapsed_days_spec(year) >= 179876755 * (year - 1) - 12905866,
        elapsed_days_spec(year) >= 1,
{
    let p = year - 1;
    let m = months_before_year(year);
    assert(235 * p - 17 <= 19 * m <= 235 * p + 1);
    let molad = molad_of_year(year);
    let day = 1 + molad / 25920;
    assert(25920 * (day - 1) <= molad < 25920 * day);
    assert(day <= elapsed_days_spec(year) <= day + 2);
}

/// The new year of every year up to 11,759,000 is a day that 32 bits count.
pub proof fn lemma_elapsed_days_fits(year: int)
    requires
        1 <= year <= 11_759_000,
    ensures
        1 <= elapsed_days_spec(year) <= u32::MAX,
{
    lemma_elapsed_days_bounds(year);
}

/// No year begins on a Sunday, a Wednesday or a Friday. The epoch is a
/// Sunday, so the count of days gives the weekday, 0 for Sunday.
pub proof fn lemma_new_year_weekday(year: int)
    ensures
        elapsed_days_spec(year) % 7 != 0,
        elapsed_days_spec(year) % 7 != 3,
        elapsed_days_spec(year) % 7 != 5,
        EPOCH % 7 == 0,
{
}

/// The first year begins on day 1.
pub proof fn lemma_first_new_year()
    ensures
        elapsed_days_spec(1) == 1,
{
}

/// The number of leap years among `count` years from `start` on.
pub open spec fn leap_years_among(start: int, count: nat) -> nat
    decreases count,
{
    if count == 0 {
        0
    } else {
        let last: nat = if is_leap_year_spec(start + count - 1) {
            1
        } else {
            0
        };
        leap_years_among(start, (count - 1) as nat) + last
    }
}

/// Counting leap years one by one agrees with the closed count.
pub proof fn lemma_leap_years_among(start: int, count: nat)
    ensures
        leap_years_among(start, count) == leap_years_before(start + count) - leap_years_before(
            start,
        ),
    decreases count,
{
    if count > 0 {
        lemma_leap_years_among(start, (count - 1) as nat);
        let year = start + count - 1;
        let x = 7 * (year - 1) + 1;
        assert((1 + 7 * year) % 19 == (x + 7) % 19);
        assert(leap_years_before(year + 1) == (x + 7) / 19);
    }
}

/// Any nineteen years in a row hold exactly seven leap years.
pub proof fn lemma_seven_leap_years_in_nineteen(start: int)
    ensures
        leap_years_among(start, 19) == 7,
{
    lemma_leap_years_among(start, 19);
}

/// The leap-year test in 64 bits, for the year after the last that 32 bits hold.
fn is_leap_year_wide(year: u64) -> (leap: bool)
    requires
        year <= 0x1_0000_0000,
    ensures
        leap == is_leap_year_spec(year as int),
{
    (1 + 7 * year) % 19 < 7
}

/// Whether `year` is a leap year, one of thirteen months.
pub fn is_leap_year(year: u32) -> (leap: bool)
    ensures
        leap == is_leap_year_spec(year as int),
{
    is_leap_year_wide(year as u64)
}

/// The number of months of `year`.
pub fn months_in_year(year: u32) -> (months: u8)
    ensures
        months == months_in_year_spec(year as int),
        months == 12 || months == 13,
{
    if is_leap_year(year) {
        13
    } else {
        12
    }
}

/// Lunar months from the calendar's first new year to the new year of `year`:
/// 235 for each whole cycle of 19 years, and for the years of the cycle that
/// has begun twelve each and one more for each leap year among them.
pub fn elapsed_months(year: u64) -> (months: u64)
    requires
        1 <= year <= 0x1_0000_0000,
    ensures
        months == months_before_year(year as int),
        months <= 13 * (year - 1),
{
    let previous_year: u64 = year - 1;
    let overall_months: u64 = 235 * (previous_year / 19);
    let regular_months: u64 = 12 * (previous_year % 19);
    let leap_months: u64 = ((previous_year % 19) * 7 + 1) / 19;
    overall_months + regular_months + leap_months
}

/// `elapsed_days` in 64 bits, for every year that 32 bits hold.
fn elapsed_days_wide(year: u64) -> (days: u64)
    requires
        1 <= year <= 0x1_0000_0000,
    ensures
        days == elapsed_days_spec(year as int),
{
    let previous_year: u64 = year - 1;
    let elapsed_months: u64 = elapsed_months(year);
    let elapsed_parts: u64 = 204 + 793 * (elapsed_months % 1080);
    let elapsed_hours: u64 = 5 + 12 * elapsed_months + 793 * (elapsed_months / 1080) + (
    elapsed_parts / 1080);
    let parts: u64 = (elapsed_parts % 1080) + 1080 * (elapsed_hours % 24);
    let day: u64 = 1 + 29 * elapsed_months + (elapsed_hours / 24);
    proof {
        let m = months_before_year(year as int);
        assert(elapsed_months == m);
        assert(1080 * elapsed_hours + elapsed_parts % 1080 == 5604 + 13753 * m);
        assert(25920 * (day - 1) + parts == molad_of_year(year as int));
        assert(0 <= parts < 25920);
        assert(day - 1 == molad_of_year(year as int) / 25920);
        assert(parts == molad_of_year(year as int) % 25920);
    }
    let mut alt_day: u64 = day;
    if parts >= 19440 || (2 == day % 7 && parts >= 9924 && !is_leap_year_wide(year)) || (1 == day
        % 7 && parts >= 16789 && is_leap_year_wide(previous_year)) {
        alt_day += 1;
    }
    if alt_day % 7 == 0 || alt_day % 7 == 3 || alt_day % 7 == 5 {
        alt_day += 1;
    }
    alt_day
}

/// Days from the epoch to the new year (1 Tishrei) of `year`.
pub fn elapsed_days(year: u32) -> (days: u32)
    requires
        year >= 1,
        elapsed_days_spec(year as int) <= u32::MAX,
    ensures
        days == elapsed_days_spec(year as int),
        days % 7 != 0 && days % 7 != 3 && days % 7 != 5,
{
    proof {
        lemma_new_year_weekday(year as int);
    }
    elapsed_days_wide(year as u64) as u32
}

/// The number of days of `year`.
pub fn days_in_year(year: u32) -> (days: u32)
    requires
        year >= 1,
    ensures
        days == days_in_year_spec(year as int),
        353 <= days <= 385,
{
    proof {
        lemma_days_in_year(year as int);
    }
    (elapsed_days_wide(year as u64 + 1) - elapsed_days_wide(year as u64)) as u32
}

/// A long year gives Cheshvan a thirtieth day.
pub open spec fn is_long_cheshvan_spec(year: int) -> bool {
    days_in_year_spec(year) % 10 == 5
}

/// A short year takes Kislev's thirtieth day.
pub open spec fn is_short_kislev_spec(year: int) -> bool {
    days_in_year_spec(year) % 10 == 3
}

/// The length of a month in a year. The first Adar has 30 days in a leap
/// year and 29 as the only Adar of a common year.
pub open spec fn days_in_month_spec(month: HebrewMonth, year: int) -> int {
    match month {
        HebrewMonth::Iyyar | HebrewMonth::Tamuz | HebrewMonth::Elul | HebrewMonth::Tevet
        | HebrewMonth::AdarII => 29,
        HebrewMonth::AdarI => if is_leap_year_spec(year) {
            30
        } else {
            29
        },
        HebrewMonth::Cheshvan => if is_long_cheshvan_spec(year) {
            30
        } else {
            29
        },
        HebrewMonth::Kislev => if is_short_kislev_spec(year) {
            29
        } else {
            30
        },
        _ => 30,
    }
}

/// Whether Cheshvan has 30 days in `year`.
pub fn is_long_cheshvan(year: u32) -> (long: bool)
    requires
        year >= 1,
    ensures
        long == is_long_cheshvan_spec(year as int),
{
    days_in_year(year) % 10 == 5
}

/// Whether Kislev has only 29 days in `year`.
pub fn is_short_kislev(year: u32) -> (short: bool)
    requires
        year >= 1,
    ensures
        short == is_short_kislev_spec(year as int),
{
    days_in_year(year) % 10 == 3
}

/// The length of a month from the length of its year.
fn month_length(month: HebrewMonth, leap: bool, year_length: u32) -> (days: u8)
    ensures
        days == 29 || days == 30,
        forall|year: int|
            is_leap_year_spec(year) == leap && days_in_year_spec(year) == year_length
                ==> days == #[trigger] days_in_month_spec(month, year),
{
    match month {
        HebrewMonth::Iyyar | HebrewMonth::Tamuz | HebrewMonth::Elul | HebrewMonth::Tevet
        | HebrewMonth::AdarII => 29,
        HebrewMonth::AdarI => {
            if leap {
                30
            } else {
                29
            }
        },
        HebrewMonth::Cheshvan => {
            if year_length % 10 == 5 {
                30
            } else {
                29
            }
        },
        HebrewMonth::Kislev => {
            if year_length % 10 == 3 {
                29
            } else {
                30
            }
        },
        _ => 30,
    }
}

/// The number of days of `month` in `year`.
pub fn days_in_month(month: HebrewMonth, year: u32) -> (days: u8)
    requires
        year >= 1,
    ensures
        days == days_in_month_spec(month, year as int),
        days == 29 || days == 30,
{
    match month {
        HebrewMonth::Iyyar | HebrewMonth::Tamuz | HebrewMonth::Elul | HebrewMonth::Tevet
        | HebrewMonth::AdarII => 29,
        HebrewMonth::AdarI => {
            if is_leap_year(year) {
                30
            } else {
                29
            }
        },
        HebrewMonth::Cheshvan => {
            if is_long_cheshvan(year) {
                30
            } else {
                29
            }
        },
        HebrewMonth::Kislev => {
            if is_short_kislev(year) {
                29
            } else {
                30
            }
        },
        _ => 30,
    }
}

/// The new years that were computed, each kept under its year so that a
/// conversion that asks for the same years again and again computes each
/// only once.
pub struct ElapsedDaysCache {
    entries: HashMap<u32, u32>,
}

impl ElapsedDaysCache {
    /// The years kept, each with its days from the epoch to its new year.
    pub closed spec fn view(&self) -> Map<u32, u32> {
        self.entries@
    }

    /// Every entry holds what `elapsed_days` gives for its year.
    pub open spec fn wf(&self) -> bool {
        forall|year: u32| #[trigger]
            self@.contains_key(year) ==> year >= 1 && self@[year] == elapsed_days_spec(year as int)
    }

    /// A cache that holds nothing yet.
    pub fn new() -> (cache: Self)
        ensures
            cache.wf(),
            cache@ == Map::<u32, u32>::empty(),
    {
        ElapsedDaysCache { entries: HashMap::new() }
    }

    /// The number of years kept.
    pub fn len(&self) -> (n: usize)
        ensures
            n == self@.len(),
    {
        broadcast use vstd::std_specs::hash::group_hash_axioms;

        self.entries.len()
    }

    /// The new year kept for `year`, if any, without computing one.
    pub fn get(&self, year: u32) -> (kept: Option<u32>)
        ensures
            kept == if self@.contains_key(year) {
                Some(self@[year])
            } else {
                None
            },
    {
        broadcast use vstd::std_specs::hash::group_hash_axioms;

        match self.entries.get(&year) {
            Some(days) => Some(*days),
            None => None,
        }
    }

    /// Days from the epoch to the new year of `year`: taken from the cache
    /// where it is kept, else computed and kept from now on.
    pub fn elapsed_days(&mut self, year: u32) -> (days: u32)
        requires
            old(self).wf(),
            year >= 1,
            elapsed_days_spec(year as int) <= u32::MAX,
        ensures
            final(self).wf(),
            days == elapsed_days_spec(year as int),
            final(self)@ == old(self)@.insert(year, days),
    {
        broadcast use vstd::std_specs::hash::group_hash_axioms;

        match self.entries.get(&year) {
            Some(days) => {
                let days = *days;
                assert(self@ =~= old(self)@.insert(year, days));
                return days;
            },
            None => {},
        }
        let days = elapsed_days(year);
        self.entries.insert(year, days);
        proof {
            assert forall|y: u32| #[trigger] self@.contains_key(y) implies y >= 1 && self@[y]
                == elapsed_days_spec(y as int) by {
                if y != year {
                    assert(old(self)@.contains_key(y));
                }
            }
        }
        days
    }

    /// The number of days of `year`, from the two new years around it.
    pub fn days_in_year(&mut self, year: u32) -> (days: u32)
        requires
            old(self).wf(),
            year >= 1,
            elapsed_days_spec(year + 1) <= u32::MAX,
        ensures
            final(self).wf(),
            days == days_in_year_spec(year as int),
            353 <= days <= 385,
            final(self)@ == old(self)@.insert(year, elapsed_days_spec(year as int) as u32).insert(
                (year + 1) as u32,
                elapsed_days_spec(year + 1) as u32,
            ),
    {
        proof {
            lemma_days_in_year(year as int);
            lemma_elapsed_days_bounds(year as int);
            lemma_elapsed_days_bounds(year + 1);
        }
        let this_year = self.elapsed_days(year);
        let next_year = self.elapsed_days(year + 1);
        next_year - this_year
    }

    /// The number of days of `month` in `year`.
    pub fn days_in_month(&mut self, month: HebrewMonth, year: u32) -> (days: u8)
        requires
            old(self).wf(),
            year >= 1,
            elapsed_days_spec(year + 1) <= u32::MAX,
        ensures
            final(self).wf(),
            days == days_in_month_spec(month, year as int),
            days == 29 || days == 30,
    {
        let year_length = self.days_in_year(year);
        month_length(month, is_leap_year(year), year_length)
    }
}

} // verus!
