//! The calendar date of a day since the epoch, in the Gregorian calendar.
use vstd::prelude::*;

verus! {

/// The seconds of a day.
pub const SECONDS_PER_DAY: u64 = 86400;

/// The days of four hundred years.
pub const DAYS_PER_400_YEARS: u64 = 146097;

/// The year `y` is a leap year.
pub open spec fn is_leap(y: int) -> bool {
    y % 4 == 0 && (y % 100 != 0 || y % 400 == 0)
}

/// The number of days of the year `y`.
pub open spec fn days_in_year(y: int) -> int {
    if is_leap(y) {
        366
    } else {
        365
    }
}

/// The number of days of month `m` of the year `y`.
pub open spec fn days_in_month(y: int, m: int) -> int {
    if m == 2 {
        if is_leap(y) {
            29
        } else {
            28
        }
    } else if m == 4 || m == 6 || m == 9 || m == 11 {
        30
    } else {
        31
    }
}

/// The days from the first day of 1970 to the first day of the year `y`.
pub open spec fn days_before_year(y: int) -> int
    decreases y - 1970,
{
    if y <= 1970 {
        0
    } else {
        days_before_year(y - 1) + days_in_year(y - 1)
    }
}

/// The days from the first day of the year `y` to the first day of its
/// month `m`.
pub open spec fn days_before_month(y: int, m: int) -> int
    decreases m,
{
    if m <= 1 {
        0
    } else {
        days_before_month(y, m - 1) + days_in_month(y, m - 1)
    }
}

/// The days from the first day of 1970 to the day `d` of month `m` of the
/// year `y`.
pub open spec fn days_from_civil(y: int, m: int, d: int) -> int {
    days_before_year(y) + days_before_month(y, m) + d - 1
}

/// A date of the calendar.
#[derive(Debug, Clone, Copy, PartialEq, Eq, Structural)]
pub struct CivilDate {
    pub year: u64,
    pub month: u64,
    pub day: u64,
}

/// `date` is the date of day number `days` since the first day of 1970.
pub open spec fn is_date_of(date: CivilDate, days: int) -> bool {
    &&& date.year >= 1970
    &&& 1 <= date.month <= 12
    &&& 1 <= date.day <= days_in_month(date.year as int, date.month as int)
    &&& days_from_civil(date.year as int, date.month as int, date.day as int) == days
}

/// The number of leap years before the year `y`, counted from the year 1.
pub open spec fn leaps_before(y: int) -> int {
    (y - 1) / 4 - (y - 1) / 100 + (y - 1) / 400
}

/// The days before a year, in closed form.
pub proof fn lemma_days_before_year(y: int)
    requires
        y >= 1970,
    ensures
        days_before_year(y) == 365 * (y - 1970) + leaps_before(y) - leaps_before(1970),
    decreases y - 1970,
{
    if y > 1970 {
        lemma_days_before_year(y - 1);
        let p = y - 1;
        assert(leaps_before(y) - leaps_before(p) == (if is_leap(p) {
            1int
        } else {
            0int
        })) by {
            assert((p / 4 - (p - 1) / 4) == (if p % 4 == 0 {
                1int
            } else {
                0int
            }));
            assert((p / 100 - (p - 1) / 100) == (if p % 100 == 0 {
                1int
            } else {
                0int
            }));
            assert((p / 400 - (p - 1) / 400) == (if p % 400 == 0 {
                1int
            } else {
                0int
            }));
            if p % 400 == 0 {
                assert(p % 100 == 0);
                assert(p % 4 == 0);
            }
            if p % 100 == 0 {
                assert(p % 4 == 0);
            }
        }
    }
}

/// Four hundred years have 146097 days.
pub proof fn lemma_400_years(y: int, cycles: int)
    requires
        y >= 1970,
        cycles >= 0,
    ensures
        days_before_year(y + 400 * cycles) == days_before_year(y) + 146097 * cycles,
{
    lemma_days_before_year(y);
    lemma_days_before_year(y + 400 * cycles);
    let z = y - 1;
    assert((z + 400 * cycles) / 4 == z / 4 + 100 * cycles);
    assert((z + 400 * cycles) / 100 == z / 100 + 4 * cycles);
    assert((z + 400 * cycles) / 400 == z / 400 + cycles);
}

/// A year is the sum of its twelve months.
pub proof fn lemma_year_of_months(y: int)
    ensures
        days_before_month(y, 13) == days_in_year(y),
{
    reveal_with_fuel(days_before_month, 14);
}

/// Whether the year `y` is a leap year.
pub fn leap_year(y: u64) -> (r: bool)
    ensures
        r == is_leap(y as int),
{
    y % 4 == 0 && (y % 100 != 0 || y % 400 == 0)
}

/// The number of days of month `m` of the year `y`.
pub fn month_length(y: u64, m: u64) -> (len: u64)
    ensures
        len == days_in_month(y as int, m as int),
{
    if m == 2 {
        if leap_year(y) {
            29
        } else {
            28
        }
    } else if m == 4 || m == 6 || m == 9 || m == 11 {
        30
    } else {
        31
    }
}

/// The number of days of the year `y`.
pub fn year_length(y: u64) -> (len: u64)
    ensures
        len == days_in_year(y as int),
{
    if leap_year(y) {
        366
    } else {
        365
    }
}

/// The date of day number `days` since the first day of 1970.
pub fn civil_from_days(days: u64) -> (date: CivilDate)
    ensures
        is_date_of(date, days as int),
{
    let cycles = days / DAYS_PER_400_YEARS;
    let mut rest: u64 = days % DAYS_PER_400_YEARS;
    assert(cycles <= 126_264_033_144_074) by {
        assert(days <= 0xffff_ffff_ffff_ffff);
    }
    let mut year: u64 = 1970 + 400 * cycles;
    proof {
        lemma_400_years(1970, cycles as int);
    }
    let ghost base = year;
    while rest >= year_length(year)
        invariant
            1970 <= base <= year,
            base <= 1970 + 400 * 126_264_033_144_074,
            year - base + rest <= 146097,
            days == days_before_year(year as int) + rest,
        decreases rest,
    {
        rest = rest - year_length(year);
        year = year + 1;
    }
    let mut month: u64 = 1;
    proof {
        lemma_year_of_months(year as int);
        reveal_with_fuel(days_before_month, 2);
    }
    while rest >= month_length(year, month)
        invariant
            1 <= month <= 12,
            year >= 1970,
            days == days_before_year(year as int) + days_before_month(year as int, month as int)
                + rest,
            days_before_month(year as int, month as int) + rest < days_in_year(year as int),
        decreases 12 - month,
    {
        proof {
            lemma_year_of_months(year as int);
            lemma_months_grow(year as int, month as int + 1);
        }
        rest = rest - month_length(year, month);
        month = month + 1;
    }
    CivilDate { year, month, day: rest + 1 }
}

/// The days before a month are no more than the days before a later month.
pub proof fn lemma_months_grow(y: int, m: int)
    requires
        1 <= m <= 13,
    ensures
        days_before_month(y, m) <= days_before_month(y, 13),
    decreases 13 - m,
{
    if m < 13 {
        lemma_months_grow(y, m + 1);
    }
}

/// The days before a year grow with the year.
pub proof fn lemma_years_grow(y1: int, y2: int)
    requires
        y1 <= y2,
    ensures
        days_before_year(y1) <= days_before_year(y2),
        1970 <= y1 < y2 ==> days_before_year(y1) + days_in_year(y1) <= days_before_year(y2),
    decreases y2 - y1,
{
    if y1 < y2 {
        lemma_years_grow(y1, y2 - 1);
        if y2 <= 1970 {
            assert(days_before_year(y2) == 0);
            assert(days_before_year(y1) == 0);
        }
    }
}

/// The days before a month grow with the month.
pub proof fn lemma_months_grow_between(y: int, m1: int, m2: int)
    requires
        1 <= m1 <= m2,
    ensures
        days_before_month(y, m1) <= days_before_month(y, m2),
        m1 < m2 ==> days_before_month(y, m1) + days_in_month(y, m1) <= days_before_month(y, m2),
    decreases m2 - m1,
{
    if m1 < m2 {
        lemma_months_grow_between(y, m1, m2 - 1);
    }
}

/// A day has one date: two dates of the same day are equal.
pub proof fn law_date_is_unique(a: CivilDate, b: CivilDate, days: int)
    requires
        is_date_of(a, days),
        is_date_of(b, days),
    ensures
        a == b,
{
    let (ya, ma, da) = (a.year as int, a.month as int, a.day as int);
    let (yb, mb, db) = (b.year as int, b.month as int, b.day as int);
    lemma_year_of_months(ya);
    lemma_year_of_months(yb);
    lemma_months_grow_between(ya, ma, 13);
    lemma_months_grow_between(yb, mb, 13);
    lemma_months_grow_between(ya, 1, ma);
    lemma_months_grow_between(yb, 1, mb);
    assert(days_before_month(ya, 1) == 0);
    assert(days_before_month(yb, 1) == 0);
    if ya < yb {
        lemma_years_grow(ya, yb);
    } else if yb < ya {
        lemma_years_grow(yb, ya);
    } else if ma < mb {
        lemma_months_grow_between(ya, ma, mb);
    } else if mb < ma {
        lemma_months_grow_between(ya, mb, ma);
    }
}

} // verus!
