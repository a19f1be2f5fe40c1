//! Proleptic Gregorian calendar arithmetic: leap years, month lengths,
//! and the numbering of days counted from the first day of year 0.

use vstd::prelude::*;

verus! {

/// Whether year `y` is a leap year in the proleptic Gregorian calendar.
pub open spec fn is_leap_year(y: int) -> bool {
    (y % 4 == 0 && y % 100 != 0) || y % 400 == 0
}

/// Number of days in month `m` (1..=12) of year `y`; 0 for anything else.
pub open spec fn days_in_month(y: int, m: int) -> int {
    if m == 1 || m == 3 || m == 5 || m == 7 || m == 8 || m == 10 || m == 12 {
        31
    } else if m == 4 || m == 6 || m == 9 || m == 11 {
        30
    } else if m == 2 {
        if is_leap_year(y) {
            29
        } else {
            28
        }
    } else {
        0
    }
}

/// Number of days in year `y`.
pub open spec fn days_in_year(y: int) -> int {
    if is_leap_year(y) {
        366
    } else {
        365
    }
}

/// Days from the first day of year 0 up to the first day of year `y` (0 for `y <= 0`).
pub open spec fn days_before_year(y: int) -> int
    decreases y,
{
    if y <= 0 {
        0
    } else {
        days_before_year(y - 1) + days_in_year(y - 1)
    }
}

/// Days from the first day of year `y` up to the first day of its month `m`.
pub open spec fn days_before_month(y: int, m: int) -> int
    decreases m,
{
    if m <= 1 {
        0
    } else {
        days_before_month(y, m - 1) + days_in_month(y, m - 1)
    }
}

/// A valid calendar date within the years this library covers.
pub open spec fn valid_ymd(y: int, m: int, d: int) -> bool {
    &&& 0 <= y <= 9999
    &&& 1 <= m <= 12
    &&& 1 <= d <= days_in_month(y, m)
}

/// The day number of a date: days elapsed since the first day of year 0.
pub open spec fn day_number(y: int, m: int, d: int) -> int {
    days_before_year(y) + days_before_month(y, m) + d - 1
}

pub proof fn lemma_days_before_year_bounds(y: int)
    requires
        0 <= y,
    ensures
        365 * y <= days_before_year(y) <= 366 * y,
    decreases y,
{
    if y > 0 {
        lemma_days_before_year_bounds(y - 1);
    }
}

pub proof fn lemma_days_before_year_monotone(y1: int, y2: int)
    requires
        0 <= y1 <= y2,
    ensures
        days_before_year(y1) <= days_before_year(y2),
        y1 < y2 ==> days_before_year(y1) + 365 <= days_before_year(y2),
    decreases y2 - y1,
{
    if y1 < y2 {
        lemma_days_before_year_monotone(y1, y2 - 1);
    }
}

pub proof fn lemma_days_before_month_nonneg(y: int, m: int)
    requires
        1 <= m,
    ensures
        0 <= days_before_month(y, m),
    decreases m,
{
    if m > 1 {
        lemma_days_before_month_nonneg(y, m - 1);
        assert(days_in_month(y, m - 1) >= 0);
    }
}

pub proof fn lemma_days_before_month_bounds(y: int, m: int)
    requires
        1 <= m <= 13,
    ensures
        0 <= days_before_month(y, m) <= days_in_year(y),
        m == 13 ==> days_before_month(y, m) == days_in_year(y),
    decreases 13 - m,
{
    lemma_days_before_month_nonneg(y, m);
    if m < 13 {
        lemma_days_before_month_bounds(y, m + 1);
        assert(days_in_month(y, m) >= 0);
    } else {
        reveal_with_fuel(days_before_month, 14);
        assert(days_before_month(y, 13) == days_in_year(y));
    }
}

/// A date's day number lies within the block of days of its own year.
pub proof fn lemma_day_number_in_year(y: int, m: int, d: int)
    requires
        valid_ymd(y, m, d),
    ensures
        days_before_year(y) <= day_number(y, m, d) < days_before_year(y + 1),
{
    lemma_days_before_month_bounds(y, m);
    assert(days_before_month(y, m) + days_in_month(y, m) == days_before_month(y, m + 1));
    lemma_month_step_le_year(y, m + 1);
}

/// `days_before_month` never exceeds the length of the year.
proof fn lemma_month_step_le_year(y: int, m: int)
    requires
        1 <= m <= 13,
    ensures
        days_before_month(y, m) <= days_in_year(y),
    decreases 13 - m,
{
    if m < 13 {
        assert(days_in_month(y, m) >= 0);
        lemma_month_step_le_year(y, m + 1);
    } else {
        lemma_days_before_month_bounds(y, m);
    }
}

pub proof fn lemma_days_before_month_monotone(y: int, m1: int, m2: int)
    requires
        1 <= m1 <= m2 <= 13,
    ensures
        days_before_month(y, m1) <= days_before_month(y, m2),
    decreases m2 - m1,
{
    if m1 < m2 {
        lemma_days_before_month_monotone(y, m1, m2 - 1);
        assert(days_in_month(y, m2 - 1) >= 0);
    }
}

/// No two valid dates share a day number.
pub proof fn lemma_day_number_injective(y1: int, m1: int, d1: int, y2: int, m2: int, d2: int)
    requires
        valid_ymd(y1, m1, d1),
        valid_ymd(y2, m2, d2),
        day_number(y1, m1, d1) == day_number(y2, m2, d2),
    ensures
        y1 == y2,
        m1 == m2,
        d1 == d2,
{
    lemma_day_number_in_year(y1, m1, d1);
    lemma_day_number_in_year(y2, m2, d2);
    if y1 < y2 {
        lemma_days_before_year_monotone(y1 + 1, y2);
        assert(false);
    }
    if y2 < y1 {
        lemma_days_before_year_monotone(y2 + 1, y1);
        assert(false);
    }
    let doy = day_number(y1, m1, d1) - days_before_year(y1);
    assert(days_before_month(y1, m1) + days_in_month(y1, m1) == days_before_month(y1, m1 + 1));
    assert(days_before_month(y1, m2) + days_in_month(y1, m2) == days_before_month(y1, m2 + 1));
    if m1 < m2 {
        lemma_days_before_month_monotone(y1, m1 + 1, m2);
        assert(false);
    }
    if m2 < m1 {
        lemma_days_before_month_monotone(y1, m2 + 1, m1);
        assert(false);
    }
}

/// Executable leap-year test.
pub fn leap_year(y: i64) -> (r: bool)
    requires
        0 <= y,
    ensures
        r == is_leap_year(y as int),
{
    (y % 4 == 0 && y % 100 != 0) || y % 400 == 0
}

/// Executable month length; 0 for a month outside 1..=12.
pub fn month_length(y: i64, m: u8) -> (r: u8)
    requires
        0 <= y,
    ensures
        r == days_in_month(y as int, m as int),
{
    if m == 1 || m == 3 || m == 5 || m == 7 || m == 8 || m == 10 || m == 12 {
        31
    } else if m == 4 || m == 6 || m == 9 || m == 11 {
        30
    } else if m == 2 {
        if leap_year(y) {
            29
        } else {
            28
        }
    } else {
        0
    }
}

/// Executable count of days before the first day of year `y`.
pub fn days_before_year_num(y: i64) -> (n: i64)
    requires
        0 <= y <= 10000,
    ensures
        n == days_before_year(y as int),
{
    let mut i: i64 = 0;
    let mut acc: i64 = 0;
    while i < y
        invariant
            0 <= i <= y <= 10000,
            acc == days_before_year(i as int),
        decreases y - i,
    {
        proof {
            lemma_days_before_year_bounds(i as int);
        }
        let step: i64 = if leap_year(i) {
            366
        } else {
            365
        };
        acc = acc + step;
        i = i + 1;
    }
    acc
}

/// Executable count of days before month `m` in year `y`.
pub fn days_before_month_num(y: i64, m: u8) -> (n: i64)
    requires
        0 <= y,
        1 <= m <= 13,
    ensures
        n == days_before_month(y as int, m as int),
{
    let mut i: u8 = 1;
    let mut acc: i64 = 0;
    while i < m
        invariant
            0 <= y,
            1 <= i <= m <= 13,
            acc == days_before_month(y as int, i as int),
        decreases m - i,
    {
        proof {
            lemma_days_before_month_bounds(y as int, i as int);
        }
        acc = acc + month_length(y, i) as i64;
        i = i + 1;
    }
    acc
}

/// Executable day number of a valid date.
pub fn day_number_of(y: i64, m: u8, d: u8) -> (n: i64)
    requires
        valid_ymd(y as int, m as int, d as int),
    ensures
        n == day_number(y as int, m as int, d as int),
        0 <= n < days_before_year(10000),
{
    proof {
        lemma_days_before_year_bounds(y as int);
        lemma_days_before_month_bounds(y as int, m as int);
        lemma_day_number_in_year(y as int, m as int, d as int);
        lemma_days_before_year_monotone(y as int + 1, 10000);
    }
    days_before_year_num(y) + days_before_month_num(y, m) + d as i64 - 1
}

/// Executable inverse of `day_number_of`: the unique valid date with the
/// given day number.
pub fn civil_of_day_number(n: i64) -> (r: (i64, u8, u8))
    requires
        0 <= n < days_before_year(10000),
    ensures
        valid_ymd(r.0 as int, r.1 as int, r.2 as int),
        day_number(r.0 as int, r.1 as int, r.2 as int) == n,
{
    proof {
        lemma_days_before_year_bounds(10000);
    }
    let mut y: i64 = 0;
    let mut rem: i64 = n;
    loop
        invariant
            0 <= y <= 9999,
            0 <= rem,
            days_before_year(y as int) + rem == n,
            n < days_before_year(10000),
        ensures
            0 <= y <= 9999,
            days_before_year(y as int) + rem == n,
            0 <= rem < days_in_year(y as int),
        decreases rem,
    {
        let len: i64 = if leap_year(y) {
            366
        } else {
            365
        };
        if rem < len {
            break ;
        }
        proof {
            if y as int + 1 > 9999 {
                lemma_days_before_year_monotone(y as int + 1, 10000);
                assert(false);
            }
        }
        rem = rem - len;
        y = y + 1;
    }
    let mut m: u8 = 1;
    loop
        invariant
            0 <= y <= 9999,
            1 <= m <= 12,
            0 <= rem,
            days_before_month(y as int, m as int) + rem == n - days_before_year(y as int),
            n - days_before_year(y as int) < days_in_year(y as int),
        ensures
            1 <= m <= 12,
            days_before_month(y as int, m as int) + rem == n - days_before_year(y as int),
            0 <= rem < days_in_month(y as int, m as int),
        decreases 12 - m,
    {
        let len: u8 = month_length(y, m);
        if rem < len as i64 {
            break ;
        }
        proof {
            if m as int + 1 > 12 {
                lemma_days_before_month_bounds(y as int, 13);
                assert(false);
            }
        }
        rem = rem - len as i64;
        m = m + 1;
    }
    (y, m, rem as u8 + 1)
}

} // verus!
