//! Calendar dates and minute-resolution timestamps as plain values.

use vstd::prelude::*;

verus! {

/// A calendar date: a day and a month together with a year.
#[derive(Clone, Copy, PartialEq, Eq, Structural, Debug)]
pub struct Date {
    pub year: i32,
    pub month: u32,
    pub day: u32,
}

/// A timestamp: a date together with a time of day (seconds are always zero).
#[derive(Clone, Copy, PartialEq, Eq, Structural, Debug)]
pub struct Timestamp {
    pub date: Date,
    pub hour: u32,
    pub minute: u32,
}

/// Whether `y` is a leap year in the proleptic Gregorian calendar.
pub open spec fn is_leap_year(y: int) -> bool {
    (y % 4 == 0 && y % 100 != 0) || y % 400 == 0
}

/// The number of days of month `m` (1-based) in year `y`; 0 for an invalid month.
pub open spec fn spec_days_in_month(y: int, m: int) -> int {
    if m == 1 || m == 3 || m == 5 || m == 7 || m == 8 || m == 10 || m == 12 {
        31
    } else if m == 4 || m == 6 || m == 9 || m == 11 {
        30
    } else if m == 2 {
        if is_leap_year(y) {
            29
        } else {
            28
        }
    } else {
        0
    }
}

impl Date {
    /// The date lies in the calendar: month 1..=12 and day within the month.
    pub open spec fn is_valid(self) -> bool {
        1 <= self.month <= 12 && 1 <= self.day
            && self.day <= spec_days_in_month(self.year as int, self.month as int)
    }
}

impl Timestamp {
    /// The date is a calendar date and the time of day lies on the clock.
    pub open spec fn is_valid(self) -> bool {
        self.date.is_valid() && self.hour <= 23 && self.minute <= 59
    }

    /// The time of day expressed in minutes since midnight.
    pub open spec fn minutes_of_day(self) -> int {
        self.hour * 60 + self.minute
    }
}

/// Whether `year` is a leap year.
pub fn is_leap(year: i32) -> (b: bool)
    ensures
        b == is_leap_year(year as int),
{
    let y: i64 = year as i64;
    let a: i64 = if y >= 0 {
        y
    } else {
        -y
    };
    proof {
        lemma_abs_divides(y as int, a as int, 4);
        lemma_abs_divides(y as int, a as int, 100);
        lemma_abs_divides(y as int, a as int, 400);
    }
    (a % 4 == 0 && a % 100 != 0) || a % 400 == 0
}

/// A multiple of `d` stays a multiple of `d` under negation.
proof fn lemma_neg_mod_zero(y: int, d: int)
    requires
        d > 0,
        y % d == 0,
    ensures
        (-y) % d == 0,
{
    vstd::arithmetic::div_mod::lemma_fundamental_div_mod(y, d);
    assert(-y == (-(y / d)) * d) by (nonlinear_arith)
        requires
            y == d * (y / d),
    ;
    vstd::arithmetic::div_mod::lemma_mod_multiples_basic(-(y / d), d);
}

/// Taking the absolute value preserves divisibility: `a % d == 0 <==> y % d == 0`
/// when `a == |y|`.
proof fn lemma_abs_divides(y: int, a: int, d: int)
    requires
        a == y || a == -y,
        d > 0,
    ensures
        (a % d == 0) <==> (y % d == 0),
{
    if a % d == 0 {
        lemma_neg_mod_zero(a, d);
    }
    if y % d == 0 {
        lemma_neg_mod_zero(y, d);
    }
}

/// The number of days of month `month` in year `year`; 0 for an invalid month.
pub fn days_in_month(year: i32, month: u32) -> (d: u32)
    ensures
        d == spec_days_in_month(year as int, month as int),
{
    if month == 1 || month == 3 || month == 5 || month == 7 || month == 8 || month == 10
        || month == 12 {
        31
    } else if month == 4 || month == 6 || month == 9 || month == 11 {
        30
    } else if month == 2 {
        if is_leap(year) {
            29
        } else {
            28
        }
    } else {
        0
    }
}

} // verus!
