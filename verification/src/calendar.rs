//! Civil calendar arithmetic: proleptic Gregorian dates in years 0 through
//! 9999, their day numbers (days since 0000-01-01), and instants measured in
//! seconds from that epoch's midnight.

use vstd::prelude::*;
use vstd::arithmetic::div_mod::{
    lemma_fundamental_div_mod, lemma_fundamental_div_mod_converse, lemma_mod_bound,
    lemma_mod_multiples_vanish, lemma_div_pos_is_pos, lemma_div_is_ordered,
};

verus! {

/// A calendar date, `year`-`month`-`day` in the proleptic Gregorian calendar.
#[derive(Clone, Copy, Debug)]
pub struct Date {
    pub year: u32,
    pub month: u32,
    pub day: u32,
}

/// A year is a leap year when divisible by 4, except centuries not divisible
/// by 400.
pub open spec fn is_leap_year(y: int) -> bool {
    y % 4 == 0 && (y % 100 != 0 || y % 400 == 0)
}

/// Length of a month, in days.
pub open spec fn days_in_month(y: int, m: int) -> int {
    if m == 2 {
        if is_leap_year(y) {
            29
        } else {
            28
        }
    } else if m == 4 || m == 6 || m == 9 || m == 11 {
        30
    } else {
        31
    }
}

/// Dates the engine models: four-digit years and real calendar days.
pub open spec fn date_valid(d: Date) -> bool {
    &&& 0 <= d.year <= 9999
    &&& 1 <= d.month <= 12
    &&& 1 <= d.day <= days_in_month(d.year as int, d.month as int)
}

/// Number of leap years among the years `0, 1, ..., y - 1`.
pub open spec fn leap_years_before(y: int) -> int {
    (y + 3) / 4 - (y + 99) / 100 + (y + 399) / 400
}

/// Days in the months of year `y` that precede month `m`.
pub open spec fn days_before_month(y: int, m: int) -> int {
    let feb: int = if is_leap_year(y) {
        29
    } else {
        28
    };
    if m <= 1 {
        0
    } else if m == 2 {
        31
    } else if m == 3 {
        31 + feb
    } else if m == 4 {
        62 + feb
    } else if m == 5 {
        92 + feb
    } else if m == 6 {
        123 + feb
    } else if m == 7 {
        153 + feb
    } else if m == 8 {
        184 + feb
    } else if m == 9 {
        215 + feb
    } else if m == 10 {
        245 + feb
    } else if m == 11 {
        276 + feb
    } else {
        306 + feb
    }
}

/// The day number of a date: how many days lie between 0000-01-01 and `d`.
pub open spec fn day_index(d: Date) -> int {
    365 * d.year + leap_years_before(d.year as int) + days_before_month(
        d.year as int,
        d.month as int,
    ) + (d.day - 1)
}

/// The instant of time-of-day `h:mi:s` on date `d`, in seconds since the
/// epoch's midnight.
pub open spec fn instant_of(d: Date, h: int, mi: int, s: int) -> int {
    day_index(d) * 86400 + h * 3600 + mi * 60 + s
}

impl Date {
    /// Whether this is a date the engine models.
    pub open spec fn valid(self) -> bool {
        date_valid(self)
    }

    /// The greatest date the engine models; it has no successor here.
    pub open spec fn is_last(self) -> bool {
        self.year == 9999 && self.month == 12 && self.day == 31
    }
}

pub fn leap_year(y: u32) -> (b: bool)
    ensures
        b == is_leap_year(y as int),
{
    y % 4 == 0 && (y % 100 != 0 || y % 400 == 0)
}

pub fn month_days(y: u32, m: u32) -> (n: u32)
    requires
        1 <= m <= 12,
    ensures
        n == days_in_month(y as int, m as int),
{
    if m == 2 {
        if leap_year(y) {
            29
        } else {
            28
        }
    } else if m == 4 || m == 6 || m == 9 || m == 11 {
        30
    } else {
        31
    }
}

/// Stepping the numerator of a division by one raises the quotient exactly
/// when the new numerator is a multiple of the divisor.
proof fn lemma_div_step(n: int, k: int)
    requires
        0 <= n,
        0 < k,
    ensures
        (n + 1) / k == n / k + if (n + 1) % k == 0 {
            1int
        } else {
            0int
        },
{
    let q = n / k;
    let r = n % k;
    lemma_fundamental_div_mod(n, k);
    lemma_mod_bound(n, k);
    if r + 1 < k {
        assert(n + 1 == q * k + (r + 1)) by {
            assert(k * q == q * k) by (nonlinear_arith);
        }
        lemma_fundamental_div_mod_converse(n + 1, k, q, r + 1);
    } else {
        assert(n + 1 == (q + 1) * k + 0) by {
            assert((q + 1) * k == q * k + k) by (nonlinear_arith);
            assert(k * q == q * k) by (nonlinear_arith);
        }
        lemma_fundamental_div_mod_converse(n + 1, k, q + 1, 0);
    }
}

/// A multiple of 100 is a multiple of 4, and a multiple of 400 is a multiple
/// of 100.
proof fn lemma_century_multiples(y: int)
    requires
        0 <= y,
    ensures
        y % 100 == 0 ==> y % 4 == 0,
        y % 400 == 0 ==> y % 100 == 0,
{
    if y % 100 == 0 {
        lemma_fundamental_div_mod(y, 100);
        assert(y == 4 * (25 * (y / 100))) by (nonlinear_arith)
            requires
                y == 100 * (y / 100),
        ;
        lemma_mod_multiples_vanish(25 * (y / 100), 0, 4);
    }
    if y % 400 == 0 {
        lemma_fundamental_div_mod(y, 400);
        assert(y == 100 * (4 * (y / 400))) by (nonlinear_arith)
            requires
                y == 400 * (y / 400),
        ;
        lemma_mod_multiples_vanish(4 * (y / 400), 0, 100);
    }
}

/// Passing from year `y` to year `y + 1` adds one leap year to the count
/// exactly when `y` itself is a leap year.
proof fn lemma_leap_years_step(y: int)
    requires
        0 <= y,
    ensures
        leap_years_before(y + 1) == leap_years_before(y) + if is_leap_year(y) {
            1int
        } else {
            0int
        },
{
    lemma_div_step(y + 3, 4);
    lemma_div_step(y + 99, 100);
    lemma_div_step(y + 399, 400);
    lemma_mod_multiples_vanish(1, y, 4);
    lemma_mod_multiples_vanish(1, y, 100);
    lemma_mod_multiples_vanish(1, y, 400);
    lemma_century_multiples(y);
}

/// In any year the months partition the year: the days before month `m + 1`
/// are the days before month `m` plus the length of month `m`.
proof fn lemma_months_step(y: int, m: int)
    requires
        1 <= m <= 11,
    ensures
        days_before_month(y, m + 1) == days_before_month(y, m) + days_in_month(y, m),
{
}

/// Day numbers of valid dates are not negative.
proof fn lemma_day_index_nonneg(d: Date)
    requires
        d.valid(),
    ensures
        day_index(d) >= 0,
{
    let y = d.year as int;
    lemma_div_pos_is_pos(y + 3, 4);
    lemma_div_pos_is_pos(y + 399, 400);
    if y == 0 {
        assert(leap_years_before(0) == 0);
    } else {
        lemma_div_is_ordered(y + 99, 100 * y, 100);
        assert((100 * y) / 100 == y) by {
            lemma_fundamental_div_mod_converse(100 * y, 100, y, 0);
        }
    }
}

/// Day numbers of valid dates stay below 3 660 000.
proof fn lemma_day_index_bounded(d: Date)
    requires
        d.valid(),
    ensures
        day_index(d) < 3_660_000,
{
    let y = d.year as int;
    lemma_div_pos_is_pos(y + 99, 100);
    lemma_div_is_ordered(y + 3, 10002, 4);
    lemma_div_is_ordered(y + 399, 10398, 400);
}

/// The day number of a valid date, as a machine integer.
pub fn day_number(d: &Date) -> (n: i64)
    requires
        d.valid(),
    ensures
        n == day_index(*d),
        0 <= n < 3_660_000,
{
    proof {
        lemma_day_index_nonneg(*d);
        lemma_day_index_bounded(*d);
    }
    let y: i64 = d.year as i64;
    let leaps: i64 = (y + 3) / 4 - (y + 99) / 100 + (y + 399) / 400;
    let feb: i64 = if leap_year(d.year) {
        29
    } else {
        28
    };
    let before: i64 = match d.month {
        1 => 0,
        2 => 31,
        3 => 31 + feb,
        4 => 62 + feb,
        5 => 92 + feb,
        6 => 123 + feb,
        7 => 153 + feb,
        8 => 184 + feb,
        9 => 215 + feb,
        10 => 245 + feb,
        11 => 276 + feb,
        _ => 306 + feb,
    };
    365 * y + leaps + before + (d.day as i64 - 1)
}

/// The calendar successor of a date, at the specification level.
pub open spec fn next_date_spec(d: Date) -> Date {
    if d.day < days_in_month(d.year as int, d.month as int) {
        Date { year: d.year, month: d.month, day: (d.day + 1) as u32 }
    } else if d.month < 12 {
        Date { year: d.year, month: (d.month + 1) as u32, day: 1 }
    } else {
        Date { year: (d.year + 1) as u32, month: 1, day: 1 }
    }
}

/// The calendar successor of a date.
pub fn next_date(d: &Date) -> (r: Date)
    requires
        d.valid(),
        !d.is_last(),
    ensures
        r == next_date_spec(*d),
        r.valid(),
        day_index(r) == day_index(*d) + 1,
{
    let dim: u32 = month_days(d.year, d.month);
    if d.day < dim {
        Date { year: d.year, month: d.month, day: d.day + 1 }
    } else if d.month < 12 {
        let r = Date { year: d.year, month: d.month + 1, day: 1 };
        proof {
            lemma_months_step(d.year as int, d.month as int);
        }
        r
    } else {
        let r = Date { year: d.year + 1, month: 1, day: 1 };
        proof {
            lemma_leap_years_step(d.year as int);
        }
        r
    }
}

/// Days in all the years before year `y`.
pub open spec fn days_before_year(y: int) -> int {
    365 * y + leap_years_before(y)
}

/// Every instant of a modelled date lies strictly below this bound: the
/// second after 9999-12-31 23:59:59.
pub const INSTANT_LIMIT: i64 = 315_569_520_000;

/// One more year adds 365 days, or 366 across a leap year.
proof fn lemma_days_before_year_step(y: int)
    requires
        0 <= y,
    ensures
        days_before_year(y + 1) == days_before_year(y) + if is_leap_year(y) {
            366int
        } else {
            365int
        },
{
    lemma_leap_years_step(y);
}

/// More years never mean fewer days.
proof fn lemma_days_before_year_mono(y1: int, y2: int)
    requires
        0 <= y1 <= y2,
    ensures
        days_before_year(y1) <= days_before_year(y2),
    decreases y2 - y1,
{
    if y1 < y2 {
        lemma_days_before_year_step(y2 - 1);
        lemma_days_before_year_mono(y1, y2 - 1);
    }
}

/// Ten thousand years hold exactly 3 652 425 days.
proof fn lemma_days_of_ten_thousand_years()
    ensures
        days_before_year(10000) == 3_652_425,
{
    lemma_fundamental_div_mod_converse(10003, 4, 2500, 3);
    lemma_fundamental_div_mod_converse(10099, 100, 100, 99);
    lemma_fundamental_div_mod_converse(10399, 400, 25, 399);
}

/// Days in all the years before year `y`, as a machine integer.
fn days_before_year_num(y: u32) -> (k: i64)
    requires
        y <= 10000,
    ensures
        k == days_before_year(y as int),
{
    let yy: i64 = y as i64;
    365 * yy + (yy + 3) / 4 - (yy + 99) / 100 + (yy + 399) / 400
}

/// Days of year `y` that precede month `m`, as a machine integer.
fn days_before_month_num(y: u32, m: u32) -> (k: i64)
    requires
        1 <= m <= 12,
    ensures
        k == days_before_month(y as int, m as int),
{
    let feb: i64 = if leap_year(y) {
        29
    } else {
        28
    };
    match m {
        1 => 0,
        2 => 31,
        3 => 31 + feb,
        4 => 62 + feb,
        5 => 92 + feb,
        6 => 123 + feb,
        7 => 153 + feb,
        8 => 184 + feb,
        9 => 215 + feb,
        10 => 245 + feb,
        11 => 276 + feb,
        _ => 306 + feb,
    }
}

/// The date holding day number `n`: the inverse of `day_number` on the
/// modelled range.
pub fn date_of_day_number(n: i64) -> (d: Date)
    requires
        0 <= n < 3_652_425,
    ensures
        d.valid(),
        day_index(d) == n,
{
    proof {
        lemma_days_of_ten_thousand_years();
    }
    let mut y: u32 = 0;
    let mut next: i64 = days_before_year_num(1);
    while next <= n
        invariant
            y <= 9999,
            n < 3_652_425,
            days_before_year(y as int) <= n,
            next == days_before_year(y as int + 1),
        decreases 10000 - y,
    {
        proof {
            lemma_days_of_ten_thousand_years();
            if y + 1 >= 10000 {
                lemma_days_before_year_mono(10000, y as int + 1);
                assert(false);
            }
        }
        y += 1;
        next = days_before_year_num(y + 1);
    }
    proof {
        lemma_days_before_year_step(y as int);
    }
    let doy: i64 = n - days_before_year_num(y);
    let mut m: u32 = 1;
    let mut next_m: i64 = days_before_month_num(y, 2);
    while m < 12 && next_m <= doy
        invariant
            1 <= m <= 12,
            0 <= doy,
            doy < days_before_year(y as int + 1) - days_before_year(y as int),
            days_before_year(y as int + 1) == days_before_year(y as int) + if is_leap_year(
                y as int,
            ) {
                366int
            } else {
                365int
            },
            days_before_month(y as int, m as int) <= doy,
            m < 12 ==> next_m == days_before_month(y as int, m as int + 1),
        decreases 12 - m,
    {
        m += 1;
        if m < 12 {
            next_m = days_before_month_num(y, m + 1);
        }
    }
    proof {
        if m < 12 {
            lemma_months_step(y as int, m as int);
        }
    }
    let day: u32 = (doy - days_before_month_num(y, m) + 1) as u32;
    Date { year: y, month: m, day }
}

/// The instant of `h:mi:s` on date `d`, in seconds since the epoch.
pub fn date_instant(d: &Date, h: u32, mi: u32, s: u32) -> (t: i64)
    requires
        d.valid(),
        h <= 23,
        mi <= 59,
        s <= 59,
    ensures
        t == instant_of(*d, h as int, mi as int, s as int),
        0 <= t < 320_000_000_000,
{
    let n: i64 = day_number(d);
    n * 86400 + (h as i64) * 3600 + (mi as i64) * 60 + (s as i64)
}

} // verus!
