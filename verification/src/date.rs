//! Calendar dates of the proleptic Gregorian calendar, counted as day
//! numbers: day 0 is 0001-01-01, which is a Monday. Day numbers make the
//! ISO-week arithmetic in `week` a matter of plain integer reasoning.

use vstd::prelude::*;

verus! {

/// A year has an extra day when it is divisible by 4 but not by 100,
/// or divisible by 400.
pub open spec fn spec_is_leap_year(y: int) -> bool {
    (y % 4 == 0 && y % 100 != 0) || y % 400 == 0
}

pub open spec fn spec_days_in_year(y: int) -> int {
    if spec_is_leap_year(y) {
        366
    } else {
        365
    }
}

/// How many of the years 1..=n are leap years.
pub open spec fn spec_leap_count(n: int) -> int {
    n / 4 - n / 100 + n / 400
}

/// Day number of January 1 of year `y`.
pub open spec fn spec_days_before_year(y: int) -> int {
    365 * (y - 1) + spec_leap_count(y - 1)
}

pub open spec fn spec_month_len(y: int, m: int) -> int {
    if m == 2 {
        if spec_is_leap_year(y) {
            29
        } else {
            28
        }
    } else if m == 4 || m == 6 || m == 9 || m == 11 {
        30
    } else {
        31
    }
}

/// Days of year `y` that lie before month `m` (1-based; `m` may be 13).
pub open spec fn spec_days_before_month(y: int, m: int) -> int
    decreases m,
{
    if m <= 1 {
        0
    } else {
        spec_days_before_month(y, m - 1) + spec_month_len(y, m - 1)
    }
}

pub open spec fn spec_valid_ymd(y: int, m: int, d: int) -> bool {
    1 <= y <= 9999 && 1 <= m <= 12 && 1 <= d <= spec_month_len(y, m)
}

pub open spec fn spec_ymd_to_num(y: int, m: int, d: int) -> int {
    spec_days_before_year(y) + spec_days_before_month(y, m) + (d - 1)
}

/// Day number of January 4 of year `y`; ISO week 1 of `y` is the week
/// containing this day.
pub open spec fn spec_jan4(y: int) -> int {
    spec_days_before_year(y) + 3
}

/// Day number of the Monday that starts ISO week 1 of year `y`.
pub open spec fn spec_week1_monday(y: int) -> int {
    spec_jan4(y) - spec_jan4(y) % 7
}

/// One past the largest supported day number: dates of ISO years 1..=9998.
pub open spec fn spec_max_day() -> int {
    spec_week1_monday(9999)
}

/// For positive `n`, the quotient `n / d` grows by one exactly when `d`
/// divides `n`.
proof fn lemma_div_step(n: int, d: int)
    requires
        n >= 1,
        d >= 1,
    ensures
        n / d == (n - 1) / d + if n % d == 0 {
            1int
        } else {
            0int
        },
{
    vstd::arithmetic::div_mod::lemma_fundamental_div_mod(n, d);
    vstd::arithmetic::div_mod::lemma_mod_division_less_than_divisor(n, d);
    vstd::arithmetic::div_mod::lemma_remainder_lower(n, d);
    let q = n / d;
    let r = n % d;
    assert(n == q * d + r) by (nonlinear_arith)
        requires
            n == d * q + r,
    ;
    if r == 0 {
        assert(n - 1 == (q - 1) * d + (d - 1)) by (nonlinear_arith)
            requires
                n == q * d + r,
                r == 0,
        ;
        vstd::arithmetic::div_mod::lemma_fundamental_div_mod_converse(n - 1, d, q - 1, d - 1);
    } else {
        vstd::arithmetic::div_mod::lemma_fundamental_div_mod_converse(n - 1, d, q, r - 1);
    }
}

/// Stepping from January 1 of year `y` to January 1 of year `y + 1`
/// crosses exactly the days of year `y`.
pub proof fn lemma_days_before_year_step(y: int)
    requires
        y >= 1,
    ensures
        spec_days_before_year(y + 1) == spec_days_before_year(y) + spec_days_in_year(y),
{
    lemma_div_step(y, 4);
    lemma_div_step(y, 100);
    lemma_div_step(y, 400);
    assert(y % 400 == 0 ==> y % 100 == 0 && y % 4 == 0) by {
        vstd::arithmetic::div_mod::lemma_mod_mod(y, 4, 100);
        vstd::arithmetic::div_mod::lemma_mod_mod(y, 100, 4);
    }
    assert(y % 100 == 0 ==> y % 4 == 0) by {
        vstd::arithmetic::div_mod::lemma_mod_mod(y, 4, 25);
    }
}

/// January 1 day numbers grow with the year, by at least 365 per year.
pub proof fn lemma_days_before_year_mono(y1: int, y2: int)
    requires
        1 <= y1 <= y2,
    ensures
        spec_days_before_year(y1) + 365 * (y2 - y1) <= spec_days_before_year(y2),
    decreases y2 - y1,
{
    if y1 < y2 {
        lemma_days_before_year_mono(y1, y2 - 1);
        lemma_days_before_year_step(y2 - 1);
    }
}

/// The months of year `y` account for exactly its days.
pub proof fn lemma_days_before_month_total(y: int)
    ensures
        spec_days_before_month(y, 13) == spec_days_in_year(y),
{
    reveal_with_fuel(spec_days_before_month, 14);
}

/// Days lying before a later month lie before it by whole months.
pub proof fn lemma_days_before_month_mono(y: int, m1: int, m2: int)
    requires
        1 <= m1 <= m2,
    ensures
        spec_days_before_month(y, m1) <= spec_days_before_month(y, m2),
    decreases m2 - m1,
{
    if m1 < m2 {
        lemma_days_before_month_mono(y, m1, m2 - 1);
    }
}

/// A calendar date, stored as its day number. Supported dates are exactly
/// those of ISO years 1..=9998.
#[derive(Clone, Copy, PartialEq, Eq, Structural, Debug, Hash)]
pub struct Date {
    num: u32,
}

impl View for Date {
    type V = int;

    closed spec fn view(&self) -> int {
        self.num as int
    }
}

impl Date {
    pub open spec fn is_valid(self) -> bool {
        0 <= self@ < spec_max_day()
    }

    /// Day number of January 1 of year `y`.
    pub fn days_before_year(y: i32) -> (r: u32)
        requires
            1 <= y <= 10000,
        ensures
            r == spec_days_before_year(y as int),
    {
        let n: u32 = (y - 1) as u32;
        365 * n + n / 4 - n / 100 + n / 400
    }

    /// Days of year `y` that lie before month `m`.
    pub fn days_before_month(y: i32, m: u32) -> (r: u32)
        requires
            1 <= m <= 13,
        ensures
            r == spec_days_before_month(y as int, m as int),
    {
        proof {
            reveal_with_fuel(spec_days_before_month, 14);
        }
        let leap: u32 = if (y % 4 == 0 && y % 100 != 0) || y % 400 == 0 {
            1
        } else {
            0
        };
        proof {
            vstd::arithmetic::div_mod::lemma_mod_bound(y as int, 4);
            vstd::arithmetic::div_mod::lemma_mod_bound(y as int, 100);
            vstd::arithmetic::div_mod::lemma_mod_bound(y as int, 400);
        }
        let base: u32 = match m {
            1 => 0,
            2 => 31,
            3 => 59,
            4 => 90,
            5 => 120,
            6 => 151,
            7 => 181,
            8 => 212,
            9 => 243,
            10 => 273,
            11 => 304,
            12 => 334,
            _ => 365,
        };
        if m >= 3 {
            base + leap
        } else {
            base
        }
    }

    /// The day number one past the largest supported date.
    pub fn max_day() -> (r: u32)
        ensures
            r == spec_max_day(),
    {
        let jan4: u32 = Self::days_before_year(9999) + 3;
        jan4 - jan4 % 7
    }

    /// Builds the date with day number `num`.
    pub fn from_day_number(num: u32) -> (r: Option<Date>)
        ensures
            match r {
                Some(d) => d@ == num && d.is_valid(),
                None => !(0 <= num < spec_max_day()),
            },
    {
        if num < Self::max_day() {
            Some(Date { num })
        } else {
            None
        }
    }

    /// Builds the date for a calendar (year, month, day) triple; `None`
    /// when the triple is not a supported calendar date.
    pub fn from_ymd(y: i32, m: u32, d: u32) -> (r: Option<Date>)
        ensures
            match r {
                Some(date) => spec_valid_ymd(y as int, m as int, d as int) && date@
                    == spec_ymd_to_num(y as int, m as int, d as int) && date.is_valid(),
                None => !(spec_valid_ymd(y as int, m as int, d as int) && spec_ymd_to_num(
                    y as int,
                    m as int,
                    d as int,
                ) < spec_max_day()),
            },
    {
        if y < 1 || y > 9999 || m < 1 || m > 12 {
            return None;
        }
        let ml: u32 = if m == 2 {
            if (y % 4 == 0 && y % 100 != 0) || y % 400 == 0 {
                29
            } else {
                28
            }
        } else if m == 4 || m == 6 || m == 9 || m == 11 {
            30
        } else {
            31
        };
        proof {
            vstd::arithmetic::div_mod::lemma_mod_bound(y as int, 4);
            vstd::arithmetic::div_mod::lemma_mod_bound(y as int, 100);
            vstd::arithmetic::div_mod::lemma_mod_bound(y as int, 400);
        }
        if d < 1 || d > ml {
            return None;
        }
        proof {
            lemma_days_before_month_mono(y as int, m as int, 13);
            lemma_days_before_month_total(y as int);
            lemma_days_before_year_mono(y as int, 10000);
        }
        let num: u32 = Self::days_before_year(y) + Self::days_before_month(y, m) + (d - 1);
        Self::from_day_number(num)
    }

    pub fn day_number(self) -> (r: u32)
        ensures
            r == self@,
    {
        self.num
    }

    /// Day of the week: 0 is Monday through 6 is Sunday.
    pub fn weekday(self) -> (r: u32)
        ensures
            r == self@ % 7,
    {
        self.num % 7
    }

    /// The calendar (year, month, day) triple of this date.
    pub fn to_ymd(self) -> (r: (i32, u32, u32))
        requires
            self.is_valid(),
        ensures
            spec_valid_ymd(r.0 as int, r.1 as int, r.2 as int),
            spec_ymd_to_num(r.0 as int, r.1 as int, r.2 as int) == self@,
    {
        let n: u32 = self.num;
        let mut y: i32 = 1;
        proof {
            lemma_days_before_year_mono(9999, 10000);
        }
        while y < 9999 && Self::days_before_year(y + 1) <= n
            invariant
                1 <= y <= 9999,
                spec_days_before_year(y as int) <= n,
                n < spec_max_day(),
                spec_max_day() <= spec_days_before_year(9999) + 3,
            decreases 9999 - y,
        {
            y = y + 1;
        }
        assert(spec_days_before_year(y as int) <= n < spec_days_before_year(y as int + 1)) by {
            if y == 9999 {
                lemma_days_before_year_mono(9999, 10000);
            }
        }
        let doy: u32 = n - Self::days_before_year(y);
        assert(doy < spec_days_in_year(y as int)) by {
            lemma_days_before_year_step(y as int);
        }
        proof {
            lemma_days_before_month_total(y as int);
        }
        let mut m: u32 = 1;
        while m < 12 && Self::days_before_month(y, m + 1) <= doy
            invariant
                1 <= m <= 12,
                spec_days_before_month(y as int, m as int) <= doy,
                doy < spec_days_in_year(y as int),
                spec_days_before_month(y as int, 13) == spec_days_in_year(y as int),
            decreases 12 - m,
        {
            m = m + 1;
        }
        assert(doy < spec_days_before_month(y as int, m as int + 1)) by {
            if m == 12 {
                reveal_with_fuel(spec_days_before_month, 14);
            }
        }
        let d: u32 = doy - Self::days_before_month(y, m) + 1;
        (y, m, d)
    }
}

/// The date value with day number `n`.
pub closed spec fn spec_date(n: int) -> Date {
    Date { num: n as u32 }
}


/// A date is determined by its day number.
pub proof fn lemma_date_view_injective(d: Date)
    ensures
        spec_date(d@) == d,
{
}

} // verus!
