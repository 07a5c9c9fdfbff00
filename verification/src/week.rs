//! ISO-8601 week arithmetic: the weeks of a year, the seven dates of a
//! week, the week of a date, and stepping a (week, year) pair by a signed
//! number of weeks across 52- and 53-week year boundaries.

use vstd::prelude::*;

use crate::date::{
    lemma_days_before_year_mono, lemma_days_before_year_step, spec_jan4, spec_max_day,
    spec_week1_monday, Date,
};
use chrono::Datelike;

verus! {

/// How many ISO weeks year `y` has: the distance, in weeks, between the
/// first Mondays of week 1 of `y` and of `y + 1`.
pub open spec fn spec_weeks_in_year(y: int) -> int {
    (spec_week1_monday(y + 1) - spec_week1_monday(y)) / 7
}

pub open spec fn spec_valid_week(w: int, y: int) -> bool {
    1 <= y <= 9998 && 1 <= w <= spec_weeks_in_year(y)
}

/// Day number of the Monday of ISO week `w` of year `y`.
pub open spec fn spec_week_monday(w: int, y: int) -> int {
    spec_week1_monday(y) + 7 * (w - 1)
}

pub open spec fn spec_iso_year_rec(n: int, y: int) -> int
    decreases 9998 - y,
{
    if y >= 9998 || n < spec_week1_monday(y + 1) {
        y
    } else {
        spec_iso_year_rec(n, y + 1)
    }
}

/// The ISO year that day number `n` belongs to.
pub open spec fn spec_iso_year_of(n: int) -> int {
    spec_iso_year_rec(n, 1)
}

/// The ISO week number that day number `n` belongs to.
pub open spec fn spec_iso_week_of(n: int) -> int {
    (n - spec_week1_monday(spec_iso_year_of(n))) / 7 + 1
}

/// Week-1 Mondays are Mondays: their day numbers are multiples of 7.
pub proof fn lemma_week1_monday_mod7(y: int)
    requires
        y >= 1,
    ensures
        spec_week1_monday(y) % 7 == 0,
        spec_week1_monday(y) == 7 * (spec_jan4(y) / 7),
        spec_week1_monday(y) >= 0,
{
    lemma_days_before_year_mono(1, y);
    vstd::arithmetic::div_mod::lemma_fundamental_div_mod(spec_jan4(y), 7);
    vstd::arithmetic::div_mod::lemma_mod_division_less_than_divisor(spec_jan4(y), 7);
    vstd::arithmetic::div_mod::lemma_remainder_lower(spec_jan4(y), 7);
    vstd::arithmetic::div_mod::lemma_mod_multiples_basic(spec_jan4(y) / 7, 7);
}

/// Consecutive week-1 Mondays lie exactly 52 or 53 weeks apart.
pub proof fn lemma_weeks_in_year(y: int)
    requires
        y >= 1,
    ensures
        spec_weeks_in_year(y) == 52 || spec_weeks_in_year(y) == 53,
        spec_week1_monday(y + 1) == spec_week1_monday(y) + 7 * spec_weeks_in_year(y),
{
    lemma_days_before_year_step(y);
    lemma_week1_monday_mod7(y);
    lemma_week1_monday_mod7(y + 1);
    let q1 = spec_jan4(y) / 7;
    let q2 = spec_jan4(y + 1) / 7;
    vstd::arithmetic::div_mod::lemma_mod_division_less_than_divisor(spec_jan4(y), 7);
    vstd::arithmetic::div_mod::lemma_mod_division_less_than_divisor(spec_jan4(y + 1), 7);
    vstd::arithmetic::div_mod::lemma_remainder_lower(spec_jan4(y), 7);
    vstd::arithmetic::div_mod::lemma_remainder_lower(spec_jan4(y + 1), 7);
    assert(spec_week1_monday(y + 1) - spec_week1_monday(y) == 7 * (q2 - q1))
        by (nonlinear_arith)
        requires
            spec_week1_monday(y) == 7 * q1,
            spec_week1_monday(y + 1) == 7 * q2,
    ;
    assert(359 <= 7 * (q2 - q1) <= 372);
    assert(q2 - q1 == 52 || q2 - q1 == 53) by (nonlinear_arith)
        requires
            359 <= 7 * (q2 - q1) <= 372,
    ;
    assert(spec_weeks_in_year(y) == (7 * (q2 - q1)) / 7);
    vstd::arithmetic::div_mod::lemma_fundamental_div_mod_converse(
        7 * (q2 - q1),
        7,
        q2 - q1,
        0,
    );
}

/// Week-1 Mondays grow with the year.
pub proof fn lemma_week1_monday_mono(y1: int, y2: int)
    requires
        1 <= y1 <= y2,
    ensures
        spec_week1_monday(y1) + 364 * (y2 - y1) <= spec_week1_monday(y2),
    decreases y2 - y1,
{
    if y1 < y2 {
        lemma_week1_monday_mono(y1, y2 - 1);
        lemma_weeks_in_year(y2 - 1);
    }
}

proof fn lemma_iso_year_rec_char(n: int, y: int)
    requires
        1 <= y <= 9998,
        spec_week1_monday(y) <= n < spec_max_day(),
    ensures
        ({
            let r = spec_iso_year_rec(n, y);
            &&& y <= r <= 9998
            &&& spec_week1_monday(r) <= n < spec_week1_monday(r + 1)
        }),
    decreases 9998 - y,
{
    if y >= 9998 || n < spec_week1_monday(y + 1) {
    } else {
        lemma_iso_year_rec_char(n, y + 1);
    }
}

/// Every supported day number falls in the range of its ISO year.
pub proof fn lemma_iso_year_char(n: int)
    requires
        0 <= n < spec_max_day(),
    ensures
        ({
            let r = spec_iso_year_of(n);
            &&& 1 <= r <= 9998
            &&& spec_week1_monday(r) <= n < spec_week1_monday(r + 1)
        }),
{
    assert(spec_week1_monday(1) == 0);
    lemma_iso_year_rec_char(n, 1);
}

/// Only one year's range can hold a given day number.
pub proof fn lemma_iso_year_unique(n: int, y: int)
    requires
        0 <= n < spec_max_day(),
        1 <= y <= 9998,
        spec_week1_monday(y) <= n < spec_week1_monday(y + 1),
    ensures
        spec_iso_year_of(n) == y,
{
    lemma_iso_year_char(n);
    let r = spec_iso_year_of(n);
    if r < y {
        lemma_week1_monday_mono(r + 1, y);
    }
    if r > y {
        lemma_week1_monday_mono(y + 1, r);
    }
}

/// The days of ISO week `w` of year `y` — the Monday's day number plus
/// 0 through 6 — are assigned exactly that week and year back.
pub proof fn lemma_week_dates_iso(w: int, y: int, j: int)
    requires
        spec_valid_week(w, y),
        0 <= j < 7,
    ensures
        0 <= spec_week_monday(w, y) + j < spec_max_day(),
        spec_iso_year_of(spec_week_monday(w, y) + j) == y,
        spec_iso_week_of(spec_week_monday(w, y) + j) == w,
        (spec_week_monday(w, y) + j) % 7 == j,
{
    let n = spec_week_monday(w, y) + j;
    lemma_weeks_in_year(y);
    lemma_week1_monday_mod7(y);
    lemma_week1_monday_mono(1, y);
    lemma_week1_monday_mono(y + 1, 9999);
    assert(spec_week1_monday(y) <= n < spec_week1_monday(y + 1));
    lemma_iso_year_unique(n, y);
    vstd::arithmetic::div_mod::lemma_fundamental_div_mod_converse(
        n - spec_week1_monday(y),
        7,
        w - 1,
        j,
    );
    let q = spec_jan4(y) / 7;
    vstd::arithmetic::div_mod::lemma_fundamental_div_mod_converse(n, 7, q + (w - 1), j);
}

/// An ISO (week, year) pair and the day number of its Monday determine
/// each other: for a Monday `n`, the pair of `n` is valid and its Monday
/// is `n` itself.
pub proof fn lemma_monday_week(n: int)
    requires
        0 <= n < spec_max_day(),
        n % 7 == 0,
    ensures
        spec_valid_week(spec_iso_week_of(n), spec_iso_year_of(n)),
        spec_week_monday(spec_iso_week_of(n), spec_iso_year_of(n)) == n,
{
    lemma_iso_year_char(n);
    let y = spec_iso_year_of(n);
    lemma_weeks_in_year(y);
    lemma_week1_monday_mod7(y);
    let d = n - spec_week1_monday(y);
    assert(d % 7 == 0) by {
        let q = spec_jan4(y) / 7;
        vstd::arithmetic::div_mod::lemma_fundamental_div_mod(n, 7);
        assert(n == 7 * (n / 7));
        assert(d == 7 * (n / 7 - q)) by (nonlinear_arith)
            requires
                n == 7 * (n / 7),
                spec_week1_monday(y) == 7 * q,
                d == n - spec_week1_monday(y),
        ;
        vstd::arithmetic::div_mod::lemma_mod_multiples_basic(n / 7 - q, 7);
    }
    vstd::arithmetic::div_mod::lemma_fundamental_div_mod(d, 7);
    let w = spec_iso_week_of(n);
    assert(d == 7 * (d / 7));
    assert(7 * (w - 1) == d);
    assert(0 <= d < 7 * spec_weeks_in_year(y));
    assert(1 <= w <= spec_weeks_in_year(y)) by (nonlinear_arith)
        requires
            7 * (w - 1) == d,
            0 <= d < 7 * spec_weeks_in_year(y),
    ;
}

/// An ISO (week, year) position, as the application's pages address it.
#[derive(Clone, Copy, PartialEq, Eq, Structural, Debug)]
pub struct Week {
    pub week: u32,
    pub year: i32,
}

/// Where stepping `delta` weeks from week `w` of year `y` lands: the pair
/// whose Monday lies exactly `7 * delta` days further, clamped to the
/// first and last supported weeks at the ends of the supported range.
pub open spec fn spec_next_week(w: int, y: int, delta: int) -> (int, int) {
    let target = spec_week_monday(w, y) + 7 * delta;
    if target < 0 {
        (1, 1)
    } else if target >= spec_max_day() {
        (spec_weeks_in_year(9998), 9998)
    } else {
        (spec_iso_week_of(target), spec_iso_year_of(target))
    }
}

/// Relies on `chrono::Local::now` (with `Datelike::year`, `month` and
/// `day` on the current local date) for the calendar date of today;
/// chrono documents month in 1..=12 and day in 1..=31.
#[verifier::external_body]
fn today_ymd() -> (r: (i32, u32, u32))
    ensures
        1 <= r.1 <= 12,
        1 <= r.2 <= 31,
{
    let today = chrono::Local::now().date_naive();
    (today.year(), today.month(), today.day())
}

/// Day number of the Monday of ISO week 1 of year `y`.
pub fn week1_monday(y: i32) -> (r: u32)
    requires
        1 <= y <= 9999,
    ensures
        r == spec_week1_monday(y as int),
{
    let jan4: u32 = Date::days_before_year(y) + 3;
    jan4 - jan4 % 7
}

/// How many ISO weeks year `y` has: 52 or 53.
pub fn weeks_in_year(y: i32) -> (r: u32)
    requires
        1 <= y <= 9998,
    ensures
        r == spec_weeks_in_year(y as int),
        r == 52 || r == 53,
{
    proof {
        lemma_weeks_in_year(y as int);
        lemma_week1_monday_mono(1, y as int);
    }
    (week1_monday(y + 1) - week1_monday(y)) / 7
}

impl Week {
    pub open spec fn is_valid(self) -> bool {
        spec_valid_week(self.week as int, self.year as int)
    }

    pub fn new(week: u32, year: i32) -> (r: Week)
        ensures
            r.week == week,
            r.year == year,
    {
        Week { week, year }
    }

    /// The ISO week holding the given date.
    pub fn of_date(date: Date) -> (r: Week)
        requires
            date.is_valid(),
        ensures
            r.week == spec_iso_week_of(date@),
            r.year == spec_iso_year_of(date@),
            r.is_valid(),
            spec_week_monday(r.week as int, r.year as int) <= date@ < spec_week_monday(
                r.week as int,
                r.year as int,
            ) + 7,
    {
        let n: u32 = date.day_number();
        proof {
            lemma_iso_year_char(n as int);
        }
        let mut y: i32 = 1;
        while y < 9998 && week1_monday(y + 1) <= n
            invariant
                1 <= y <= 9998,
                spec_week1_monday(y as int) <= n,
                n < spec_max_day(),
            decreases 9998 - y,
        {
            y = y + 1;
        }
        proof {
            lemma_iso_year_unique(n as int, y as int);
            lemma_weeks_in_year(y as int);
            lemma_week1_monday_mono(1, y as int);
            vstd::arithmetic::div_mod::lemma_fundamental_div_mod(
                n - spec_week1_monday(y as int),
                7,
            );
            vstd::arithmetic::div_mod::lemma_mod_division_less_than_divisor(
                n - spec_week1_monday(y as int),
                7,
            );
            vstd::arithmetic::div_mod::lemma_remainder_lower(
                n - spec_week1_monday(y as int),
                7,
            );
            assert(1 <= spec_iso_week_of(n as int) <= spec_weeks_in_year(y as int))
                by (nonlinear_arith)
                requires
                    spec_iso_week_of(n as int) == (n - spec_week1_monday(y as int)) / 7 + 1,
                    n - spec_week1_monday(y as int) == 7 * ((n - spec_week1_monday(y as int)) / 7)
                        + (n - spec_week1_monday(y as int)) % 7,
                    0 <= (n - spec_week1_monday(y as int)) % 7 < 7,
                    0 <= n - spec_week1_monday(y as int) < 7 * spec_weeks_in_year(y as int),
            ;
        }
        let w: u32 = (n - week1_monday(y)) / 7 + 1;
        proof {
            let off = n - spec_week1_monday(y as int);
            assert(spec_week_monday(w as int, y as int) <= n < spec_week_monday(
                w as int,
                y as int,
            ) + 7) by (nonlinear_arith)
                requires
                    w == off / 7 + 1,
                    off == 7 * (off / 7) + off % 7,
                    0 <= off % 7 < 7,
                    spec_week_monday(w as int, y as int) == spec_week1_monday(y as int) + 7 * (
                    w - 1),
                    off == n - spec_week1_monday(y as int),
            ;
        }
        Week { week: w, year: y }
    }

    /// The ISO week of today's local date, or week 1 of year 1 when the
    /// clock lies outside the supported range.
    pub fn current() -> (r: Week)
        ensures
            r.is_valid(),
    {
        let (y, m, d) = today_ymd();
        match Date::from_ymd(y, m, d) {
            Some(date) => Week::of_date(date),
            None => {
                proof {
                    lemma_weeks_in_year(1);
                }
                Week { week: 1, year: 1 }
            },
        }
    }

    /// The seven dates of this week, Monday through Sunday; empty when the
    /// week or year is not a valid ISO (week, year) pair.
    pub fn dates(&self) -> (r: Vec<Date>)
        ensures
            self.is_valid() ==> r@.len() == 7 && forall|j: int|
                0 <= j < 7 ==> (#[trigger] r@[j])@ == spec_week_monday(
                    self.week as int,
                    self.year as int,
                ) + j && r@[j].is_valid(),
            !self.is_valid() ==> r@.len() == 0,
    {
        let mut out: Vec<Date> = Vec::new();
        if self.year < 1 || self.year > 9998 || self.week < 1 || self.week > weeks_in_year(
            self.year,
        ) {
            return out;
        }
        let monday: u32 = week1_monday(self.year) + 7 * (self.week - 1);
        proof {
            lemma_weeks_in_year(self.year as int);
            lemma_week1_monday_mono(1, self.year as int);
            lemma_week1_monday_mono(self.year as int + 1, 9999);
            assert(7 * (self.week - 1) <= 7 * (spec_weeks_in_year(self.year as int) - 1))
                by (nonlinear_arith)
                requires
                    self.week <= spec_weeks_in_year(self.year as int),
            ;
        }
        let mut j: u32 = 0;
        while j < 7
            invariant
                0 <= j <= 7,
                out@.len() == j,
                monday == spec_week_monday(self.week as int, self.year as int),
                monday + 7 <= spec_max_day(),
                forall|i: int|
                    0 <= i < j ==> (#[trigger] out@[i])@ == monday + i && out@[i].is_valid(),
            decreases 7 - j,
        {
            match Date::from_day_number(monday + j) {
                Some(d) => out.push(d),
                None => {
                    proof {
                        assert(false);
                    }
                },
            }
            j = j + 1;
        }
        out
    }

    /// Steps this week by `n` weeks, as `spec_next_week` describes:
    /// whole years are added or removed, each counting its own 52 or 53
    /// weeks, until the running week number is back in range.
    #[verifier::rlimit(100)]
    pub fn next(self, n: i32) -> (r: Week)
        requires
            self.is_valid(),
        ensures
            (r.week as int, r.year as int) == spec_next_week(
                self.week as int,
                self.year as int,
                n as int,
            ),
            r.is_valid(),
    {
        let ghost target = spec_week_monday(self.week as int, self.year as int) + 7 * (n as int);
        let mut week: i64 = self.week as i64 + n as i64;
        let mut year: i32 = self.year;
        proof {
            lemma_weeks_in_year(self.year as int);
        }
        while week > weeks_in_year(year) as i64
            invariant
                1 <= year <= 9998,
                spec_week1_monday(year as int) + 7 * (week - 1) == target,
                week <= self.week + n <= u32::MAX + i32::MAX,
                self.is_valid(),
                target == spec_week_monday(self.week as int, self.year as int) + 7 * (n as int),
            decreases week,
        {
            let wiy: u32 = weeks_in_year(year);
            if year == 9998 {
                proof {
                    lemma_weeks_in_year(9998);
                    assert(target >= spec_week1_monday(9999)) by (nonlinear_arith)
                        requires
                            spec_week1_monday(9998) + 7 * (week - 1) == target,
                            week - 1 >= spec_weeks_in_year(9998),
                            spec_week1_monday(9999) == spec_week1_monday(9998) + 7
                                * spec_weeks_in_year(9998),
                    ;
                    lemma_week1_monday_mono(1, 9998);
                    assert(target >= spec_max_day());
                    assert(spec_next_week(self.week as int, self.year as int, n as int) == (
                    spec_weeks_in_year(9998),
                    9998int,
                    ));
                }
                return Week { week: wiy, year: 9998 };
            }
            proof {
                lemma_weeks_in_year(year as int);
            }
            week = week - wiy as i64;
            year = year + 1;
        }
        while week < 1
            invariant
                1 <= year <= 9998,
                spec_week1_monday(year as int) + 7 * (week - 1) == target,
                week <= 53,
                week < 1 || week <= spec_weeks_in_year(year as int),
                self.is_valid(),
                target == spec_week_monday(self.week as int, self.year as int) + 7 * (n as int),
            decreases 53 - week,
        {
            if year == 1 {
                proof {
                    assert(spec_week1_monday(1) == 0);
                    assert(target == 7 * (week - 1) && week - 1 <= -1);
                    assert(target < 0);
                    lemma_weeks_in_year(1);
                    assert(spec_next_week(self.week as int, self.year as int, n as int) == (
                    1int,
                    1int,
                    ));
                }
                return Week { week: 1, year: 1 };
            }
            proof {
                lemma_weeks_in_year(year as int - 1);
            }
            let wiy: u32 = weeks_in_year(year - 1);
            week = week + wiy as i64;
            year = year - 1;
        }
        proof {
            lemma_weeks_in_year(year as int);
            lemma_next_week_lands(
                self.week as int,
                self.year as int,
                n as int,
                week as int,
                year as int,
            );
        }
        Week { week: week as u32, year }
    }
}

/// A valid pair whose Monday lies `7 * d` days past the Monday of
/// `(w0, y0)` is where `spec_next_week` lands from there.
pub proof fn lemma_next_week_lands(w0: int, y0: int, d: int, w: int, y: int)
    requires
        spec_valid_week(w0, y0),
        spec_valid_week(w, y),
        spec_week_monday(w, y) == spec_week_monday(w0, y0) + 7 * d,
    ensures
        spec_next_week(w0, y0, d) == (w, y),
{
    lemma_week_dates_iso(w, y, 0);
}

/// Stepping zero weeks stays put, for every valid (week, year) pair.
pub proof fn lemma_next_week_zero(w: int, y: int)
    requires
        spec_valid_week(w, y),
    ensures
        spec_next_week(w, y, 0) == (w, y),
{
    lemma_week_dates_iso(w, y, 0);
}

/// Stepping `d` weeks and then `-d` weeks returns to the start, for every
/// valid pair, whenever the step does not leave the supported range.
pub proof fn lemma_next_week_inverse(w: int, y: int, d: int)
    requires
        spec_valid_week(w, y),
        0 <= spec_week_monday(w, y) + 7 * d < spec_max_day(),
    ensures
        ({
            let (w2, y2) = spec_next_week(w, y, d);
            spec_next_week(w2, y2, -d) == (w, y)
        }),
{
    let target = spec_week_monday(w, y) + 7 * d;
    lemma_week_dates_iso(w, y, 0);
    assert(target % 7 == 0) by {
        lemma_week1_monday_mod7(y);
        let q = spec_jan4(y) / 7;
        assert(target == 7 * (q + (w - 1) + d)) by (nonlinear_arith)
            requires
                spec_week1_monday(y) == 7 * q,
                target == spec_week1_monday(y) + 7 * (w - 1) + 7 * d,
        ;
        vstd::arithmetic::div_mod::lemma_mod_multiples_basic(q + (w - 1) + d, 7);
    }
    lemma_monday_week(target);
    let (w2, y2) = spec_next_week(w, y, d);
    assert(spec_week_monday(w2, y2) == target);
    assert(spec_week_monday(w2, y2) + 7 * (-d) == spec_week_monday(w, y));
    lemma_week_dates_iso(w, y, 0);
    lemma_monday_week(spec_week_monday(w, y));
}

} // verus!
