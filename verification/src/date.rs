//! Proleptic Gregorian calendar dates and the bijective ordinal-day mapping.

use vstd::prelude::*;
use vstd::arithmetic::div_mod::{lemma_fundamental_div_mod, lemma_fundamental_div_mod_converse};
use crate::delta::CalendarDelta;

verus! {

/// The largest representable year.
pub const MAX_YEAR: u16 = 9999;
/// Ordinal of 0001-01-01, the smallest date.
pub const MIN_ORD: u32 = 1;
/// Ordinal of 9999-12-31, the largest date.
pub const MAX_ORD: u32 = 3_652_059;

/// A proleptic Gregorian calendar date. The invariant [`Date::valid`] holds
/// for every value the library hands out.
#[derive(Debug, Clone, Copy, PartialEq, Eq, Structural)]
pub struct Date {
    pub year: u16,
    pub month: u8,
    pub day: u8,
}

/// Standard Gregorian leap-year rule: divisible by 4 and not by 100,
/// unless divisible by 400.
pub open spec fn is_leap_spec(year: int) -> bool {
    (year % 4 == 0 && year % 100 != 0) || year % 400 == 0
}

/// Length in days of the given month of the given year.
pub open spec fn days_in_month_spec(year: int, month: int) -> int {
    if month == 2 {
        if is_leap_spec(year) { 29 } else { 28 }
    } else if month == 4 || month == 6 || month == 9 || month == 11 {
        30
    } else {
        31
    }
}

/// Days of the year that precede the first of the given month.
pub open spec fn days_before_month_spec(year: int, month: int) -> int {
    let base: int = if month == 1 { 0 }
        else if month == 2 { 31 }
        else if month == 3 { 59 }
        else if month == 4 { 90 }
        else if month == 5 { 120 }
        else if month == 6 { 151 }
        else if month == 7 { 181 }
        else if month == 8 { 212 }
        else if month == 9 { 243 }
        else if month == 10 { 273 }
        else if month == 11 { 304 }
        else { 334 };
    if month > 2 && is_leap_spec(year) { base + 1 } else { base }
}

/// Days that precede January 1 of the given year, counting from 0001-01-01.
pub open spec fn days_before_year_spec(year: int) -> int {
    let y = year - 1;
    y * 365 + y / 4 - y / 100 + y / 400
}

/// One-based day count since 0001-01-01: the bijective linearization of a
/// valid date, ranging over `[MIN_ORD, MAX_ORD]`.
pub open spec fn ordinal_spec(d: Date) -> int {
    days_before_year_spec(d.year as int)
        + days_before_month_spec(d.year as int, d.month as int)
        + d.day
}

/// Field-wise validity of a date.
pub open spec fn date_fields_valid(year: int, month: int, day: int) -> bool {
    &&& 1 <= year <= MAX_YEAR
    &&& 1 <= month <= 12
    &&& 1 <= day <= days_in_month_spec(year, month)
}

impl Date {
    /// The smallest representable date, 0001-01-01.
    pub fn min_value() -> (r: Date)
        ensures
            r == min_date(),
            r.valid(),
    {
        Date { year: 1, month: 1, day: 1 }
    }

    /// The largest representable date, 9999-12-31.
    pub fn max_value() -> (r: Date)
        ensures
            r == max_date(),
            r.valid(),
    {
        Date { year: MAX_YEAR, month: 12, day: 31 }
    }

    /// The invariant of every date the library constructs.
    pub open spec fn valid(self) -> bool {
        date_fields_valid(self.year as int, self.month as int, self.day as int)
    }

    /// Lexicographic (year, month, day) order; for valid dates this agrees
    /// with the ordinal order (see `lemma_ordinal_order`).
    pub open spec fn lt_spec(self, other: Date) -> bool {
        ||| self.year < other.year
        ||| (self.year == other.year && self.month < other.month)
        ||| (self.year == other.year && self.month == other.month && self.day < other.day)
    }
}

/// Exec mirror of the leap-year rule.
pub fn is_leap(year: u16) -> (r: bool)
    ensures
        r == is_leap_spec(year as int),
{
    (year % 4 == 0 && year % 100 != 0) || year % 400 == 0
}

/// Exec mirror of the month-length table.
pub fn days_in_month(year: u16, month: u8) -> (r: u8)
    requires
        1 <= month <= 12,
    ensures
        r == days_in_month_spec(year as int, month as int),
{
    if month == 2 {
        if is_leap(year) { 29 } else { 28 }
    } else if month == 4 || month == 6 || month == 9 || month == 11 {
        30
    } else {
        31
    }
}

/// Exec mirror of `days_before_month_spec`.
pub fn days_before_month(year: u16, month: u8) -> (r: u16)
    requires
        1 <= month <= 12,
    ensures
        r == days_before_month_spec(year as int, month as int),
{
    let base: u16 = if month == 1 { 0 }
        else if month == 2 { 31 }
        else if month == 3 { 59 }
        else if month == 4 { 90 }
        else if month == 5 { 120 }
        else if month == 6 { 151 }
        else if month == 7 { 181 }
        else if month == 8 { 212 }
        else if month == 9 { 243 }
        else if month == 10 { 273 }
        else if month == 11 { 304 }
        else { 334 };
    if month > 2 && is_leap(year) { base + 1 } else { base }
}

/// Exec mirror of `days_before_year_spec`, closed-form (no iteration).
pub fn days_before_year(year: u16) -> (r: u32)
    requires
        1 <= year <= MAX_YEAR,
    ensures
        r == days_before_year_spec(year as int),
{
    let y: u32 = (year - 1) as u32;
    y * 365 + y / 4 - y / 100 + y / 400
}

impl Date {
    /// Validated constructor: `Some` exactly when the components form a real
    /// calendar date in years 1..=9999.
    pub fn new(year: u16, month: u8, day: u8) -> (r: Option<Date>)
        ensures
            date_fields_valid(year as int, month as int, day as int)
                ==> r == Some(Date { year, month, day }),
            !date_fields_valid(year as int, month as int, day as int) ==> r is None,
            r matches Some(d) ==> d.valid(),
    {
        if year == 0 || year > MAX_YEAR || month < 1 || month > 12 || day < 1
            || day > days_in_month(year, month)
        {
            None
        } else {
            Some(Date { year, month, day })
        }
    }

    /// Constructor from wide host integers, as handed over by an embedding:
    /// the same validation as [`Date::new`] after a range check.
    pub fn from_longs(year: i64, month: i64, day: i64) -> (r: Option<Date>)
        ensures
            date_fields_valid(year as int, month as int, day as int)
                ==> (r matches Some(d) && d.year == year && d.month == month && d.day == day),
            !date_fields_valid(year as int, month as int, day as int) ==> r is None,
            r matches Some(d) ==> d.valid(),
    {
        if year < 1 || year > MAX_YEAR as i64 {
            return None;
        }
        if month < 1 || month > 12 {
            return None;
        }
        let y = year as u16;
        let m = month as u8;
        if day >= 1 && day <= days_in_month(y, m) as i64 {
            Some(Date { year: y, month: m, day: day as u8 })
        } else {
            None
        }
    }

    /// Constructor that trusts its caller: the components must already form
    /// a valid date.
    pub fn new_unchecked(year: u16, month: u8, day: u8) -> (r: Date)
        requires
            date_fields_valid(year as int, month as int, day as int),
        ensures
            r == (Date { year, month, day }),
            r.valid(),
    {
        Date { year, month, day }
    }

    /// The bijective day count since 0001-01-01, computed in closed form.
    pub fn ord(self) -> (r: u32)
        requires
            self.valid(),
        ensures
            r == ordinal_spec(self),
            MIN_ORD <= r <= MAX_ORD,
    {
        proof {
            lemma_ordinal_range(self);
        }
        days_before_year(self.year) + days_before_month(self.year, self.month) as u32
            + self.day as u32
    }

    /// Strictly-less comparison; agrees with the ordinal order.
    pub fn lt(self, other: Date) -> (r: bool)
        requires
            self.valid(),
            other.valid(),
        ensures
            r == self.lt_spec(other),
            r == (ordinal_spec(self) < ordinal_spec(other)),
    {
        proof {
            lemma_ordinal_order(self, other);
        }
        self.year < other.year
            || (self.year == other.year && self.month < other.month)
            || (self.year == other.year && self.month == other.month && self.day < other.day)
    }
}

/// Advancing a year adds that year's length in days to `days_before_year_spec`.
proof fn lemma_dby_step(y: int)
    requires
        y >= 1,
    ensures
        days_before_year_spec(y + 1) == days_before_year_spec(y)
            + if is_leap_spec(y) { 366int } else { 365int },
{
    let w = y - 1;
    lemma_fundamental_div_mod(w, 4);
    lemma_fundamental_div_mod(w, 100);
    lemma_fundamental_div_mod(w, 400);
    lemma_fundamental_div_mod(y, 4);
    lemma_fundamental_div_mod(y, 100);
    lemma_fundamental_div_mod(y, 400);
    if w % 4 == 3 {
        lemma_fundamental_div_mod_converse(y, 4, w / 4 + 1, 0);
    } else {
        lemma_fundamental_div_mod_converse(y, 4, w / 4, w % 4 + 1);
    }
    if w % 100 == 99 {
        lemma_fundamental_div_mod_converse(y, 100, w / 100 + 1, 0);
    } else {
        lemma_fundamental_div_mod_converse(y, 100, w / 100, w % 100 + 1);
    }
    if w % 400 == 399 {
        lemma_fundamental_div_mod_converse(y, 400, w / 400 + 1, 0);
    } else {
        lemma_fundamental_div_mod_converse(y, 400, w / 400, w % 400 + 1);
    }
}

/// `days_before_year_spec` is monotone in the year.
proof fn lemma_dby_monotone(y1: int, y2: int)
    requires
        1 <= y1 <= y2,
    ensures
        days_before_year_spec(y1) <= days_before_year_spec(y2),
    decreases y2 - y1,
{
    if y1 < y2 {
        lemma_dby_monotone(y1, y2 - 1);
        lemma_dby_step(y2 - 1);
    }
}

/// A month's days carry `days_before_month_spec` to the next month's value,
/// and December's to the year's length.
proof fn lemma_dbm_step(y: int, m: int)
    requires
        1 <= m <= 12,
    ensures
        days_before_month_spec(y, m) + days_in_month_spec(y, m)
            == if m == 12 {
                if is_leap_spec(y) { 366int } else { 365int }
            } else {
                days_before_month_spec(y, m + 1)
            },
{
}

/// Every valid date's ordinal lies strictly between the day counts before
/// its year and before the next year.
proof fn lemma_ordinal_in_year(d: Date)
    requires
        d.valid(),
    ensures
        days_before_year_spec(d.year as int) < ordinal_spec(d),
        ordinal_spec(d) <= days_before_year_spec(d.year as int + 1),
{
    lemma_dbm_step(d.year as int, d.month as int);
    if d.month < 12 {
        lemma_dbm_monotone(d.year as int, d.month as int + 1, 12);
        lemma_dbm_step(d.year as int, 12);
    }
    lemma_dby_step(d.year as int);
}

/// `days_before_month_spec` is monotone in the month.
proof fn lemma_dbm_monotone(y: int, m1: int, m2: int)
    requires
        1 <= m1 <= m2 <= 12,
    ensures
        days_before_month_spec(y, m1) <= days_before_month_spec(y, m2),
{
}

/// Every valid date's ordinal lies in `[MIN_ORD, MAX_ORD]`.
pub proof fn lemma_ordinal_range(d: Date)
    requires
        d.valid(),
    ensures
        MIN_ORD <= ordinal_spec(d) <= MAX_ORD,
{
    lemma_ordinal_in_year(d);
    lemma_dby_monotone(d.year as int + 1, 10000);
    assert(days_before_year_spec(10000) == MAX_ORD);
    assert(days_before_year_spec(d.year as int) >= 0);
}

/// The lexicographic order on valid dates is exactly the ordinal order.
pub proof fn lemma_ordinal_order(a: Date, b: Date)
    requires
        a.valid(),
        b.valid(),
    ensures
        a.lt_spec(b) == (ordinal_spec(a) < ordinal_spec(b)),
{
    if a.year != b.year {
        let (lo, hi) = if a.year < b.year { (a, b) } else { (b, a) };
        lemma_ordinal_in_year(lo);
        lemma_ordinal_in_year(hi);
        lemma_dby_monotone(lo.year as int + 1, hi.year as int);
    } else if a.month != b.month {
        let (lo, hi) = if a.month < b.month { (a, b) } else { (b, a) };
        lemma_dbm_step(lo.year as int, lo.month as int);
        lemma_dbm_monotone(lo.year as int, lo.month as int + 1, hi.month as int);
    }
}

/// With year - 1 split into 400-, 100-, 4- and 1-year blocks, the day count
/// before the year is the weighted sum of the cycle lengths.
proof fn lemma_dby_decompose(a: int, b: int, c: int, d: int)
    requires
        0 <= a,
        0 <= b <= 3,
        0 <= c <= 24,
        0 <= d <= 3,
    ensures
        days_before_year_spec(400 * a + 100 * b + 4 * c + d + 1)
            == 146_097 * a + 36_524 * b + 1_461 * c + 365 * d,
{
    let y = 400 * a + 100 * b + 4 * c + d;
    lemma_fundamental_div_mod_converse(y, 4, 100 * a + 25 * b + c, d);
    lemma_fundamental_div_mod_converse(y, 100, 4 * a + b, 4 * c + d);
    lemma_fundamental_div_mod_converse(y, 400, a, 100 * b + 4 * c + d);
}

/// Leap-year rule in terms of the block decomposition of year - 1.
proof fn lemma_leap_decompose(a: int, b: int, c: int, d: int)
    requires
        0 <= a,
        0 <= b <= 3,
        0 <= c <= 24,
        0 <= d <= 3,
    ensures
        is_leap_spec(400 * a + 100 * b + 4 * c + d + 1) == (d == 3 && (c != 24 || b == 3)),
{
    let y = 400 * a + 100 * b + 4 * c + d + 1;
    if d < 3 {
        lemma_fundamental_div_mod_converse(y, 4, 100 * a + 25 * b + c, d + 1);
        if y % 400 == 0 {
            lemma_fundamental_div_mod(y, 400);
            lemma_fundamental_div_mod_converse(y, 4, 100 * (y / 400), 0);
        }
    } else {
        lemma_fundamental_div_mod_converse(y, 4, 100 * a + 25 * b + c + 1, 0);
        if c == 24 && b == 3 {
            lemma_fundamental_div_mod_converse(y, 400, a + 1, 0);
        } else if c == 24 {
            lemma_fundamental_div_mod_converse(y, 100, 4 * a + b + 1, 0);
            lemma_fundamental_div_mod_converse(y, 400, a, 100 * (b + 1));
        } else {
            lemma_fundamental_div_mod_converse(y, 100, 4 * a + b, 4 * c + 4);
        }
    }
}

/// The closed-form month estimate `(n + 50) / 32` over a zero-based day of
/// the year is at most one month too high, and the corrected month brackets
/// `n` between its month boundaries.
proof fn lemma_locate_month(year: int, n: int, est: int)
    requires
        0 <= n < 365 + if is_leap_spec(year) { 1int } else { 0int },
        est == (n + 50) / 32,
    ensures
        1 <= est <= 12,
        ({
            let m = if n < days_before_month_spec(year, est) { est - 1 } else { est };
            &&& 1 <= m <= 12
            &&& days_before_month_spec(year, m) <= n
            &&& n < days_before_month_spec(year, m) + days_in_month_spec(year, m)
        }),
{
    lemma_fundamental_div_mod(n + 50, 32);
    assert(32 * est <= n + 50 < 32 * est + 32);
}

impl Date {
    /// Inverse of [`Date::ord`]: the unique valid date with the given
    /// ordinal, found by peeling 400-, 100-, 4- and 1-year blocks and then
    /// estimating the month in closed form. Together with the `ensures` of
    /// [`Date::ord`] this makes the pair exact two-sided inverses on the
    /// whole ordinal range.
    pub fn from_ord_unchecked(ord: u32) -> (r: Date)
        requires
            MIN_ORD <= ord <= MAX_ORD,
        ensures
            r.valid(),
            ordinal_spec(r) == ord,
    {
        let n0: u32 = ord - 1;
        let n400: u32 = n0 / 146_097;
        let r1: u32 = n0 % 146_097;
        let n100: u32 = r1 / 36_524;
        let r2: u32 = r1 % 36_524;
        let n4: u32 = r2 / 1_461;
        let r3: u32 = r2 % 1_461;
        let n1: u32 = r3 / 365;
        let n: u32 = r3 % 365;
        let year: u32 = 400 * n400 + 100 * n100 + 4 * n4 + n1 + 1;

        if n100 == 4 {
            // The last day of a 400-year cycle: December 31 of the computed
            // year's predecessor.
            proof {
                assert(r1 == 146_096);
                lemma_dby_decompose(n400 as int, 3, 24, 3);
                lemma_leap_decompose(n400 as int, 3, 24, 3);
            }
            Date { year: (year - 1) as u16, month: 12, day: 31 }
        } else if n1 == 4 {
            // The last day of a 4-year sub-cycle: likewise December 31 of
            // the predecessor year.
            proof {
                assert(r3 == 1_460);
                assert(n4 <= 23);
                lemma_dby_decompose(n400 as int, n100 as int, n4 as int, 3);
                lemma_leap_decompose(n400 as int, n100 as int, n4 as int, 3);
            }
            Date { year: (year - 1) as u16, month: 12, day: 31 }
        } else {
            proof {
                lemma_dby_decompose(n400 as int, n100 as int, n4 as int, n1 as int);
                lemma_leap_decompose(n400 as int, n100 as int, n4 as int, n1 as int);
                if n400 == 24 {
                    assert(r1 <= 145_730);
                    if n100 == 3 {
                        assert(r2 <= 36_158);
                        if n4 == 24 {
                            assert(r3 <= 1_094);
                            assert(n1 <= 2);
                        }
                    }
                }
                assert(year <= 9_999);
            }
            let est: u32 = (n + 50) / 32;
            proof {
                lemma_locate_month(year as int, n as int, est as int);
            }
            let mut month: u8 = est as u8;
            let mut monthdays: u16 = days_before_month(year as u16, month);
            if n < monthdays as u32 {
                month = month - 1;
                proof {
                    lemma_dbm_step(year as int, month as int);
                }
                monthdays = monthdays - days_in_month(year as u16, month) as u16;
            }
            let day: u8 = (n - monthdays as u32) as u8 + 1;
            Date { year: year as u16, month, day }
        }
    }

    /// Inverse of [`Date::ord`] with the range check: `Some` exactly for
    /// ordinals in `[MIN_ORD, MAX_ORD]`.
    pub fn from_ord(ord: i32) -> (r: Option<Date>)
        ensures
            MIN_ORD <= ord <= MAX_ORD
                ==> (r matches Some(d) && d.valid() && ordinal_spec(d) == ord),
            !(MIN_ORD <= ord <= MAX_ORD) ==> r is None,
    {
        if 1 <= ord && ord <= MAX_ORD as i32 {
            Some(Self::from_ord_unchecked(ord as u32))
        } else {
            None
        }
    }
}

/// The smallest representable date, 0001-01-01.
pub open spec fn min_date() -> Date {
    Date { year: 1, month: 1, day: 1 }
}

/// The largest representable date, 9999-12-31.
pub open spec fn max_date() -> Date {
    Date { year: MAX_YEAR, month: 12, day: 31 }
}

/// Calendar-fashion month shift: target month by Euclidean division, day
/// clamped to the length of the landing month, `None` when the target year
/// leaves 1..=9999.
pub open spec fn shift_months_spec(d: Date, months: int) -> Option<Date> {
    let am = d.month - 1 + months;
    let m = am % 12 + 1;
    let y = d.year + am / 12;
    if 1 <= y <= MAX_YEAR {
        Some(Date {
            year: y as u16,
            month: m as u8,
            day: if d.day > days_in_month_spec(y, m) {
                days_in_month_spec(y, m) as u8
            } else {
                d.day
            },
        })
    } else {
        None
    }
}

impl Date {
    /// Move exactly one day forward, wrapping month and year as needed.
    pub fn increment(self) -> (r: Date)
        requires
            self.valid(),
            self != max_date(),
        ensures
            r.valid(),
            ordinal_spec(r) == ordinal_spec(self) + 1,
    {
        if self.day < days_in_month(self.year, self.month) {
            Date { year: self.year, month: self.month, day: self.day + 1 }
        } else if self.month < 12 {
            proof {
                lemma_dbm_step(self.year as int, self.month as int);
            }
            Date { year: self.year, month: self.month + 1, day: 1 }
        } else {
            proof {
                lemma_dbm_step(self.year as int, 12);
                lemma_dby_step(self.year as int);
            }
            Date { year: self.year + 1, month: 1, day: 1 }
        }
    }

    /// Move exactly one day backward, wrapping month and year as needed.
    pub fn decrement(self) -> (r: Date)
        requires
            self.valid(),
            self != min_date(),
        ensures
            r.valid(),
            ordinal_spec(r) == ordinal_spec(self) - 1,
    {
        if self.day > 1 {
            Date { year: self.year, month: self.month, day: self.day - 1 }
        } else if self.month > 1 {
            proof {
                lemma_dbm_step(self.year as int, self.month as int - 1);
            }
            let m = self.month - 1;
            Date { year: self.year, month: m, day: days_in_month(self.year, m) }
        } else {
            proof {
                lemma_dbm_step(self.year as int - 1, 12);
                lemma_dby_step(self.year as int - 1);
            }
            Date { year: self.year - 1, month: 12, day: days_in_month(self.year - 1, 12) }
        }
    }

    /// Shift by a number of days through the ordinal map; `None` when the
    /// result leaves the representable range.
    pub fn shift_days(self, days: i32) -> (r: Option<Date>)
        requires
            self.valid(),
        ensures
            r matches Some(e) ==> e.valid()
                && ordinal_spec(e) == ordinal_spec(self) + days,
            r is None ==> !(MIN_ORD <= ordinal_spec(self) + days <= MAX_ORD),
    {
        let o: i64 = self.ord() as i64 + days as i64;
        if 1 <= o && o <= MAX_ORD as i64 {
            Some(Self::from_ord_unchecked(o as u32))
        } else {
            None
        }
    }

    /// Shift by months with day clamping, per `shift_months_spec`.
    pub fn shift_months(self, months: i32) -> (r: Option<Date>)
        requires
            self.valid(),
        ensures
            r == shift_months_spec(self, months as int),
            r matches Some(e) ==> e.valid(),
    {
        let am: i64 = self.month as i64 - 1 + months as i64;
        let (q, rm): (i64, u8) = if am >= 0 {
            proof {
                lemma_fundamental_div_mod(am as int, 12);
            }
            ((am as u64 / 12) as i64, (am as u64 % 12) as u8)
        } else {
            let pos: u64 = (-am) as u64;
            let qq: i64 = ((pos + 11) / 12) as i64;
            proof {
                lemma_fundamental_div_mod((pos + 11) as int, 12);
                lemma_fundamental_div_mod_converse(
                    am as int,
                    12,
                    -qq as int,
                    am as int + 12 * (qq as int),
                );
            }
            (-qq, (am + 12 * qq) as u8)
        };
        let year_t: i64 = self.year as i64 + q;
        if 1 <= year_t && year_t <= MAX_YEAR as i64 {
            let y = year_t as u16;
            let m = rm + 1;
            let dim = days_in_month(y, m);
            let day = if self.day > dim { dim } else { self.day };
            Some(Date { year: y, month: m, day })
        } else {
            None
        }
    }

    /// Shift by years, months and days: months (with years folded in) are
    /// applied first, then days, each step possibly out of range.
    pub fn shift(self, years: i16, months: i32, days: i32) -> (r: Option<Date>)
        requires
            self.valid(),
        ensures
            match shift_months_spec(self, years * 12 + months) {
                Some(m) => {
                    &&& (r matches Some(e) ==> e.valid()
                        && ordinal_spec(e) == ordinal_spec(m) + days)
                    &&& (r is None ==> !(MIN_ORD <= ordinal_spec(m) + days <= MAX_ORD))
                },
                None => r is None,
            },
    {
        let total: i64 = years as i64 * 12 + months as i64;
        if total < i32::MIN as i64 || total > i32::MAX as i64 {
            // More than 2^31 months is over 178 million years: always out of
            // range, as is every target `shift_months_spec` could name.
            proof {
                let am = self.month - 1 + total as int;
                lemma_fundamental_div_mod(am, 12);
            }
            return None;
        }
        match self.shift_months(total as i32) {
            Some(d) => d.shift_days(days),
            None => None,
        }
    }
}

impl Date {
    /// The calendar difference `self - other`: a delta of months and days
    /// that reconstructs `self` when added to `other` calendar-fashion
    /// (months first, then days). The `ensures` states that round trip for
    /// every pair of valid dates.
    pub fn diff(self, other: Date) -> (r: CalendarDelta)
        requires
            self.valid(),
            other.valid(),
        ensures
            shift_months_spec(other, r.months as int) matches Some(m)
                && MIN_ORD <= ordinal_spec(m) + r.days <= MAX_ORD
                && ordinal_spec(m) + r.days == ordinal_spec(self),
            -120_000 <= r.months <= 120_000,
            -31 <= r.days <= 31,
    {
        let a = self;
        let b = other;
        let months0: i32 = (a.year as i32 - b.year as i32) * 12
            + (a.month as i32 - b.month as i32);
        proof {
            lemma_fundamental_div_mod_converse(
                b.month - 1 + months0,
                12,
                a.year as int - b.year as int,
                a.month - 1,
            );
            lemma_ordinal_range(a);
        }
        let moved0 = b.shift_months(months0).unwrap();
        if a.lt(b) && moved0.lt(a) {
            // Crossing from below a month boundary: one more month, and the
            // day correction borrows the length of `a`'s month.
            let months1 = months0 + 1;
            proof {
                if a.month == 12 {
                    lemma_fundamental_div_mod_converse(
                        b.month - 1 + months1,
                        12,
                        a.year as int - b.year as int + 1,
                        0,
                    );
                    lemma_dby_step(a.year as int);
                    lemma_dbm_step(a.year as int, 12);
                } else {
                    lemma_fundamental_div_mod_converse(
                        b.month - 1 + months1,
                        12,
                        a.year as int - b.year as int,
                        a.month as int,
                    );
                    lemma_dbm_step(a.year as int, a.month as int);
                }
            }
            let moved1 = b.shift_months(months1).unwrap();
            let days = a.day as i32 - days_in_month(a.year, a.month) as i32
                - moved1.day as i32;
            CalendarDelta { months: months1, days }
        } else if b.lt(a) && a.lt(moved0) {
            // Overshot past `a` from above: one month back, and the day
            // correction carries the length of the landing month.
            let months2 = months0 - 1;
            proof {
                if a.month == 1 {
                    lemma_fundamental_div_mod_converse(
                        b.month - 1 + months2,
                        12,
                        a.year as int - b.year as int - 1,
                        11,
                    );
                    lemma_dby_step(a.year as int - 1);
                    lemma_dbm_step(a.year as int - 1, 12);
                } else {
                    lemma_fundamental_div_mod_converse(
                        b.month - 1 + months2,
                        12,
                        a.year as int - b.year as int,
                        a.month - 2,
                    );
                    lemma_dbm_step(a.year as int, a.month as int - 1);
                }
            }
            let moved2 = b.shift_months(months2).unwrap();
            let days = a.day as i32 + days_in_month(moved2.year, moved2.month) as i32
                - moved2.day as i32;
            CalendarDelta { months: months2, days }
        } else {
            CalendarDelta { months: months0, days: a.day as i32 - moved0.day as i32 }
        }
    }
}

/// An ASCII decimal digit.
pub open spec fn is_ascii_digit(b: u8) -> bool {
    48 <= b <= 57
}

/// Numeric value of an ASCII digit.
pub open spec fn digit_val(b: u8) -> int {
    b - 48
}

/// The strict fixed-width date grammar: exactly `YYYY-MM-DD`, ASCII digits,
/// dashes at positions 4 and 7, nothing else.
pub open spec fn date_text_wf(s: Seq<u8>) -> bool {
    &&& s.len() == 10
    &&& s[4] == 45
    &&& s[7] == 45
    &&& is_ascii_digit(s[0])
    &&& is_ascii_digit(s[1])
    &&& is_ascii_digit(s[2])
    &&& is_ascii_digit(s[3])
    &&& is_ascii_digit(s[5])
    &&& is_ascii_digit(s[6])
    &&& is_ascii_digit(s[8])
    &&& is_ascii_digit(s[9])
}

/// The components spelled by a well-formed date text.
pub open spec fn date_text_year(s: Seq<u8>) -> int {
    digit_val(s[0]) * 1000 + digit_val(s[1]) * 100 + digit_val(s[2]) * 10 + digit_val(s[3])
}

pub open spec fn date_text_month(s: Seq<u8>) -> int {
    digit_val(s[5]) * 10 + digit_val(s[6])
}

pub open spec fn date_text_day(s: Seq<u8>) -> int {
    digit_val(s[8]) * 10 + digit_val(s[9])
}

/// What parsing date text yields: the spelled date when the text matches
/// the grammar and the components form a valid date, nothing otherwise.
pub open spec fn parse_date_spec(s: Seq<u8>) -> Option<Date> {
    if date_text_wf(s) && date_fields_valid(
        date_text_year(s),
        date_text_month(s),
        date_text_day(s),
    ) {
        Some(Date {
            year: date_text_year(s) as u16,
            month: date_text_month(s) as u8,
            day: date_text_day(s) as u8,
        })
    } else {
        None
    }
}

/// The fixed-width text form of a date: `YYYY-MM-DD`, zero-padded.
pub open spec fn date_text_of(d: Date) -> Seq<u8> {
    seq![
        (48 + d.year as int / 1000) as u8,
        (48 + (d.year as int / 100) % 10) as u8,
        (48 + (d.year as int / 10) % 10) as u8,
        (48 + d.year as int % 10) as u8,
        45u8,
        (48 + d.month as int / 10) as u8,
        (48 + d.month as int % 10) as u8,
        45u8,
        (48 + d.day as int / 10) as u8,
        (48 + d.day as int % 10) as u8,
    ]
}

impl Date {
    /// Strict parse of the full input as `YYYY-MM-DD`; rejects any other
    /// width, separator or character, and impossible component values.
    pub fn parse_all(s: &[u8]) -> (r: Option<Date>)
        ensures
            r == parse_date_spec(s@),
            r matches Some(d) ==> d.valid(),
    {
        if s.len() == 10 && s[4] == 45 && s[7] == 45
            && 48 <= s[0] && s[0] <= 57 && 48 <= s[1] && s[1] <= 57
            && 48 <= s[2] && s[2] <= 57 && 48 <= s[3] && s[3] <= 57
            && 48 <= s[5] && s[5] <= 57 && 48 <= s[6] && s[6] <= 57
            && 48 <= s[8] && s[8] <= 57 && 48 <= s[9] && s[9] <= 57
        {
            let year: u16 = (s[0] - 48) as u16 * 1000 + (s[1] - 48) as u16 * 100
                + (s[2] - 48) as u16 * 10 + (s[3] - 48) as u16;
            let month: u8 = (s[5] - 48) * 10 + (s[6] - 48);
            let day: u8 = (s[8] - 48) * 10 + (s[9] - 48);
            Date::new(year, month, day)
        } else {
            None
        }
    }

    /// Parse a date from the first ten bytes of a longer input, as the
    /// datetime parser consumes its date field.
    pub fn parse_prefix(s: &[u8]) -> (r: Option<Date>)
        requires
            s@.len() >= 10,
        ensures
            r == parse_date_spec(s@.subrange(0, 10)),
    {
        Date::parse_all(vstd::slice::slice_subrange(s, 0, 10))
    }

    /// The fixed-width text form `YYYY-MM-DD`.
    pub fn format_iso(self) -> (r: Vec<u8>)
        requires
            self.valid(),
        ensures
            r@ == date_text_of(self),
    {
        let mut out: Vec<u8> = Vec::new();
        out.push(48 + (self.year / 1000) as u8);
        out.push(48 + ((self.year / 100) % 10) as u8);
        out.push(48 + ((self.year / 10) % 10) as u8);
        out.push(48 + (self.year % 10) as u8);
        out.push(45);
        out.push(48 + self.month / 10);
        out.push(48 + self.month % 10);
        out.push(45);
        out.push(48 + self.day / 10);
        out.push(48 + self.day % 10);
        proof {
            assert(out@ =~= date_text_of(self));
        }
        out
    }

    /// ISO day of the week, Monday = 1 through Sunday = 7.
    pub fn day_of_week(self) -> (r: u8)
        requires
            self.valid(),
        ensures
            r == (ordinal_spec(self) + 6) % 7 + 1,
            1 <= r <= 7,
    {
        let o = self.ord();
        ((o + 6) % 7) as u8 + 1
    }

    /// A new date with the given components replaced and the rest kept,
    /// validated as in [`Date::new`].
    pub fn replace(
        self,
        year: Option<u16>,
        month: Option<u8>,
        day: Option<u8>,
    ) -> (r: Option<Date>)
        requires
            self.valid(),
        ensures
            ({
                let y = match year { Some(v) => v as int, None => self.year as int };
                let m = match month { Some(v) => v as int, None => self.month as int };
                let d = match day { Some(v) => v as int, None => self.day as int };
                &&& date_fields_valid(y, m, d)
                    ==> r == Some(Date { year: y as u16, month: m as u8, day: d as u8 })
                &&& !date_fields_valid(y, m, d) ==> r is None
            }),
            r matches Some(d) ==> d.valid(),
    {
        let y = match year {
            Some(v) => v,
            None => self.year,
        };
        let m = match month {
            Some(v) => v,
            None => self.month,
        };
        let d = match day {
            Some(v) => v,
            None => self.day,
        };
        Date::new(y, m, d)
    }
}

/// Formatting a valid date and parsing the text back is the identity.
pub proof fn lemma_date_text_round_trip(d: Date)
    requires
        d.valid(),
    ensures
        parse_date_spec(date_text_of(d)) == Some(d),
{
    let s = date_text_of(d);
    assert(date_text_year(s) == d.year);
    assert(date_text_month(s) == d.month);
    assert(date_text_day(s) == d.day);
}

/// The ordinal map is injective on valid dates: it has a two-sided inverse.
pub proof fn lemma_ordinal_injective(a: Date, b: Date)
    requires
        a.valid(),
        b.valid(),
        ordinal_spec(a) == ordinal_spec(b),
    ensures
        a == b,
{
    lemma_ordinal_order(a, b);
    lemma_ordinal_order(b, a);
}

} // verus!
