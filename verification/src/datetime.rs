//! Naive datetimes: a calendar date paired with a time of day, with no
//! timezone attached, and their calendar-aware and exact shifting.

use vstd::prelude::*;
use vstd::arithmetic::div_mod::lemma_fundamental_div_mod_converse;
use crate::date::{
    date_text_of, lemma_ordinal_range, max_date, min_date, ordinal_spec, parse_date_spec,
    shift_months_spec, Date, MAX_ORD, MIN_ORD,
};
use crate::time::{
    lemma_time_injective, parse_time_spec, time_text_of, total_nanos_spec, total_seconds_spec,
    Time,
};
use crate::delta::{CompositeDelta, MAX_EXACT_NANOS, NS_PER_DAY, S_PER_DAY};
use crate::Error;

verus! {

/// A wall-clock reading: date and time of day, no timezone. Total order is
/// lexicographic on (date, time), which coincides with the instant order.
#[derive(Debug, Clone, Copy, PartialEq, Eq, Structural)]
pub struct DateTime {
    pub date: Date,
    pub time: Time,
}

/// Nanoseconds of a datetime on the continuous timeline: the date's ordinal
/// times the length of a day, plus the time of day.
pub open spec fn instant_of_spec(dt: DateTime) -> int {
    ordinal_spec(dt.date) * NS_PER_DAY + total_nanos_spec(dt.time)
}

/// The timeline interval covered by valid datetimes, from 0001-01-01T00:00
/// to the last nanosecond of 9999-12-31.
pub open spec fn instant_in_range(n: int) -> bool {
    NS_PER_DAY <= n <= (MAX_ORD + 1) * NS_PER_DAY - 1
}

impl DateTime {
    /// The invariant of every datetime the library constructs.
    pub open spec fn valid(self) -> bool {
        self.date.valid() && self.time.valid()
    }

    /// Pair a date with a time.
    pub fn new(date: Date, time: Time) -> (r: DateTime)
        requires
            date.valid(),
            time.valid(),
        ensures
            r == (DateTime { date, time }),
            r.valid(),
    {
        DateTime { date, time }
    }

    /// The smallest representable datetime, 0001-01-01T00:00:00.
    pub fn min_value() -> (r: DateTime)
        ensures
            r.valid(),
            r.date == min_date(),
            total_nanos_spec(r.time) == 0,
            instant_of_spec(r) == NS_PER_DAY,
    {
        DateTime {
            date: Date { year: 1, month: 1, day: 1 },
            time: Time { hour: 0, minute: 0, second: 0, nanos: 0 },
        }
    }

    /// The largest representable datetime, 9999-12-31T23:59:59.999999999.
    pub fn max_value() -> (r: DateTime)
        ensures
            r.valid(),
            r.date == max_date(),
            instant_of_spec(r) == (MAX_ORD + 1) * NS_PER_DAY - 1,
    {
        DateTime {
            date: Date { year: 9999, month: 12, day: 31 },
            time: Time { hour: 23, minute: 59, second: 59, nanos: 999_999_999 },
        }
    }

    /// A new datetime with the date replaced and the time kept.
    pub fn with_date(self, date: Date) -> (r: DateTime)
        ensures
            r.date == date,
            r.time == self.time,
    {
        DateTime { date, time: self.time }
    }

    /// A new datetime with the time replaced and the date kept.
    pub fn with_time(self, time: Time) -> (r: DateTime)
        ensures
            r.date == self.date,
            r.time == time,
    {
        DateTime { date: self.date, time }
    }
}

/// Every valid datetime's instant lies in the representable interval, and
/// the instant splits back into ordinal and time of day by division.
pub proof fn lemma_instant_range(dt: DateTime)
    requires
        dt.valid(),
    ensures
        instant_in_range(instant_of_spec(dt)),
        instant_of_spec(dt) / NS_PER_DAY as int == ordinal_spec(dt.date),
        instant_of_spec(dt) % (NS_PER_DAY as int) == total_nanos_spec(dt.time),
{
    lemma_ordinal_range(dt.date);
    lemma_fundamental_div_mod_converse(
        instant_of_spec(dt),
        NS_PER_DAY as int,
        ordinal_spec(dt.date),
        total_nanos_spec(dt.time),
    );
}

/// The instant map is injective on valid datetimes.
pub proof fn lemma_instant_injective(a: DateTime, b: DateTime)
    requires
        a.valid(),
        b.valid(),
        instant_of_spec(a) == instant_of_spec(b),
    ensures
        a == b,
{
    lemma_instant_range(a);
    lemma_instant_range(b);
    crate::date::lemma_ordinal_injective(a.date, b.date);
    lemma_time_injective(a.time, b.time);
}

impl DateTime {
    /// Calendar-fashion shift of the date part, months before days, the
    /// time of day unchanged.
    pub fn shift_date(self, months: i32, days: i32) -> (r: Option<DateTime>)
        requires
            self.valid(),
        ensures
            match shift_months_spec(self.date, months as int) {
                Some(m) => {
                    &&& (r matches Some(e) ==> e.valid() && e.time == self.time
                        && ordinal_spec(e.date) == ordinal_spec(m) + days)
                    &&& (r is None ==> !(MIN_ORD <= ordinal_spec(m) + days <= MAX_ORD))
                },
                None => r is None,
            },
            r matches Some(e) ==> e.valid(),
    {
        match self.date.shift(0, months, days) {
            Some(date) => Some(DateTime { date, time: self.time }),
            None => None,
        }
    }

    /// Exact shift by a signed number of nanoseconds, carrying day overflow
    /// and underflow into the date; `None` exactly when the result leaves
    /// the representable timeline.
    pub fn shift_nanos(self, nanos: i128) -> (r: Option<DateTime>)
        requires
            self.valid(),
            -MAX_EXACT_NANOS <= nanos <= MAX_EXACT_NANOS,
        ensures
            instant_in_range(instant_of_spec(self) + nanos)
                ==> (r matches Some(e) && e.valid()
                    && instant_of_spec(e) == instant_of_spec(self) + nanos),
            !instant_in_range(instant_of_spec(self) + nanos) ==> r is None,
            r matches Some(e) ==> e.valid(),
    {
        proof {
            lemma_instant_range(self);
        }
        let total_i: i128 = self.date.ord() as i128 * NS_PER_DAY as i128
            + self.time.total_nanos() as i128 + nanos;
        if total_i < NS_PER_DAY as i128
            || total_i > (MAX_ORD as i128 + 1) * NS_PER_DAY as i128 - 1 {
            return None;
        }
        let total: u128 = total_i as u128;
        let new_ord: u32 = (total / NS_PER_DAY as u128) as u32;
        let new_tn: u64 = (total % NS_PER_DAY as u128) as u64;
        proof {
            assert(total == instant_of_spec(self) + nanos);
            assert(NS_PER_DAY <= total < (MAX_ORD as int + 1) * NS_PER_DAY);
            assert(NS_PER_DAY as int * (total as int / NS_PER_DAY as int)
                + total as int % (NS_PER_DAY as int) == total as int);
            assert(1 <= new_ord <= MAX_ORD);
        }
        Some(DateTime {
            date: Date::from_ord_unchecked(new_ord),
            time: Time::from_total_nanos(new_tn),
        })
    }

    /// Shift by a composite delta: the calendar part first (months, then
    /// days), then the exact part.
    pub fn shift(self, delta: CompositeDelta) -> (r: Option<DateTime>)
        requires
            self.valid(),
            delta.exact.valid(),
        ensures
            match shift_months_spec(self.date, delta.calendar.months as int) {
                Some(m) => {
                    if MIN_ORD <= ordinal_spec(m) + delta.calendar.days <= MAX_ORD {
                        let mid = (ordinal_spec(m) + delta.calendar.days) * NS_PER_DAY
                            + total_nanos_spec(self.time);
                        &&& (r matches Some(e) ==> e.valid()
                            && instant_of_spec(e) == mid + delta.exact.nanos)
                        &&& (r is None ==> !instant_in_range(mid + delta.exact.nanos))
                    } else {
                        r is None
                    }
                },
                None => r is None,
            },
            r matches Some(e) ==> e.valid(),
    {
        match self.shift_date(delta.calendar.months, delta.calendar.days) {
            Some(mid) => mid.shift_nanos(delta.exact.nanos),
            None => None,
        }
    }

    /// Fast path for shifts of less than two days: the day delta is one of
    /// -2..=2 and the date moves by increments, not through a general
    /// calendar shift. The caller guarantees the result stays in range.
    pub fn small_shift_unchecked(self, secs: i32) -> (r: DateTime)
        requires
            self.valid(),
            -2 * S_PER_DAY < secs < 2 * S_PER_DAY,
            instant_in_range(instant_of_spec(self) + secs * 1_000_000_000),
        ensures
            r.valid(),
            instant_of_spec(r) == instant_of_spec(self) + secs * 1_000_000_000,
            r.time.nanos == self.time.nanos,
            secs == 0 ==> r == self,
    {
        proof {
            lemma_instant_range(self);
            assert(ordinal_spec(max_date()) == MAX_ORD);
            assert(ordinal_spec(min_date()) == MIN_ORD);
        }
        let day_seconds: i32 = self.time.total_seconds() as i32 + secs;
        let (date, time): (Date, Time) = if day_seconds < -(S_PER_DAY as i32) {
            (self.date.decrement().decrement(),
                self.time.set_seconds((day_seconds + 2 * S_PER_DAY as i32) as u32))
        } else if day_seconds < 0 {
            (self.date.decrement(),
                self.time.set_seconds((day_seconds + S_PER_DAY as i32) as u32))
        } else if day_seconds < S_PER_DAY as i32 {
            (self.date, self.time.set_seconds(day_seconds as u32))
        } else if day_seconds < 2 * S_PER_DAY as i32 {
            (self.date.increment(),
                self.time.set_seconds((day_seconds - S_PER_DAY as i32) as u32))
        } else {
            (self.date.increment().increment(),
                self.time.set_seconds((day_seconds - 2 * S_PER_DAY as i32) as u32))
        };
        let r = DateTime { date, time };
        proof {
            if secs == 0 {
                lemma_instant_injective(r, self);
            }
        }
        r
    }
}

/// A byte the combined text form accepts between date and time:
/// `T`, `t`, space or underscore.
pub open spec fn is_datetime_separator(b: u8) -> bool {
    b == 84 || b == 116 || b == 32 || b == 95
}

/// What parsing the date and time fields of a combined text yields: the
/// pair when both fixed-width fields parse, nothing otherwise. The
/// separator byte at position 10 is the caller's to check.
pub open spec fn parse_date_and_time_spec(s: Seq<u8>) -> Option<(Date, Time)> {
    match (parse_date_spec(s.subrange(0, 10)), parse_time_spec(s.skip(11))) {
        (Some(d), Some(t)) => Some((d, t)),
        _ => None,
    }
}

/// What parsing a whole combined datetime text yields: at least 19 bytes,
/// an accepted separator at position 10, and both fields well-formed.
pub open spec fn parse_datetime_spec(s: Seq<u8>) -> Option<DateTime> {
    if s.len() >= 19 && is_datetime_separator(s[10]) {
        match parse_date_and_time_spec(s) {
            Some((d, t)) => Some(DateTime { date: d, time: t }),
            None => None,
        }
    } else {
        None
    }
}

/// Parse the date field (bytes 0..10) and the time field (bytes 11..) of a
/// combined datetime text; the separator byte is not inspected here.
pub fn parse_date_and_time(s: &[u8]) -> (r: Option<(Date, Time)>)
    requires
        s@.len() >= 19,
    ensures
        r == parse_date_and_time_spec(s@),
        r matches Some(p) ==> p.0.valid() && p.1.valid(),
{
    let date_part = vstd::slice::slice_subrange(s, 0, 10);
    let time_part = vstd::slice::slice_subrange(s, 11, s.len());
    proof {
        assert(time_part@ =~= s@.skip(11));
    }
    match (Date::parse_all(date_part), Time::parse_all(time_part)) {
        (Some(d), Some(t)) => Some((d, t)),
        _ => None,
    }
}

/// Formatting a valid datetime and parsing the text back is the identity.
pub proof fn lemma_datetime_text_round_trip(dt: DateTime)
    requires
        dt.valid(),
    ensures
        parse_datetime_spec(date_text_of(dt.date) + seq![84u8] + time_text_of(dt.time))
            == Some(dt),
{
    let s = date_text_of(dt.date) + seq![84u8] + time_text_of(dt.time);
    assert(s.subrange(0, 10) =~= date_text_of(dt.date));
    assert(s.skip(11) =~= time_text_of(dt.time));
    crate::date::lemma_date_text_round_trip(dt.date);
    crate::time::lemma_time_text_round_trip(dt.time);
}

impl DateTime {
    /// Strict parse of the combined fixed-width form: `YYYY-MM-DD`, one
    /// separator byte (`T`, `t`, space or underscore), `HH:MM:SS` with an
    /// optional fraction.
    pub fn parse_common_iso(s: &[u8]) -> (r: Result<DateTime, Error>)
        ensures
            match parse_datetime_spec(s@) {
                Some(dt) => r == Ok::<DateTime, Error>(dt) && dt.valid(),
                None => r == Err::<DateTime, Error>(Error::ParseError),
            },
    {
        if s.len() < 19 {
            return Err(Error::ParseError);
        }
        let sep = s[10];
        if !(sep == 84 || sep == 116 || sep == 32 || sep == 95) {
            return Err(Error::ParseError);
        }
        match parse_date_and_time(s) {
            Some((date, time)) => Ok(DateTime { date, time }),
            None => Err(Error::ParseError),
        }
    }

    /// The combined fixed-width text form, with `T` as the separator and
    /// the fraction trimmed as in the time form.
    pub fn format_common_iso(self) -> (r: Vec<u8>)
        requires
            self.valid(),
        ensures
            r@ == date_text_of(self.date) + seq![84u8] + time_text_of(self.time),
    {
        let mut out = self.date.format_iso();
        out.push(84);
        let mut t = self.time.format_iso();
        let mut i: usize = 0;
        while i < t.len()
            invariant
                0 <= i <= t@.len(),
                t@ == time_text_of(self.time),
                out@ == date_text_of(self.date) + seq![84u8] + t@.take(i as int),
            decreases t@.len() - i,
        {
            let b = t[i];
            out.push(b);
            proof {
                assert(out@ =~= date_text_of(self.date) + seq![84u8]
                    + t@.take(i + 1));
            }
            i = i + 1;
        }
        proof {
            assert(t@.take(t@.len() as int) =~= t@);
        }
        out
    }

    /// A new datetime with the given components replaced and the rest
    /// kept, validated as a whole.
    pub fn replace(
        self,
        year: Option<u16>,
        month: Option<u8>,
        day: Option<u8>,
        hour: Option<u8>,
        minute: Option<u8>,
        second: Option<u8>,
        nanosecond: Option<u32>,
    ) -> (r: Option<DateTime>)
        requires
            self.valid(),
        ensures
            ({
                let y = match year { Some(v) => v, None => self.date.year };
                let mo = match month { Some(v) => v, None => self.date.month };
                let d = match day { Some(v) => v, None => self.date.day };
                let h = match hour { Some(v) => v, None => self.time.hour };
                let mi = match minute { Some(v) => v, None => self.time.minute };
                let sec = match second { Some(v) => v, None => self.time.second };
                let ns = match nanosecond { Some(v) => v, None => self.time.nanos };
                let ok = crate::date::date_fields_valid(y as int, mo as int, d as int)
                    && crate::time::time_fields_valid(h as int, mi as int, sec as int, ns as int);
                &&& ok ==> r == Some(DateTime {
                    date: Date { year: y, month: mo, day: d },
                    time: Time { hour: h, minute: mi, second: sec, nanos: ns },
                })
                &&& !ok ==> r is None
            }),
            r matches Some(e) ==> e.valid(),
    {
        let y = match year { Some(v) => v, None => self.date.year };
        let mo = match month { Some(v) => v, None => self.date.month };
        let d = match day { Some(v) => v, None => self.date.day };
        let h = match hour { Some(v) => v, None => self.time.hour };
        let mi = match minute { Some(v) => v, None => self.time.minute };
        let sec = match second { Some(v) => v, None => self.time.second };
        let ns = match nanosecond { Some(v) => v, None => self.time.nanos };
        match (Date::new(y, mo, d), Time::new(h, mi, sec, ns)) {
            (Some(date), Some(time)) => Some(DateTime { date, time }),
            _ => None,
        }
    }

    /// Strictly-less comparison in the lexicographic (date, time) order,
    /// which equals the order of instants on the timeline.
    pub fn lt(self, other: DateTime) -> (r: bool)
        requires
            self.valid(),
            other.valid(),
        ensures
            r == (instant_of_spec(self) < instant_of_spec(other)),
    {
        proof {
            crate::date::lemma_ordinal_order(self.date, other.date);
            lemma_ordinal_range(self.date);
            lemma_ordinal_range(other.date);
        }
        if self.date.lt(other.date) {
            true
        } else if other.date.lt(self.date) {
            false
        } else {
            proof {
                crate::date::lemma_ordinal_injective(self.date, other.date);
            }
            self.time.total_nanos() < other.time.total_nanos()
        }
    }
}

} // verus!
