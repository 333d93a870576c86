//! Sub-day clock values with nanosecond precision, their linearizations,
//! and the strict `HH:MM:SS[.fraction]` text form.

use vstd::prelude::*;
use crate::date::{is_ascii_digit, digit_val};
use crate::delta::{NS_PER_DAY, NS_PER_S, S_PER_DAY};

verus! {

/// A time of day on a clock without leap seconds.
#[derive(Debug, Clone, Copy, PartialEq, Eq, Structural)]
pub struct Time {
    pub hour: u8,
    pub minute: u8,
    pub second: u8,
    pub nanos: u32,
}

/// Field-wise validity of a time of day.
pub open spec fn time_fields_valid(hour: int, minute: int, second: int, nanos: int) -> bool {
    &&& 0 <= hour < 24
    &&& 0 <= minute < 60
    &&& 0 <= second < 60
    &&& 0 <= nanos < 1_000_000_000
}

/// Seconds since midnight, ignoring the sub-second part.
pub open spec fn total_seconds_spec(t: Time) -> int {
    t.hour * 3600 + t.minute * 60 + t.second
}

/// Nanoseconds since midnight: the canonical linearization of a time of day.
pub open spec fn total_nanos_spec(t: Time) -> int {
    total_seconds_spec(t) * 1_000_000_000 + t.nanos
}

impl Time {
    /// The invariant of every time the library constructs.
    pub open spec fn valid(self) -> bool {
        time_fields_valid(self.hour as int, self.minute as int, self.second as int,
            self.nanos as int)
    }

    /// The midnight value.
    pub fn midnight() -> (r: Time)
        ensures
            r == (Time { hour: 0, minute: 0, second: 0, nanos: 0 }),
            r.valid(),
    {
        Time { hour: 0, minute: 0, second: 0, nanos: 0 }
    }

    /// Validated constructor: `Some` exactly when all fields are in range.
    pub fn new(hour: u8, minute: u8, second: u8, nanos: u32) -> (r: Option<Time>)
        ensures
            time_fields_valid(hour as int, minute as int, second as int, nanos as int)
                ==> r == Some(Time { hour, minute, second, nanos }),
            !time_fields_valid(hour as int, minute as int, second as int, nanos as int)
                ==> r is None,
            r matches Some(t) ==> t.valid(),
    {
        if hour < 24 && minute < 60 && second < 60 && nanos < 1_000_000_000 {
            Some(Time { hour, minute, second, nanos })
        } else {
            None
        }
    }

    /// Constructor from wide host integers, as handed over by an embedding.
    pub fn from_longs(hour: i64, minute: i64, second: i64, nanos: i64) -> (r: Option<Time>)
        ensures
            time_fields_valid(hour as int, minute as int, second as int, nanos as int)
                ==> (r matches Some(t) && t.hour == hour && t.minute == minute
                    && t.second == second && t.nanos == nanos),
            !time_fields_valid(hour as int, minute as int, second as int, nanos as int)
                ==> r is None,
            r matches Some(t) ==> t.valid(),
    {
        if 0 <= hour && hour < 24 && 0 <= minute && minute < 60 && 0 <= second && second < 60
            && 0 <= nanos && nanos < 1_000_000_000 {
            Some(Time {
                hour: hour as u8,
                minute: minute as u8,
                second: second as u8,
                nanos: nanos as u32,
            })
        } else {
            None
        }
    }

    /// Seconds since midnight.
    pub fn total_seconds(self) -> (r: u32)
        requires
            self.valid(),
        ensures
            r == total_seconds_spec(self),
            r < S_PER_DAY,
    {
        self.hour as u32 * 3600 + self.minute as u32 * 60 + self.second as u32
    }

    /// Nanoseconds since midnight.
    pub fn total_nanos(self) -> (r: u64)
        requires
            self.valid(),
        ensures
            r == total_nanos_spec(self),
            r < NS_PER_DAY,
    {
        self.total_seconds() as u64 * NS_PER_S as u64 + self.nanos as u64
    }

    /// Inverse of [`Time::total_nanos`]: the unique valid time with the
    /// given linearization.
    pub fn from_total_nanos(n: u64) -> (r: Time)
        requires
            n < NS_PER_DAY,
        ensures
            r.valid(),
            total_nanos_spec(r) == n,
    {
        proof {
            vstd::arithmetic::div_mod::lemma_div_is_ordered(n as int, NS_PER_DAY - 1,
                1_000_000_000);
        }
        let secs: u32 = (n / 1_000_000_000u64) as u32;
        let ns: u32 = (n % 1_000_000_000u64) as u32;
        let hour: u8 = (secs / 3600) as u8;
        let rem: u32 = secs % 3600;
        Time { hour, minute: (rem / 60) as u8, second: (rem % 60) as u8, nanos: ns }
    }

    /// The same sub-second part at a new whole-second position: the
    /// constructor the day-crossing shift logic uses internally.
    pub fn set_seconds(self, secs: u32) -> (r: Time)
        requires
            secs < S_PER_DAY,
            self.nanos < 1_000_000_000,
        ensures
            r.valid(),
            total_seconds_spec(r) == secs,
            r.nanos == self.nanos,
            self.valid() ==> total_nanos_spec(r) == secs * 1_000_000_000 + self.nanos,
    {
        let hour: u8 = (secs / 3600) as u8;
        let rem: u32 = secs % 3600;
        Time { hour, minute: (rem / 60) as u8, second: (rem % 60) as u8, nanos: self.nanos }
    }
}

/// Value in nanoseconds of the fraction digits `s[i..]`, the first digit
/// weighted by `scale` and each later one a tenth of that.
pub open spec fn frac_value(s: Seq<u8>, i: int, scale: int) -> int
    decreases s.len() - i,
{
    if i < 0 || i >= s.len() {
        0
    } else {
        digit_val(s[i]) * scale + frac_value(s, i + 1, scale / 10)
    }
}

/// The strict fixed-width time grammar: `HH:MM:SS`, optionally followed by
/// a dot and one to nine fraction digits; a dot with no digit is rejected.
pub open spec fn time_text_wf(s: Seq<u8>) -> bool {
    &&& (s.len() == 8 || (10 <= s.len() <= 18 && s[8] == 46))
    &&& is_ascii_digit(s[0])
    &&& is_ascii_digit(s[1])
    &&& s[2] == 58
    &&& is_ascii_digit(s[3])
    &&& is_ascii_digit(s[4])
    &&& s[5] == 58
    &&& is_ascii_digit(s[6])
    &&& is_ascii_digit(s[7])
    &&& forall|i: int| 9 <= i < s.len() ==> is_ascii_digit(#[trigger] s[i])
}

/// The components spelled by a well-formed time text.
pub open spec fn time_text_hour(s: Seq<u8>) -> int {
    digit_val(s[0]) * 10 + digit_val(s[1])
}

pub open spec fn time_text_minute(s: Seq<u8>) -> int {
    digit_val(s[3]) * 10 + digit_val(s[4])
}

pub open spec fn time_text_second(s: Seq<u8>) -> int {
    digit_val(s[6]) * 10 + digit_val(s[7])
}

pub open spec fn time_text_nanos(s: Seq<u8>) -> int {
    if s.len() == 8 {
        0
    } else {
        frac_value(s, 9, 100_000_000)
    }
}

/// What parsing time text yields: the spelled time when the text matches
/// the grammar and the clock fields are in range, nothing otherwise.
pub open spec fn parse_time_spec(s: Seq<u8>) -> Option<Time> {
    if time_text_wf(s) && time_text_hour(s) < 24 && time_text_minute(s) < 60
        && time_text_second(s) < 60 {
        Some(Time {
            hour: time_text_hour(s) as u8,
            minute: time_text_minute(s) as u8,
            second: time_text_second(s) as u8,
            nanos: time_text_nanos(s) as u32,
        })
    } else {
        None
    }
}

impl Time {
    /// Strict parse of the full input as `HH:MM:SS[.fraction]`. Trailing
    /// zeros are never stripped on input: `"02:09:09."` and a ten-digit
    /// fraction both fail.
    pub fn parse_all(s: &[u8]) -> (r: Option<Time>)
        ensures
            r == parse_time_spec(s@),
            r matches Some(t) ==> t.valid(),
    {
        let len = s.len();
        if !(len == 8 || (10 <= len && len <= 18 && s[8] == 46)) {
            return None;
        }
        if !(48 <= s[0] && s[0] <= 57 && 48 <= s[1] && s[1] <= 57 && s[2] == 58
            && 48 <= s[3] && s[3] <= 57 && 48 <= s[4] && s[4] <= 57 && s[5] == 58
            && 48 <= s[6] && s[6] <= 57 && 48 <= s[7] && s[7] <= 57)
        {
            return None;
        }
        let hour: u8 = (s[0] - 48) * 10 + (s[1] - 48);
        let minute: u8 = (s[3] - 48) * 10 + (s[4] - 48);
        let second: u8 = (s[6] - 48) * 10 + (s[7] - 48);
        if !(hour < 24 && minute < 60 && second < 60) {
            return None;
        }
        if len == 8 {
            return Some(Time { hour, minute, second, nanos: 0 });
        }
        let mut nanos: u32 = 0;
        let mut scale: u32 = 100_000_000;
        let mut i: usize = 9;
        while i < len
            invariant
                9 <= i <= len,
                len == s.len(),
                len <= 18,
                forall|j: int| 9 <= j < i ==> is_ascii_digit(#[trigger] s@[j]),
                nanos < 1_000_000_000,
                nanos + 10 * scale <= 1_000_000_000,
                nanos + frac_value(s@, i as int, scale as int)
                    == frac_value(s@, 9, 100_000_000),
            decreases len - i,
        {
            if s[i] < 48 || s[i] > 57 {
                return None;
            }
            proof {
                vstd::arithmetic::mul::lemma_mul_inequality(
                    s@[i as int] - 48, 9, scale as int);
            }
            nanos = nanos + (s[i] - 48) as u32 * scale;
            scale = scale / 10;
            i = i + 1;
        }
        Some(Time { hour, minute, second, nanos })
    }
}

/// The nine zero-padded digit bytes of a sub-second count.
pub open spec fn nine_digits(ns: int) -> Seq<u8> {
    seq![
        (48 + (ns / 100_000_000) % 10) as u8,
        (48 + (ns / 10_000_000) % 10) as u8,
        (48 + (ns / 1_000_000) % 10) as u8,
        (48 + (ns / 100_000) % 10) as u8,
        (48 + (ns / 10_000) % 10) as u8,
        (48 + (ns / 1_000) % 10) as u8,
        (48 + (ns / 100) % 10) as u8,
        (48 + (ns / 10) % 10) as u8,
        (48 + ns % 10) as u8,
    ]
}

/// Drop every trailing ASCII zero.
pub open spec fn strip_zeros(s: Seq<u8>) -> Seq<u8>
    decreases s.len(),
{
    if s.len() > 0 && s[s.len() - 1] == 48 {
        strip_zeros(s.drop_last())
    } else {
        s
    }
}

/// The first eight bytes of a time's text form: `HH:MM:SS`.
pub open spec fn time_text_base(t: Time) -> Seq<u8> {
    seq![
        (48 + t.hour as int / 10) as u8,
        (48 + t.hour as int % 10) as u8,
        58u8,
        (48 + t.minute as int / 10) as u8,
        (48 + t.minute as int % 10) as u8,
        58u8,
        (48 + t.second as int / 10) as u8,
        (48 + t.second as int % 10) as u8,
    ]
}

/// The fixed text form of a time: `HH:MM:SS`, and when the sub-second part
/// is non-zero a dot and the nine fraction digits with trailing zeros
/// trimmed.
pub open spec fn time_text_of(t: Time) -> Seq<u8> {
    if t.nanos == 0 {
        time_text_base(t)
    } else {
        time_text_base(t) + seq![46u8] + strip_zeros(nine_digits(t.nanos as int))
    }
}

/// A sub-second count is recovered from its nine digit bytes; in
/// particular nine zero digits mean a zero count.
proof fn lemma_nine_digits_value(ns: int)
    requires
        0 <= ns < 1_000_000_000,
    ensures
        ns == digit_val(nine_digits(ns)[0]) * 100_000_000
            + digit_val(nine_digits(ns)[1]) * 10_000_000
            + digit_val(nine_digits(ns)[2]) * 1_000_000
            + digit_val(nine_digits(ns)[3]) * 100_000
            + digit_val(nine_digits(ns)[4]) * 10_000
            + digit_val(nine_digits(ns)[5]) * 1_000
            + digit_val(nine_digits(ns)[6]) * 100
            + digit_val(nine_digits(ns)[7]) * 10
            + digit_val(nine_digits(ns)[8]),
{
    vstd::arithmetic::div_mod::lemma_div_denominator(ns, 10, 10);
    vstd::arithmetic::div_mod::lemma_div_denominator(ns, 100, 10);
    vstd::arithmetic::div_mod::lemma_div_denominator(ns, 1_000, 10);
    vstd::arithmetic::div_mod::lemma_div_denominator(ns, 10_000, 10);
    vstd::arithmetic::div_mod::lemma_div_denominator(ns, 100_000, 10);
    vstd::arithmetic::div_mod::lemma_div_denominator(ns, 1_000_000, 10);
    vstd::arithmetic::div_mod::lemma_div_denominator(ns, 10_000_000, 10);
    assert(ns % 10 == ns - 10 * (ns / 10));
    assert((ns / 10) % 10 == ns / 10 - 10 * (ns / 100));
    assert((ns / 100) % 10 == ns / 100 - 10 * (ns / 1_000));
    assert((ns / 1_000) % 10 == ns / 1_000 - 10 * (ns / 10_000));
    assert((ns / 10_000) % 10 == ns / 10_000 - 10 * (ns / 100_000));
    assert((ns / 100_000) % 10 == ns / 100_000 - 10 * (ns / 1_000_000));
    assert((ns / 1_000_000) % 10 == ns / 1_000_000 - 10 * (ns / 10_000_000));
    assert((ns / 10_000_000) % 10 == ns / 10_000_000 - 10 * (ns / 100_000_000));
    assert(ns / 100_000_000 % 10 == ns / 100_000_000);
}

/// Stripping to nothing means every byte was an ASCII zero.
proof fn lemma_strip_zeros_empty(s: Seq<u8>)
    requires
        strip_zeros(s).len() == 0,
    ensures
        forall|i: int| 0 <= i < s.len() ==> s[i] == 48,
    decreases s.len(),
{
    if s.len() > 0 && s[s.len() - 1] == 48 {
        lemma_strip_zeros_empty(s.drop_last());
        assert forall|i: int| 0 <= i < s.len() implies s[i] == 48 by {
            if i < s.len() - 1 {
                assert(s.drop_last()[i] == 48);
                assert(s[i] == s.drop_last()[i]);
            }
        }
    }
}

impl Time {
    /// The fixed-width text form `HH:MM:SS[.fraction]`, trailing zeros of
    /// the fraction trimmed, the fraction absent when it would be zero.
    pub fn format_iso(self) -> (r: Vec<u8>)
        requires
            self.valid(),
        ensures
            r@ == time_text_of(self),
    {
        let mut out: Vec<u8> = Vec::new();
        out.push(48 + self.hour / 10);
        out.push(48 + self.hour % 10);
        out.push(58);
        out.push(48 + self.minute / 10);
        out.push(48 + self.minute % 10);
        out.push(58);
        out.push(48 + self.second / 10);
        out.push(48 + self.second % 10);
        if self.nanos == 0 {
            proof {
                assert(out@ =~= time_text_of(self));
            }
            return out;
        }
        let ghost nine = nine_digits(self.nanos as int);
        out.push(46);
        out.push(48 + ((self.nanos / 100_000_000) % 10) as u8);
        out.push(48 + ((self.nanos / 10_000_000) % 10) as u8);
        out.push(48 + ((self.nanos / 1_000_000) % 10) as u8);
        out.push(48 + ((self.nanos / 100_000) % 10) as u8);
        out.push(48 + ((self.nanos / 10_000) % 10) as u8);
        out.push(48 + ((self.nanos / 1_000) % 10) as u8);
        out.push(48 + ((self.nanos / 100) % 10) as u8);
        out.push(48 + ((self.nanos / 10) % 10) as u8);
        out.push(48 + (self.nanos % 10) as u8);
        proof {
            assert(out@ =~= time_text_base(self) + seq![46u8] + nine.take(9));
            assert(nine.take(9) =~= nine);
        }
        while out.len() > 10 && out[out.len() - 1] == 48
            invariant
                nine == nine_digits(self.nanos as int),
                self.nanos != 0,
                self.valid(),
                10 <= out@.len() <= 18,
                out@ == time_text_base(self) + seq![46u8]
                    + nine.take(out@.len() - 9),
                strip_zeros(nine.take(out@.len() - 9)) == strip_zeros(nine),
            decreases out@.len(),
        {
            let ghost j = out@.len() - 9;
            proof {
                assert(2 <= j <= 9);
                assert(nine.len() == 9);
                assert(nine.take(j as int)[j - 1] == out@[out@.len() - 1]);
                assert(nine.take(j as int).drop_last().len() == j - 1);
                assert forall|i: int| 0 <= i < j - 1 implies
                    #[trigger] nine.take(j as int).drop_last()[i] == nine[i] by {
                    assert(nine.take(j as int).drop_last()[i] == nine.take(j as int)[i]);
                    assert(nine.take(j as int)[i] == nine[i]);
                }
                assert(nine.take(j as int).drop_last() =~= nine.take(j - 1));
                assert(out@.drop_last() =~= time_text_base(self) + seq![46u8]
                    + nine.take(j - 1));
            }
            let _ = out.pop();
        }
        proof {
            let j = out@.len() - 9;
            if out@.len() == 10 && out@[out@.len() - 1] == 48 {
                assert(nine.take(1)[0] == out@[9]);
                assert(nine.take(1).drop_last() =~= nine.take(0));
                assert(nine.take(0) =~= Seq::<u8>::empty());
                assert(strip_zeros(Seq::<u8>::empty()).len() == 0);
                assert(strip_zeros(nine.take(1)) == strip_zeros(nine.take(1).drop_last()));
                assert(strip_zeros(nine).len() == 0);
                lemma_strip_zeros_empty(nine);
                lemma_nine_digits_value(self.nanos as int);
                assert(nine[0] == 48 && nine[1] == 48 && nine[2] == 48 && nine[3] == 48
                    && nine[4] == 48 && nine[5] == 48 && nine[6] == 48 && nine[7] == 48
                    && nine[8] == 48);
                assert(false);
            }
            assert(strip_zeros(nine.take(j)) == nine.take(j));
            assert(out@ =~= time_text_of(self));
        }
        out
    }
}

/// Dropping a trailing zero digit does not change a fraction's value.
proof fn lemma_frac_value_drop_zero(s: Seq<u8>, i: int, scale: int)
    requires
        s.len() > 0,
        s[s.len() - 1] == 48,
    ensures
        frac_value(s, i, scale) == frac_value(s.drop_last(), i, scale),
    decreases s.len() - i,
{
    if 0 <= i < s.len() {
        lemma_frac_value_drop_zero(s, i + 1, scale / 10);
        if i < s.len() - 1 {
            assert(s.drop_last()[i] == s[i]);
            assert(frac_value(s, i, scale)
                == digit_val(s[i]) * scale + frac_value(s, i + 1, scale / 10));
            assert(frac_value(s.drop_last(), i, scale)
                == digit_val(s.drop_last()[i]) * scale
                    + frac_value(s.drop_last(), i + 1, scale / 10));
        } else {
            assert(digit_val(s[i]) == 0);
            assert(frac_value(s, i + 1, scale / 10) == 0);
            assert(frac_value(s, i, scale) == 0);
            assert(frac_value(s.drop_last(), i, scale) == 0);
        }
    }
}

/// Trimming every trailing zero does not change a fraction's value.
proof fn lemma_frac_value_strip_zeros(s: Seq<u8>, i: int, scale: int)
    ensures
        frac_value(strip_zeros(s), i, scale) == frac_value(s, i, scale),
    decreases s.len(),
{
    if s.len() > 0 && s[s.len() - 1] == 48 {
        lemma_frac_value_drop_zero(s, i, scale);
        lemma_frac_value_strip_zeros(s.drop_last(), i, scale);
    }
}

/// A fraction's value only depends on the bytes from its start onward.
proof fn lemma_frac_value_offset(t: Seq<u8>, u: Seq<u8>, off: int, i: int, scale: int)
    requires
        0 <= off <= i,
        t.len() == off + u.len(),
        forall|j: int| off <= j < t.len() ==> t[j] == u[j - off],
    ensures
        frac_value(t, i, scale) == frac_value(u, i - off, scale),
    decreases t.len() - i,
{
    if i < t.len() {
        lemma_frac_value_offset(t, u, off, i + 1, scale / 10);
    }
}

/// The nine padded digits of a sub-second count spell that count back when
/// read as a fraction.
proof fn lemma_frac_value_nine(ns: int)
    requires
        0 <= ns < 1_000_000_000,
    ensures
        frac_value(nine_digits(ns), 0, 100_000_000) == ns,
{
    let s = nine_digits(ns);
    lemma_nine_digits_value(ns);
    assert(frac_value(s, 9, 0) == 0);
    assert(frac_value(s, 8, 1) == digit_val(s[8]) + frac_value(s, 9, 0));
    assert(frac_value(s, 7, 10) == digit_val(s[7]) * 10 + frac_value(s, 8, 1));
    assert(frac_value(s, 6, 100) == digit_val(s[6]) * 100 + frac_value(s, 7, 10));
    assert(frac_value(s, 5, 1_000) == digit_val(s[5]) * 1_000 + frac_value(s, 6, 100));
    assert(frac_value(s, 4, 10_000) == digit_val(s[4]) * 10_000 + frac_value(s, 5, 1_000));
    assert(frac_value(s, 3, 100_000) == digit_val(s[3]) * 100_000 + frac_value(s, 4, 10_000));
    assert(frac_value(s, 2, 1_000_000) == digit_val(s[2]) * 1_000_000
        + frac_value(s, 3, 100_000));
    assert(frac_value(s, 1, 10_000_000) == digit_val(s[1]) * 10_000_000
        + frac_value(s, 2, 1_000_000));
    assert(frac_value(s, 0, 100_000_000) == digit_val(s[0]) * 100_000_000
        + frac_value(s, 1, 10_000_000));
}

/// Trimming keeps a sequence of digits a (no longer) sequence of digits.
proof fn lemma_strip_zeros_digits(s: Seq<u8>)
    requires
        forall|i: int| 0 <= i < s.len() ==> is_ascii_digit(#[trigger] s[i]),
    ensures
        strip_zeros(s).len() <= s.len(),
        forall|i: int| 0 <= i < strip_zeros(s).len()
            ==> is_ascii_digit(#[trigger] strip_zeros(s)[i]),
    decreases s.len(),
{
    if s.len() > 0 && s[s.len() - 1] == 48 {
        assert(forall|i: int| 0 <= i < s.len() - 1
            ==> is_ascii_digit(#[trigger] s.drop_last()[i]));
        lemma_strip_zeros_digits(s.drop_last());
    }
}

/// Formatting a valid time and parsing the text back is the identity:
/// trimming trailing fraction zeros loses nothing.
pub proof fn lemma_time_text_round_trip(t: Time)
    requires
        t.valid(),
    ensures
        parse_time_spec(time_text_of(t)) == Some(t),
{
    let s = time_text_of(t);
    assert(time_text_hour(s) == t.hour);
    assert(time_text_minute(s) == t.minute);
    assert(time_text_second(s) == t.second);
    if t.nanos == 0 {
        assert(s.len() == 8);
    } else {
        let ns = t.nanos as int;
        let nine = nine_digits(ns);
        let frac = strip_zeros(nine);
        assert(forall|i: int| 0 <= i < nine.len() ==> is_ascii_digit(#[trigger] nine[i]));
        lemma_strip_zeros_digits(nine);
        if frac.len() == 0 {
            lemma_strip_zeros_empty(nine);
            lemma_nine_digits_value(ns);
            assert(false);
        }
        assert(10 <= s.len() <= 18);
        assert(s[8] == 46);
        assert(forall|i: int| 9 <= i < s.len() ==> is_ascii_digit(#[trigger] s[i]));
        lemma_frac_value_offset(s, frac, 9, 9, 100_000_000);
        lemma_frac_value_strip_zeros(nine, 0, 100_000_000);
        lemma_frac_value_nine(ns);
        assert(time_text_nanos(s) == ns);
    }
}

/// The linearization is injective on valid times: equal nanosecond counts
/// mean equal fields.
pub proof fn lemma_time_injective(a: Time, b: Time)
    requires
        a.valid(),
        b.valid(),
        total_nanos_spec(a) == total_nanos_spec(b),
    ensures
        a == b,
{
    vstd::arithmetic::div_mod::lemma_fundamental_div_mod_converse(
        total_nanos_spec(a), 1_000_000_000, total_seconds_spec(a), a.nanos as int);
    vstd::arithmetic::div_mod::lemma_fundamental_div_mod_converse(
        total_nanos_spec(b), 1_000_000_000, total_seconds_spec(b), b.nanos as int);
    vstd::arithmetic::div_mod::lemma_fundamental_div_mod_converse(
        total_seconds_spec(a), 3600, a.hour as int, a.minute as int * 60 + a.second as int);
    vstd::arithmetic::div_mod::lemma_fundamental_div_mod_converse(
        total_seconds_spec(b), 3600, b.hour as int, b.minute as int * 60 + b.second as int);
    vstd::arithmetic::div_mod::lemma_fundamental_div_mod_converse(
        a.minute as int * 60 + a.second as int, 60, a.minute as int, a.second as int);
    vstd::arithmetic::div_mod::lemma_fundamental_div_mod_converse(
        b.minute as int * 60 + b.second as int, 60, b.minute as int, b.second as int);
}

} // verus!
