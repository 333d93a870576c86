//! Rounding of times of day and datetimes to a nanosecond increment that
//! evenly divides one day, with the day overflow signalled to the caller.

use vstd::prelude::*;
use vstd::arithmetic::div_mod::lemma_fundamental_div_mod_converse;
use vstd::arithmetic::mul::lemma_mul_inequality;
use crate::date::{max_date, ordinal_spec, MAX_ORD};
use crate::datetime::{instant_of_spec, DateTime};
use crate::delta::NS_PER_DAY;
use crate::time::{total_nanos_spec, Time};
use crate::Error;

verus! {

/// The rounding rule applied to the nanosecond position within the day.
#[derive(Debug, Clone, Copy, PartialEq, Eq, Structural)]
pub enum RoundMode {
    /// Down to the nearest multiple of the increment.
    Floor,
    /// Up to the nearest multiple of the increment.
    Ceil,
    /// To the nearest multiple, ties to the even quotient.
    HalfEven,
}

/// The multiple of `inc` that `tn` rounds to under the given mode.
pub open spec fn round_to_increment_spec(tn: int, inc: int, mode: RoundMode) -> int {
    let rem = tn % inc;
    match mode {
        RoundMode::Floor => tn - rem,
        RoundMode::Ceil => if rem == 0 { tn } else { tn - rem + inc },
        RoundMode::HalfEven => if 2 * rem < inc {
            tn - rem
        } else if 2 * rem > inc {
            tn - rem + inc
        } else if (tn / inc) % 2 == 0 {
            tn - rem
        } else {
            tn - rem + inc
        },
    }
}

/// Round a time of day to an increment that evenly divides the day.
/// The flag reports a carry across midnight: the rounded position was one
/// whole day, and the returned time is midnight of the next day.
pub fn round_time(t: Time, increment: u64, mode: RoundMode) -> (r: (Time, bool))
    requires
        t.valid(),
        0 < increment <= NS_PER_DAY,
        NS_PER_DAY as int % (increment as int) == 0,
    ensures
        ({
            let rounded = round_to_increment_spec(total_nanos_spec(t), increment as int, mode);
            &&& total_nanos_spec(r.0) + (if r.1 { NS_PER_DAY as int } else { 0int }) == rounded
            &&& r.0.valid()
            &&& (r.1 ==> rounded == NS_PER_DAY && total_nanos_spec(r.0) == 0)
        }),
{
    let tn: u64 = t.total_nanos();
    let rem: u64 = tn % increment;
    proof {
        vstd::arithmetic::div_mod::lemma_fundamental_div_mod(tn as int, increment as int);
        vstd::arithmetic::div_mod::lemma_div_pos_is_pos(tn as int, increment as int);
        vstd::arithmetic::mul::lemma_mul_nonnegative(increment as int,
            tn as int / increment as int);
    }
    let down: u64 = tn - rem;
    proof {
        let k = NS_PER_DAY as int / increment as int;
        let q = tn as int / increment as int;
        vstd::arithmetic::div_mod::lemma_fundamental_div_mod(NS_PER_DAY as int,
            increment as int);
        assert(NS_PER_DAY == increment * k);
        if rem != 0 {
            // A multiple of the increment strictly below one day leaves
            // room for one more increment.
            assert(down == increment * q);
            vstd::arithmetic::mul::lemma_mul_is_distributive_sub_other_way(
                increment as int, k, 1);
            lemma_fundamental_div_mod_converse(
                increment * k - 1,
                increment as int,
                k - 1,
                increment - 1,
            );
            vstd::arithmetic::div_mod::lemma_div_is_ordered(
                tn as int,
                increment * k - 1,
                increment as int,
            );
            lemma_mul_inequality(q + 1, k, increment as int);
            vstd::arithmetic::mul::lemma_mul_is_distributive_add_other_way(
                increment as int, q, 1);
            vstd::arithmetic::mul::lemma_mul_is_commutative(q, increment as int);
            vstd::arithmetic::mul::lemma_mul_is_commutative(k, increment as int);
            assert(down + increment <= NS_PER_DAY);
        }
    }
    let rounded: u64 = match mode {
        RoundMode::Floor => down,
        RoundMode::Ceil => if rem == 0 { down } else { down + increment },
        RoundMode::HalfEven => {
            if 2 * rem < increment {
                down
            } else if 2 * rem > increment {
                down + increment
            } else if (tn / increment) % 2 == 0 {
                down
            } else {
                down + increment
            }
        },
    };
    if rounded == NS_PER_DAY {
        (Time::midnight(), true)
    } else {
        (Time::from_total_nanos(rounded), false)
    }
}

/// Round a datetime's time of day, carrying a midnight overflow into the
/// date; fails with `OutOfRange` only when the date was already the
/// largest representable one.
pub fn round_datetime(dt: DateTime, increment: u64, mode: RoundMode) -> (r: Result<
    DateTime,
    Error,
>)
    requires
        dt.valid(),
        0 < increment <= NS_PER_DAY,
        NS_PER_DAY as int % (increment as int) == 0,
    ensures
        ({
            let target = ordinal_spec(dt.date) * NS_PER_DAY
                + round_to_increment_spec(total_nanos_spec(dt.time), increment as int, mode);
            &&& (r matches Ok(e) ==> e.valid() && instant_of_spec(e) == target)
            &&& (r matches Err(e) ==> e == Error::OutOfRange
                && target == (MAX_ORD + 1) * NS_PER_DAY)
        }),
        r matches Err(e) ==> dt.date == max_date(),
{
    let (time, carry) = round_time(dt.time, increment, mode);
    if carry {
        if dt.date.year == 9999 && dt.date.month == 12 && dt.date.day == 31 {
            proof {
                assert(ordinal_spec(dt.date) == MAX_ORD);
            }
            Err(Error::OutOfRange)
        } else {
            Ok(DateTime { date: dt.date.increment(), time })
        }
    } else {
        Ok(DateTime { date: dt.date, time })
    }
}

} // verus!
