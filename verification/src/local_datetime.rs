//! Operations on naive datetimes read as local wall-clock values: exact-
//! duration arithmetic silently assumes no intervening DST transition, so
//! it is gated behind an explicit override flag.

use vstd::prelude::*;
use crate::date::{ordinal_spec, shift_months_spec, MAX_ORD, MIN_ORD};
use crate::datetime::{instant_in_range, instant_of_spec, DateTime};
use crate::delta::{ExactDelta, MAX_EXACT_NANOS, NS_PER_DAY};
use crate::instant::Instant;
use crate::time::total_nanos_spec;
use crate::Error;

pub use crate::datetime::parse_date_and_time;

verus! {

/// Shift a local datetime by months, days and exact nanoseconds. A
/// non-zero exact part is refused with `ImplicitDstIgnored` unless the
/// caller passes `ignore_dst`, acknowledging that exact arithmetic on a
/// local clock assumes no DST transition in between. Calendar-only shifts
/// are never gated.
pub fn shift_units(
    dt: DateTime,
    months: i32,
    days: i32,
    nanos: i128,
    ignore_dst: bool,
) -> (r: Result<DateTime, Error>)
    requires
        dt.valid(),
        -MAX_EXACT_NANOS <= nanos <= MAX_EXACT_NANOS,
    ensures
        nanos != 0 && !ignore_dst ==> r == Err::<DateTime, Error>(Error::ImplicitDstIgnored),
        nanos == 0 || ignore_dst ==> match shift_months_spec(dt.date, months as int) {
            Some(m) => {
                if MIN_ORD <= ordinal_spec(m) + days <= MAX_ORD {
                    let mid = (ordinal_spec(m) + days) * NS_PER_DAY
                        + total_nanos_spec(dt.time);
                    &&& (r matches Ok(e) ==> e.valid()
                        && instant_of_spec(e) == mid + nanos)
                    &&& (r matches Err(e) ==> e == Error::OutOfRange
                        && !instant_in_range(mid + nanos))
                } else {
                    r == Err::<DateTime, Error>(Error::OutOfRange)
                }
            },
            None => r == Err::<DateTime, Error>(Error::OutOfRange),
        },
        r matches Ok(e) ==> e.valid(),
{
    if nanos != 0 && !ignore_dst {
        return Err(Error::ImplicitDstIgnored);
    }
    match dt.shift_date(months, days) {
        Some(mid) => match mid.shift_nanos(nanos) {
            Some(e) => Ok(e),
            None => Err(Error::OutOfRange),
        },
        None => Err(Error::OutOfRange),
    }
}

/// Exact difference of two local datetimes. Refused with
/// `ImplicitDstIgnored` unless the caller acknowledges that the duration
/// is computed as if no DST transition lies between the two readings.
pub fn difference(a: DateTime, b: DateTime, ignore_dst: bool) -> (r: Result<ExactDelta, Error>)
    requires
        a.valid(),
        b.valid(),
    ensures
        !ignore_dst ==> r == Err::<ExactDelta, Error>(Error::ImplicitDstIgnored),
        ignore_dst ==> (r matches Ok(d) && d.valid()
            && d.nanos == instant_of_spec(a) - instant_of_spec(b)),
{
    if !ignore_dst {
        return Err(Error::ImplicitDstIgnored);
    }
    Ok(Instant::from_datetime(a.date, a.time).diff(Instant::from_datetime(b.date, b.time)))
}

} // verus!
