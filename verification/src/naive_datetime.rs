//! Operations on naive datetimes whose exact-duration arithmetic needs no
//! DST acknowledgement: both operands share one wall-clock frame.

use vstd::prelude::*;
use crate::date::{ordinal_spec, shift_months_spec, MAX_ORD, MIN_ORD};
use crate::datetime::{instant_in_range, instant_of_spec, DateTime};
use crate::delta::{Delta, ExactDelta, NS_PER_DAY};
use crate::instant::Instant;
use crate::time::total_nanos_spec;
use crate::Error;

pub use crate::datetime::parse_date_and_time;

verus! {

/// Shift a naive datetime by any delta kind, the operator core of `+` and
/// `-`: the calendar part is applied months-first, then the exact part.
/// Exact arithmetic between naive values of the same kind needs no DST
/// acknowledgement, so nothing is gated here.
pub fn shift_delta(dt: DateTime, delta: Delta, negate: bool) -> (r: Result<DateTime, Error>)
    requires
        dt.valid(),
        delta.wf(),
    ensures
        ({
            let months = if negate { -delta.months_spec() } else { delta.months_spec() };
            let days = if negate { -delta.days_spec() } else { delta.days_spec() };
            let nanos = if negate { -delta.nanos_spec() } else { delta.nanos_spec() };
            match shift_months_spec(dt.date, months) {
                Some(m) => {
                    if MIN_ORD <= ordinal_spec(m) + days <= MAX_ORD {
                        let mid = (ordinal_spec(m) + days) * NS_PER_DAY
                            + total_nanos_spec(dt.time);
                        &&& (r matches Ok(e) ==> e.valid()
                            && instant_of_spec(e) == mid + nanos)
                        &&& (r matches Err(e) ==> e == Error::OutOfRange
                            && !instant_in_range(mid + nanos))
                    } else {
                        r == Err::<DateTime, Error>(Error::OutOfRange)
                    }
                },
                None => r == Err::<DateTime, Error>(Error::OutOfRange),
            }
        }),
        r matches Ok(e) ==> e.valid(),
{
    let d = if negate {
        delta.negated()
    } else {
        delta
    };
    let (months, days, nanos): (i32, i32, i128) = match d {
        Delta::Calendar(c) => (c.months, c.days, 0),
        Delta::Exact(e) => (0, 0, e.nanos),
        Delta::Composite(c) => (c.calendar.months, c.calendar.days, c.exact.nanos),
    };
    match dt.shift_date(months, days) {
        Some(mid) => match mid.shift_nanos(nanos) {
            Some(e) => Ok(e),
            None => Err(Error::OutOfRange),
        },
        None => Err(Error::OutOfRange),
    }
}

/// Exact difference `a - b` of two naive datetimes of the same kind,
/// computed by converting both to instants and subtracting: a pure exact
/// duration, since both share the same wall-clock frame.
pub fn difference(a: DateTime, b: DateTime) -> (r: ExactDelta)
    requires
        a.valid(),
        b.valid(),
    ensures
        r.nanos == instant_of_spec(a) - instant_of_spec(b),
        r.valid(),
{
    Instant::from_datetime(a.date, a.time).diff(Instant::from_datetime(b.date, b.time))
}

/// Read a naive datetime as UTC: the instant with the same wall-clock
/// reading.
pub fn assume_utc(dt: DateTime) -> (r: Instant)
    requires
        dt.valid(),
    ensures
        r.nanos == instant_of_spec(dt),
        r.valid(),
{
    Instant::from_datetime(dt.date, dt.time)
}

} // verus!
