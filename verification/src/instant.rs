//! Absolute points on a continuous nanosecond timeline since the epoch
//! 0001-01-01T00:00:00, used for exact differencing.

use vstd::prelude::*;
use crate::date::Date;
use crate::datetime::{instant_in_range, instant_of_spec, lemma_instant_range, DateTime};
use crate::delta::ExactDelta;
use crate::time::Time;

verus! {

/// A signed count of nanoseconds since the epoch. Values derived from
/// valid datetimes always lie in the representable interval; the type is
/// never the user-facing form of a naive value.
#[derive(Debug, Clone, Copy, PartialEq, Eq, Structural)]
pub struct Instant {
    pub nanos: i128,
}

impl Instant {
    /// The invariant of every instant derived from a valid datetime.
    pub open spec fn valid(self) -> bool {
        instant_in_range(self.nanos as int)
    }

    /// Exact linearization of a date and time; always succeeds within the
    /// representable range.
    pub fn from_datetime(date: Date, time: Time) -> (r: Instant)
        requires
            date.valid(),
            time.valid(),
        ensures
            r.nanos == instant_of_spec(DateTime { date, time }),
            r.valid(),
    {
        proof {
            lemma_instant_range(DateTime { date, time });
        }
        Instant {
            nanos: date.ord() as i128 * crate::delta::NS_PER_DAY as i128
                + time.total_nanos() as i128,
        }
    }

    /// The signed nanosecond count since the epoch.
    pub fn total_nanos(self) -> (r: i128)
        ensures
            r == self.nanos,
    {
        self.nanos
    }

    /// Exact elapsed duration `self - other` on the linear timeline; never
    /// calendar-aware, always exact.
    pub fn diff(self, other: Instant) -> (r: ExactDelta)
        requires
            self.valid(),
            other.valid(),
        ensures
            r.nanos == self.nanos - other.nanos,
            r.valid(),
    {
        ExactDelta { nanos: self.nanos - other.nanos }
    }
}

} // verus!
