//! Signed amounts of calendar units (months, days) and of exact nanoseconds,
//! and their combination.

use vstd::prelude::*;
use crate::Error;

verus! {

/// Nanoseconds in one day of exactly 86,400 seconds.
pub const NS_PER_DAY: u64 = 86_400_000_000_000;
/// Seconds in one day.
pub const S_PER_DAY: u32 = 86_400;
/// Nanoseconds in one second.
pub const NS_PER_S: u32 = 1_000_000_000;

/// Largest magnitude of an exact delta: the nanosecond span between the
/// smallest and the largest representable naive datetime, so that every
/// difference of two in-range datetimes is representable.
pub const MAX_EXACT_NANOS: i128 = 315_537_897_599_999_999_999;

/// An amount to add calendar-fashion: months are applied before days, and
/// the day of month clamps to the landing month. The two components are
/// independently signed and are never cross-normalized.
#[derive(Debug, Clone, Copy, PartialEq, Eq, Structural)]
pub struct CalendarDelta {
    pub months: i32,
    pub days: i32,
}

impl CalendarDelta {
    /// The delta that moves nothing.
    pub fn zero() -> (r: CalendarDelta)
        ensures
            r.months == 0,
            r.days == 0,
    {
        CalendarDelta { months: 0, days: 0 }
    }

    /// Component-wise combination; `None` when a component sum leaves `i32`.
    pub fn combine(self, other: CalendarDelta) -> (r: Option<CalendarDelta>)
        ensures
            i32::MIN <= self.months + other.months <= i32::MAX
                && i32::MIN <= self.days + other.days <= i32::MAX
                ==> r == Some(CalendarDelta {
                    months: (self.months + other.months) as i32,
                    days: (self.days + other.days) as i32,
                }),
            r is None ==> !(i32::MIN <= self.months + other.months <= i32::MAX)
                || !(i32::MIN <= self.days + other.days <= i32::MAX),
    {
        match (self.months.checked_add(other.months), self.days.checked_add(other.days)) {
            (Some(months), Some(days)) => Some(CalendarDelta { months, days }),
            _ => None,
        }
    }

    /// Negation of both components; `None` only at the `i32::MIN` edge.
    pub fn negated(self) -> (r: Option<CalendarDelta>)
        ensures
            self.months > i32::MIN && self.days > i32::MIN
                ==> r == Some(CalendarDelta {
                    months: (-self.months) as i32,
                    days: (-self.days) as i32,
                }),
            r is None ==> self.months == i32::MIN || self.days == i32::MIN,
    {
        if self.months > i32::MIN && self.days > i32::MIN {
            Some(CalendarDelta { months: -self.months, days: -self.days })
        } else {
            None
        }
    }
}

/// A fixed duration in nanoseconds, independent of calendar irregularities:
/// always exactly as many seconds as it says.
#[derive(Debug, Clone, Copy, PartialEq, Eq, Structural)]
pub struct ExactDelta {
    pub nanos: i128,
}

impl ExactDelta {
    /// The invariant every exact delta the library hands out satisfies.
    pub open spec fn valid(self) -> bool {
        -MAX_EXACT_NANOS <= self.nanos <= MAX_EXACT_NANOS
    }

    /// Validated constructor: `Some` exactly when the magnitude is within
    /// the representable datetime span.
    pub fn from_nanos(nanos: i128) -> (r: Option<ExactDelta>)
        ensures
            -MAX_EXACT_NANOS <= nanos <= MAX_EXACT_NANOS
                ==> r == Some(ExactDelta { nanos }),
            r is None ==> !(-MAX_EXACT_NANOS <= nanos <= MAX_EXACT_NANOS),
            r matches Some(d) ==> d.valid(),
    {
        if -MAX_EXACT_NANOS <= nanos && nanos <= MAX_EXACT_NANOS {
            Some(ExactDelta { nanos })
        } else {
            None
        }
    }

    /// The signed nanosecond count.
    pub fn total_nanos(self) -> (r: i128)
        ensures
            r == self.nanos,
    {
        self.nanos
    }

    /// Sum of two exact deltas; `None` when the sum leaves the representable
    /// span.
    pub fn combine(self, other: ExactDelta) -> (r: Option<ExactDelta>)
        requires
            self.valid(),
            other.valid(),
        ensures
            -MAX_EXACT_NANOS <= self.nanos + other.nanos <= MAX_EXACT_NANOS
                ==> r == Some(ExactDelta { nanos: (self.nanos + other.nanos) as i128 }),
            r is None ==> !(-MAX_EXACT_NANOS <= self.nanos + other.nanos <= MAX_EXACT_NANOS),
            r matches Some(d) ==> d.valid(),
    {
        let sum = self.nanos + other.nanos;
        if -MAX_EXACT_NANOS <= sum && sum <= MAX_EXACT_NANOS {
            Some(ExactDelta { nanos: sum })
        } else {
            None
        }
    }

    /// Exact negation; the bound is symmetric, so this always succeeds.
    pub fn negated(self) -> (r: ExactDelta)
        requires
            self.valid(),
        ensures
            r.nanos == -self.nanos,
            r.valid(),
    {
        ExactDelta { nanos: -self.nanos }
    }
}

/// The closed family of delta kinds that datetime arithmetic dispatches
/// over: the set is fixed and small, matched exhaustively.
#[derive(Debug, Clone, Copy, PartialEq, Eq, Structural)]
pub enum Delta {
    Calendar(CalendarDelta),
    Exact(ExactDelta),
    Composite(CompositeDelta),
}

impl Delta {
    /// The months component of the delta's calendar part.
    pub open spec fn months_spec(self) -> int {
        match self {
            Delta::Calendar(c) => c.months as int,
            Delta::Exact(_) => 0,
            Delta::Composite(c) => c.calendar.months as int,
        }
    }

    /// The days component of the delta's calendar part.
    pub open spec fn days_spec(self) -> int {
        match self {
            Delta::Calendar(c) => c.days as int,
            Delta::Exact(_) => 0,
            Delta::Composite(c) => c.calendar.days as int,
        }
    }

    /// The delta's exact part in nanoseconds.
    pub open spec fn nanos_spec(self) -> int {
        match self {
            Delta::Calendar(_) => 0,
            Delta::Exact(e) => e.nanos as int,
            Delta::Composite(c) => c.exact.nanos as int,
        }
    }

    /// Bounds under which a delta can be applied and negated.
    pub open spec fn wf(self) -> bool {
        &&& self.months_spec() > i32::MIN
        &&& self.days_spec() > i32::MIN
        &&& -MAX_EXACT_NANOS <= self.nanos_spec() <= MAX_EXACT_NANOS
    }

    /// Negation of every part.
    pub fn negated(self) -> (r: Delta)
        requires
            self.wf(),
        ensures
            r.months_spec() == -self.months_spec(),
            r.days_spec() == -self.days_spec(),
            r.nanos_spec() == -self.nanos_spec(),
            r.wf(),
    {
        match self {
            Delta::Calendar(c) => Delta::Calendar(CalendarDelta {
                months: -c.months,
                days: -c.days,
            }),
            Delta::Exact(e) => Delta::Exact(ExactDelta { nanos: -e.nanos }),
            Delta::Composite(c) => Delta::Composite(CompositeDelta {
                calendar: CalendarDelta {
                    months: -c.calendar.months,
                    days: -c.calendar.days,
                },
                exact: ExactDelta { nanos: -c.exact.nanos },
            }),
        }
    }
}

/// The calendar part and the exact part of a composite delta point in the
/// same net direction: whenever both are non-zero, no component of one is
/// signed against the other.
pub open spec fn composite_signs_consistent(calendar: CalendarDelta, exact: ExactDelta) -> bool {
    ||| exact.nanos == 0
    ||| (calendar.months == 0 && calendar.days == 0)
    ||| (exact.nanos > 0 && calendar.months >= 0 && calendar.days >= 0)
    ||| (exact.nanos < 0 && calendar.months <= 0 && calendar.days <= 0)
}

/// A mixed amount of calendar units and exact nanoseconds, applied calendar
/// part first.
#[derive(Debug, Clone, Copy, PartialEq, Eq, Structural)]
pub struct CompositeDelta {
    pub calendar: CalendarDelta,
    pub exact: ExactDelta,
}

impl CompositeDelta {
    /// Validated constructor: a combination whose calendar and exact parts
    /// disagree in sign while both are non-zero has no well-defined net
    /// direction and is rejected, not silently normalized.
    pub fn new(calendar: CalendarDelta, exact: ExactDelta) -> (r: Result<
        CompositeDelta,
        Error,
    >)
        requires
            exact.valid(),
        ensures
            composite_signs_consistent(calendar, exact)
                ==> r == Ok::<CompositeDelta, Error>(CompositeDelta { calendar, exact }),
            !composite_signs_consistent(calendar, exact)
                ==> r == Err::<CompositeDelta, Error>(Error::InvalidComponents),
    {
        let consistent = exact.nanos == 0
            || (calendar.months == 0 && calendar.days == 0)
            || (exact.nanos > 0 && calendar.months >= 0 && calendar.days >= 0)
            || (exact.nanos < 0 && calendar.months <= 0 && calendar.days <= 0);
        if consistent {
            Ok(CompositeDelta { calendar, exact })
        } else {
            Err(Error::InvalidComponents)
        }
    }

    /// Negation negates both parts; `None` only at the `i32::MIN` edge of a
    /// calendar component.
    pub fn negated(self) -> (r: Option<CompositeDelta>)
        requires
            self.exact.valid(),
        ensures
            self.calendar.months > i32::MIN && self.calendar.days > i32::MIN
                ==> (r matches Some(d) && d.calendar.months == -self.calendar.months
                    && d.calendar.days == -self.calendar.days
                    && d.exact.nanos == -self.exact.nanos && d.exact.valid()),
            r is None ==> self.calendar.months == i32::MIN || self.calendar.days == i32::MIN,
    {
        match self.calendar.negated() {
            Some(calendar) => Some(CompositeDelta { calendar, exact: self.exact.negated() }),
            None => None,
        }
    }
}

} // verus!
