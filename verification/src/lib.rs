//! A proleptic-Gregorian civil-calendar and absolute-time arithmetic engine.
//!
//! The crate offers calendar dates with a bijective ordinal-day mapping,
//! nanosecond-precision times of day, naive datetimes with calendar-aware and
//! exact shifting, instants on a continuous nanosecond timeline, rounding to
//! arbitrary increments that divide a day, deterministic resolution of
//! daylight-saving folds and gaps, a strict fixed-width text form, and a
//! fixed-width binary form.

pub mod codec;
pub mod date;
pub mod datetime;
pub mod delta;
pub mod instant;
pub mod local_datetime;
pub mod naive_datetime;
pub mod resolve;
pub mod rounding;
pub mod time;

use vstd::prelude::*;

verus! {

/// The failure modes of the engine. Every operation that can fail returns one
/// of these as a value; nothing panics and nothing is logged or retried.
#[derive(Debug, Clone, Copy, PartialEq, Eq, Structural)]
pub enum Error {
    /// A constructor received a component outside its valid range, or an
    /// impossible day-of-month, or a composite delta with inconsistent signs.
    InvalidComponents,
    /// The result of an otherwise valid operation left the representable
    /// year range 1..=9999.
    OutOfRange,
    /// Text did not match the fixed-width grammar.
    ParseError,
    /// A local reading falls in a fold (occurs twice) and the policy was
    /// `Raise`; carries the earlier and later candidate offsets in seconds.
    AmbiguousTime(i32, i32),
    /// A local reading falls in a gap (does not occur) and the policy was
    /// `Raise`; carries the offsets on the earlier and later side of the gap.
    SkippedTime(i32, i32),
    /// Exact-duration arithmetic was attempted on a naive local value
    /// without the explicit override acknowledging the DST assumption.
    ImplicitDstIgnored,
    /// A fixed-width binary payload had the wrong length or held an invalid
    /// value.
    InvalidPickleData,
}

} // verus!
