//! Deterministic resolution of a local wall-clock reading against the
//! candidate UTC offsets a timezone lookup reports for it. The lookup
//! itself is an external capability; its answer is handed in as a value,
//! and this component is a pure function of its inputs.

use vstd::prelude::*;
use crate::datetime::{instant_in_range, instant_of_spec, lemma_instant_range, DateTime};
use crate::delta::{NS_PER_DAY, S_PER_DAY};
use crate::date::MAX_ORD;
use crate::Error;

verus! {

/// The policy that picks a single resolution when a local reading is
/// ambiguous (fold) or nonexistent (gap).
#[derive(Debug, Clone, Copy, PartialEq, Eq, Structural)]
pub enum Disambiguate {
    /// The conventional default: earlier offset in a fold, skip forward in
    /// a gap.
    Compatible,
    Earlier,
    Later,
    Raise,
}

/// What a timezone lookup reports for one local reading: one offset, or
/// the two sides of a fold (reading occurs twice), or the two sides of a
/// gap (reading does not occur). Offsets are seconds east of UTC.
#[derive(Debug, Clone, Copy, PartialEq, Eq, Structural)]
pub enum OffsetResult {
    Unambiguous { offset: i32 },
    /// Fall-back transition: the earlier side has the greater offset.
    Fold { earlier: i32, later: i32 },
    /// Spring-forward transition: the later side has the greater offset.
    Gap { earlier: i32, later: i32 },
}

/// Offsets a real timezone can report: strictly within one day of UTC.
pub open spec fn offset_in_range(o: int) -> bool {
    -S_PER_DAY < o < S_PER_DAY
}

impl OffsetResult {
    /// Well-formedness of a lookup answer: offsets in range, a fold's
    /// earlier side ahead of its later side, a gap's behind it.
    pub open spec fn wf(self) -> bool {
        match self {
            OffsetResult::Unambiguous { offset } => offset_in_range(offset as int),
            OffsetResult::Fold { earlier, later } => offset_in_range(earlier as int)
                && offset_in_range(later as int) && earlier > later,
            OffsetResult::Gap { earlier, later } => offset_in_range(earlier as int)
                && offset_in_range(later as int) && earlier < later,
        }
    }
}

/// A local reading anchored to a fixed UTC offset in seconds: the result
/// of a successful resolution.
#[derive(Debug, Clone, Copy, PartialEq, Eq, Structural)]
pub struct OffsetDateTime {
    pub local: DateTime,
    pub offset_secs: i32,
}

/// Anchor a local reading to a fixed UTC offset: succeeds exactly when the
/// corresponding UTC instant is itself on the representable timeline.
pub fn with_offset(dt: DateTime, offset_secs: i32) -> (r: Option<OffsetDateTime>)
    requires
        dt.valid(),
        offset_in_range(offset_secs as int),
    ensures
        instant_in_range(instant_of_spec(dt) - offset_secs * 1_000_000_000)
            ==> r == Some(OffsetDateTime { local: dt, offset_secs }),
        !instant_in_range(instant_of_spec(dt) - offset_secs * 1_000_000_000) ==> r is None,
{
    proof {
        lemma_instant_range(dt);
    }
    let inst: i128 = dt.date.ord() as i128 * NS_PER_DAY as i128
        + dt.time.total_nanos() as i128;
    let utc: i128 = inst - offset_secs as i128 * 1_000_000_000;
    if NS_PER_DAY as i128 <= utc && utc <= (MAX_ORD as i128 + 1) * NS_PER_DAY as i128 - 1 {
        Some(OffsetDateTime { local: dt, offset_secs })
    } else {
        None
    }
}

/// Resolve a local reading against a lookup answer under a policy.
///
/// Unambiguous readings keep their single offset. In a fold, `Compatible`
/// and `Earlier` pick the earlier-offset candidate, `Later` the later one,
/// and `Raise` fails with `AmbiguousTime`. In a gap, `Compatible` and
/// `Later` move the reading forward by the gap width and anchor it to the
/// later side's offset, `Earlier` anchors the unmoved reading to the
/// earlier side's offset, and `Raise` fails with `SkippedTime`.
pub fn resolve_using_disambiguate(
    dt: DateTime,
    offsets: OffsetResult,
    dis: Disambiguate,
) -> (r: Result<OffsetDateTime, Error>)
    requires
        dt.valid(),
        offsets.wf(),
    ensures
        match offsets {
            OffsetResult::Unambiguous { offset } => r == Ok::<OffsetDateTime, Error>(
                OffsetDateTime { local: dt, offset_secs: offset },
            ),
            OffsetResult::Fold { earlier, later } => match dis {
                Disambiguate::Compatible | Disambiguate::Earlier => r == Ok::<
                    OffsetDateTime,
                    Error,
                >(OffsetDateTime { local: dt, offset_secs: earlier }),
                Disambiguate::Later => r == Ok::<OffsetDateTime, Error>(
                    OffsetDateTime { local: dt, offset_secs: later },
                ),
                Disambiguate::Raise => r == Err::<OffsetDateTime, Error>(
                    Error::AmbiguousTime(earlier, later),
                ),
            },
            OffsetResult::Gap { earlier, later } => match dis {
                Disambiguate::Raise => r == Err::<OffsetDateTime, Error>(
                    Error::SkippedTime(earlier, later),
                ),
                Disambiguate::Earlier => r == Ok::<OffsetDateTime, Error>(
                    OffsetDateTime { local: dt, offset_secs: earlier },
                ),
                Disambiguate::Compatible | Disambiguate::Later => {
                    let shifted = instant_of_spec(dt) + (later - earlier) * 1_000_000_000;
                    if instant_in_range(shifted) {
                        r matches Ok(o) && o.offset_secs == later && o.local.valid()
                            && instant_of_spec(o.local) == shifted
                            && o.local.time.nanos == dt.time.nanos
                    } else {
                        r == Err::<OffsetDateTime, Error>(Error::OutOfRange)
                    }
                },
            },
        },
        r matches Ok(o) ==> o.local.valid(),
{
    match offsets {
        OffsetResult::Unambiguous { offset } => Ok(OffsetDateTime {
            local: dt,
            offset_secs: offset,
        }),
        OffsetResult::Fold { earlier, later } => match dis {
            Disambiguate::Compatible | Disambiguate::Earlier => Ok(OffsetDateTime {
                local: dt,
                offset_secs: earlier,
            }),
            Disambiguate::Later => Ok(OffsetDateTime { local: dt, offset_secs: later }),
            Disambiguate::Raise => Err(Error::AmbiguousTime(earlier, later)),
        },
        OffsetResult::Gap { earlier, later } => match dis {
            Disambiguate::Raise => Err(Error::SkippedTime(earlier, later)),
            Disambiguate::Earlier => Ok(OffsetDateTime { local: dt, offset_secs: earlier }),
            Disambiguate::Compatible | Disambiguate::Later => {
                proof {
                    lemma_instant_range(dt);
                }
                let width: i32 = later - earlier;
                let inst: i128 = dt.date.ord() as i128 * NS_PER_DAY as i128
                    + dt.time.total_nanos() as i128;
                let shifted: i128 = inst + width as i128 * 1_000_000_000;
                if shifted > (MAX_ORD as i128 + 1) * NS_PER_DAY as i128 - 1 {
                    Err(Error::OutOfRange)
                } else {
                    Ok(OffsetDateTime {
                        local: dt.small_shift_unchecked(width),
                        offset_secs: later,
                    })
                }
            },
        },
    }
}

} // verus!
