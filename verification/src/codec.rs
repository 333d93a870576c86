//! The fixed-width binary persisted form of the value types: an opaque
//! round-trip serialization, not an interchange format. A payload of the
//! wrong length, or one spelling an invalid value, is a hard error.

use vstd::prelude::*;
use crate::date::{date_fields_valid, Date};
use crate::datetime::DateTime;
use crate::time::{time_fields_valid, Time};
use crate::Error;

verus! {

/// The four little-endian bytes of a date: `[year: u16][month][day]`.
pub open spec fn date_bytes_spec(d: Date) -> Seq<u8> {
    seq![
        (d.year as int % 256) as u8,
        (d.year as int / 256) as u8,
        d.month,
        d.day,
    ]
}

/// What decoding a date payload yields: the spelled date when the length
/// is exactly four and the components form a valid date.
pub open spec fn decode_date_spec(s: Seq<u8>) -> Option<Date> {
    if s.len() == 4 && date_fields_valid(s[0] + 256 * s[1], s[2] as int, s[3] as int) {
        Some(Date { year: (s[0] + 256 * s[1]) as u16, month: s[2], day: s[3] })
    } else {
        None
    }
}

/// The eleven little-endian bytes of a datetime: the date's four, then
/// `[hour][minute][second][nanosecond: u32]`.
pub open spec fn datetime_bytes_spec(dt: DateTime) -> Seq<u8> {
    date_bytes_spec(dt.date) + seq![
        dt.time.hour,
        dt.time.minute,
        dt.time.second,
        (dt.time.nanos as int % 256) as u8,
        (dt.time.nanos as int / 256 % 256) as u8,
        (dt.time.nanos as int / 65_536 % 256) as u8,
        (dt.time.nanos as int / 16_777_216) as u8,
    ]
}

/// The nanosecond field spelled by a datetime payload.
pub open spec fn decode_nanos_spec(s: Seq<u8>) -> int {
    s[7] + 256 * s[8] + 65_536 * s[9] + 16_777_216 * s[10]
}

/// What decoding a datetime payload yields: the spelled datetime when the
/// length is exactly eleven and every component is in range.
pub open spec fn decode_datetime_spec(s: Seq<u8>) -> Option<DateTime> {
    if s.len() == 11 && date_fields_valid(s[0] + 256 * s[1], s[2] as int, s[3] as int)
        && time_fields_valid(s[4] as int, s[5] as int, s[6] as int, decode_nanos_spec(s)) {
        Some(DateTime {
            date: Date { year: (s[0] + 256 * s[1]) as u16, month: s[2], day: s[3] },
            time: Time {
                hour: s[4],
                minute: s[5],
                second: s[6],
                nanos: decode_nanos_spec(s) as u32,
            },
        })
    } else {
        None
    }
}

/// Encode a date into its four-byte form.
pub fn encode_date(d: Date) -> (r: Vec<u8>)
    requires
        d.valid(),
    ensures
        r@ == date_bytes_spec(d),
{
    let mut out: Vec<u8> = Vec::new();
    out.push((d.year % 256) as u8);
    out.push((d.year / 256) as u8);
    out.push(d.month);
    out.push(d.day);
    proof {
        assert(out@ =~= date_bytes_spec(d));
    }
    out
}

/// Decode a four-byte date payload; any other length, or components that
/// do not form a valid date, is `InvalidPickleData`.
pub fn decode_date(s: &[u8]) -> (r: Result<Date, Error>)
    ensures
        match decode_date_spec(s@) {
            Some(d) => r == Ok::<Date, Error>(d) && d.valid(),
            None => r == Err::<Date, Error>(Error::InvalidPickleData),
        },
{
    if s.len() != 4 {
        return Err(Error::InvalidPickleData);
    }
    let year: u16 = s[0] as u16 + 256 * s[1] as u16;
    match Date::new(year, s[2], s[3]) {
        Some(d) => Ok(d),
        None => Err(Error::InvalidPickleData),
    }
}

/// Encode a datetime into its eleven-byte form.
pub fn encode_datetime(dt: DateTime) -> (r: Vec<u8>)
    requires
        dt.valid(),
    ensures
        r@ == datetime_bytes_spec(dt),
{
    let mut out = encode_date(dt.date);
    out.push(dt.time.hour);
    out.push(dt.time.minute);
    out.push(dt.time.second);
    out.push((dt.time.nanos % 256) as u8);
    out.push((dt.time.nanos / 256 % 256) as u8);
    out.push((dt.time.nanos / 65_536 % 256) as u8);
    out.push((dt.time.nanos / 16_777_216) as u8);
    proof {
        assert(out@ =~= datetime_bytes_spec(dt));
    }
    out
}

/// Decode an eleven-byte datetime payload; any other length, or a
/// component out of range, is `InvalidPickleData`.
pub fn decode_datetime(s: &[u8]) -> (r: Result<DateTime, Error>)
    ensures
        match decode_datetime_spec(s@) {
            Some(dt) => r == Ok::<DateTime, Error>(dt) && dt.valid(),
            None => r == Err::<DateTime, Error>(Error::InvalidPickleData),
        },
{
    if s.len() != 11 {
        return Err(Error::InvalidPickleData);
    }
    let year: u16 = s[0] as u16 + 256 * s[1] as u16;
    let nanos: u32 = s[7] as u32 + 256 * s[8] as u32 + 65_536 * s[9] as u32
        + 16_777_216 * s[10] as u32;
    match (Date::new(year, s[2], s[3]), Time::new(s[4], s[5], s[6], nanos)) {
        (Some(date), Some(time)) => Ok(DateTime { date, time }),
        _ => Err(Error::InvalidPickleData),
    }
}

/// Encoding then decoding a valid date is the identity.
pub proof fn lemma_date_codec_round_trip(d: Date)
    requires
        d.valid(),
    ensures
        decode_date_spec(date_bytes_spec(d)) == Some(d),
{
}

/// Encoding then decoding a valid datetime is the identity.
pub proof fn lemma_datetime_codec_round_trip(dt: DateTime)
    requires
        dt.valid(),
    ensures
        decode_datetime_spec(datetime_bytes_spec(dt)) == Some(dt),
{
    let s = datetime_bytes_spec(dt);
    assert(decode_nanos_spec(s) == dt.time.nanos as int);
}

} // verus!
