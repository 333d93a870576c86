use whenever::date::Date;
use whenever::datetime::DateTime;
use whenever::delta::{CalendarDelta, CompositeDelta, Delta, ExactDelta};
use whenever::local_datetime;
use whenever::naive_datetime;
use whenever::time::Time;
use whenever::Error;

#[test]
fn local_datetime_test_parse_valid() {
    assert_eq!(
        local_datetime::parse_date_and_time(b"2023-03-02 02:09:09"),
        Some((
            Date { year: 2023, month: 3, day: 2 },
            Time { hour: 2, minute: 9, second: 9, nanos: 0 },
        ))
    );
    assert_eq!(
        local_datetime::parse_date_and_time(b"2023-03-02 02:09:09.123456789"),
        Some((
            Date { year: 2023, month: 3, day: 2 },
            Time { hour: 2, minute: 9, second: 9, nanos: 123_456_789 },
        ))
    );
}

#[test]
fn local_datetime_test_parse_invalid() {
    // dot but no fractional digits
    assert_eq!(
        local_datetime::parse_date_and_time(b"2023-03-02 02:09:09."),
        None
    );
    // too many fractions
    assert_eq!(
        local_datetime::parse_date_and_time(b"2023-03-02 02:09:09.1234567890"),
        None
    );
    // invalid minute
    assert_eq!(
        local_datetime::parse_date_and_time(b"2023-03-02 02:69:09.123456789"),
        None
    );
    // invalid date
    assert_eq!(
        local_datetime::parse_date_and_time(b"2023-02-29 02:29:09.123456789"),
        None
    );
}

#[test]
fn naive_datetime_test_parse_valid() {
    assert_eq!(
        naive_datetime::parse_date_and_time(b"2023-03-02 02:09:09"),
        Some((
            Date { year: 2023, month: 3, day: 2 },
            Time { hour: 2, minute: 9, second: 9, nanos: 0 },
        ))
    );
    assert_eq!(
        naive_datetime::parse_date_and_time(b"2023-03-02 02:09:09.123456789"),
        Some((
            Date { year: 2023, month: 3, day: 2 },
            Time { hour: 2, minute: 9, second: 9, nanos: 123_456_789 },
        ))
    );
}

#[test]
fn naive_datetime_test_parse_invalid() {
    // dot but no fractional digits
    assert_eq!(
        naive_datetime::parse_date_and_time(b"2023-03-02 02:09:09."),
        None
    );
    // too many fractions
    assert_eq!(
        naive_datetime::parse_date_and_time(b"2023-03-02 02:09:09.1234567890"),
        None
    );
    // invalid minute
    assert_eq!(
        naive_datetime::parse_date_and_time(b"2023-03-02 02:69:09.123456789"),
        None
    );
    // invalid date
    assert_eq!(
        naive_datetime::parse_date_and_time(b"2023-02-29 02:29:09.123456789"),
        None
    );
}

#[test]
fn test_small_shift_unchecked() {
    let d = DateTime {
        date: Date { year: 2023, month: 3, day: 2 },
        time: Time { hour: 2, minute: 9, second: 9, nanos: 0 },
    };
    assert_eq!(d.small_shift_unchecked(0), d);
    assert_eq!(
        d.small_shift_unchecked(1),
        DateTime {
            date: Date { year: 2023, month: 3, day: 2 },
            time: Time { hour: 2, minute: 9, second: 10, nanos: 0 },
        }
    );
    assert_eq!(
        d.small_shift_unchecked(-1),
        DateTime {
            date: Date { year: 2023, month: 3, day: 2 },
            time: Time { hour: 2, minute: 9, second: 8, nanos: 0 },
        }
    );
    assert_eq!(
        d.small_shift_unchecked(86400),
        DateTime {
            date: Date { year: 2023, month: 3, day: 3 },
            time: Time { hour: 2, minute: 9, second: 9, nanos: 0 },
        }
    );
    assert_eq!(
        d.small_shift_unchecked(-86400),
        DateTime {
            date: Date { year: 2023, month: 3, day: 1 },
            time: Time { hour: 2, minute: 9, second: 9, nanos: 0 },
        }
    );
    let midnight = DateTime {
        date: Date { year: 2023, month: 3, day: 2 },
        time: Time { hour: 0, minute: 0, second: 0, nanos: 0 },
    };
    assert_eq!(midnight.small_shift_unchecked(0), midnight);
    assert_eq!(
        midnight.small_shift_unchecked(-1),
        DateTime {
            date: Date { year: 2023, month: 3, day: 1 },
            time: Time { hour: 23, minute: 59, second: 59, nanos: 0 },
        }
    );
    assert_eq!(
        midnight.small_shift_unchecked(-86400),
        DateTime {
            date: Date { year: 2023, month: 3, day: 1 },
            time: Time { hour: 0, minute: 0, second: 0, nanos: 0 },
        }
    );
    assert_eq!(
        midnight.small_shift_unchecked(-86400 - 1),
        DateTime {
            date: Date { year: 2023, month: 2, day: 28 },
            time: Time { hour: 23, minute: 59, second: 59, nanos: 0 },
        }
    );
    assert_eq!(
        DateTime {
            date: Date { year: 2023, month: 1, day: 1 },
            time: Time { hour: 0, minute: 0, second: 0, nanos: 0 },
        }
        .small_shift_unchecked(-1),
        DateTime {
            date: Date { year: 2022, month: 12, day: 31 },
            time: Time { hour: 23, minute: 59, second: 59, nanos: 0 },
        }
    )
}

#[test]
fn test_day_boundary_small_shift() {
    // A datetime at 23:59:59 shifted by one second rolls into the next day.
    let d = DateTime {
        date: Date { year: 2021, month: 6, day: 15 },
        time: Time { hour: 23, minute: 59, second: 59, nanos: 0 },
    };
    assert_eq!(
        d.small_shift_unchecked(1),
        DateTime {
            date: Date { year: 2021, month: 6, day: 16 },
            time: Time { hour: 0, minute: 0, second: 0, nanos: 0 },
        }
    );
    // From the midnight it just reached, -86400-1 seconds lands two days
    // earlier.
    let midnight = d.small_shift_unchecked(1);
    assert_eq!(
        midnight.small_shift_unchecked(-86400 - 1),
        DateTime {
            date: Date { year: 2021, month: 6, day: 14 },
            time: Time { hour: 23, minute: 59, second: 59, nanos: 0 },
        }
    );
}

#[test]
fn test_parse_common_iso() {
    let expected = DateTime {
        date: Date { year: 2023, month: 3, day: 2 },
        time: Time { hour: 2, minute: 9, second: 9, nanos: 123_456_789 },
    };
    assert_eq!(
        DateTime::parse_common_iso(b"2023-03-02T02:09:09.123456789"),
        Ok(expected)
    );
    assert_eq!(
        DateTime::parse_common_iso(b"2023-03-02t02:09:09.123456789"),
        Ok(expected)
    );
    assert_eq!(
        DateTime::parse_common_iso(b"2023-03-02 02:09:09.123456789"),
        Ok(expected)
    );
    assert_eq!(
        DateTime::parse_common_iso(b"2023-03-02_02:09:09.123456789"),
        Ok(expected)
    );
    assert_eq!(
        DateTime::parse_common_iso(b"2023-03-02X02:09:09.123456789"),
        Err(Error::ParseError)
    );
    assert_eq!(
        DateTime::parse_common_iso(b"2023-03-02T02:09"),
        Err(Error::ParseError)
    );
    assert_eq!(
        DateTime::parse_common_iso(b"2023-03-02T02:09:09."),
        Err(Error::ParseError)
    );
}

#[test]
fn test_format_common_iso() {
    let dt = DateTime {
        date: Date { year: 2023, month: 3, day: 2 },
        time: Time { hour: 2, minute: 9, second: 9, nanos: 0 },
    };
    assert_eq!(dt.format_common_iso(), b"2023-03-02T02:09:09".to_vec());
    let dt = DateTime {
        date: Date { year: 2023, month: 3, day: 2 },
        time: Time { hour: 2, minute: 9, second: 9, nanos: 123_450_000 },
    };
    assert_eq!(
        dt.format_common_iso(),
        b"2023-03-02T02:09:09.12345".to_vec()
    );
    let dt = DateTime {
        date: Date { year: 1, month: 1, day: 1 },
        time: Time { hour: 0, minute: 0, second: 0, nanos: 1 },
    };
    assert_eq!(
        dt.format_common_iso(),
        b"0001-01-01T00:00:00.000000001".to_vec()
    );
}

#[test]
fn test_text_round_trip() {
    let cases = [
        DateTime {
            date: Date { year: 2023, month: 3, day: 2 },
            time: Time { hour: 2, minute: 9, second: 9, nanos: 123_450_000 },
        },
        DateTime {
            date: Date { year: 1, month: 1, day: 1 },
            time: Time { hour: 0, minute: 0, second: 0, nanos: 0 },
        },
        DateTime {
            date: Date { year: 9999, month: 12, day: 31 },
            time: Time { hour: 23, minute: 59, second: 59, nanos: 999_999_999 },
        },
        DateTime {
            date: Date { year: 2020, month: 2, day: 29 },
            time: Time { hour: 12, minute: 0, second: 0, nanos: 1 },
        },
    ];
    for dt in cases {
        let text = dt.format_common_iso();
        assert_eq!(DateTime::parse_common_iso(&text), Ok(dt));
    }
}

#[test]
fn test_shift_nanos_carry() {
    let d = DateTime {
        date: Date { year: 2023, month: 3, day: 2 },
        time: Time { hour: 23, minute: 59, second: 59, nanos: 999_999_999 },
    };
    assert_eq!(
        d.shift_nanos(1),
        Some(DateTime {
            date: Date { year: 2023, month: 3, day: 3 },
            time: Time { hour: 0, minute: 0, second: 0, nanos: 0 },
        })
    );
    let max = DateTime::max_value();
    assert_eq!(max.shift_nanos(1), None);
    assert_eq!(DateTime::min_value().shift_nanos(-1), None);
    assert_eq!(max.shift_nanos(-1_000_000_000).is_some(), true);
}

#[test]
fn test_naive_difference() {
    let a = DateTime {
        date: Date { year: 2023, month: 3, day: 3 },
        time: Time { hour: 0, minute: 0, second: 1, nanos: 500 },
    };
    let b = DateTime {
        date: Date { year: 2023, month: 3, day: 2 },
        time: Time { hour: 23, minute: 59, second: 59, nanos: 0 },
    };
    let d = naive_datetime::difference(a, b);
    assert_eq!(d.nanos, 2_000_000_500);
    let d = naive_datetime::difference(b, a);
    assert_eq!(d.nanos, -2_000_000_500);
}

#[test]
fn test_exact_duration_gating() {
    let dt = DateTime {
        date: Date { year: 2023, month: 3, day: 2 },
        time: Time { hour: 2, minute: 9, second: 9, nanos: 0 },
    };
    // Without the override, exact-duration arithmetic is refused.
    assert_eq!(
        local_datetime::shift_units(dt, 0, 0, 3_600_000_000_000, false),
        Err(Error::ImplicitDstIgnored)
    );
    // With it, the result matches nanosecond-exact addition via Instant.
    let shifted = local_datetime::shift_units(dt, 0, 0, 3_600_000_000_000, true).unwrap();
    let exact = naive_datetime::difference(shifted, dt);
    assert_eq!(exact.nanos, 3_600_000_000_000);
    // Calendar-only shifts are never gated.
    assert_eq!(
        local_datetime::shift_units(dt, 1, 1, 0, false),
        Ok(DateTime {
            date: Date { year: 2023, month: 4, day: 3 },
            time: Time { hour: 2, minute: 9, second: 9, nanos: 0 },
        })
    );
    // The gated difference.
    assert_eq!(
        local_datetime::difference(dt, dt, false),
        Err(Error::ImplicitDstIgnored)
    );
    assert_eq!(local_datetime::difference(dt, dt, true).unwrap().nanos, 0);
}

#[test]
fn test_shift_units_out_of_range() {
    let dt = DateTime {
        date: Date { year: 9999, month: 12, day: 31 },
        time: Time { hour: 23, minute: 0, second: 0, nanos: 0 },
    };
    assert_eq!(
        local_datetime::shift_units(dt, 0, 1, 0, false),
        Err(Error::OutOfRange)
    );
    assert_eq!(
        local_datetime::shift_units(dt, 0, 0, 3_600_000_000_000, true),
        Err(Error::OutOfRange)
    );
}

#[test]
fn test_datetime_replace() {
    let dt = DateTime {
        date: Date { year: 2023, month: 3, day: 2 },
        time: Time { hour: 2, minute: 9, second: 9, nanos: 7 },
    };
    let r = dt
        .replace(None, None, None, Some(5), None, None, Some(0))
        .unwrap();
    assert_eq!(
        r,
        DateTime {
            date: Date { year: 2023, month: 3, day: 2 },
            time: Time { hour: 5, minute: 9, second: 9, nanos: 0 },
        }
    );
    assert_eq!(dt.replace(None, Some(2), Some(30), None, None, None, None), None);
    assert_eq!(dt.replace(None, None, None, Some(24), None, None, None), None);
}

#[test]
fn test_shift_delta_operator() {
    let d = DateTime {
        date: Date { year: 2020, month: 1, day: 31 },
        time: Time { hour: 22, minute: 0, second: 0, nanos: 0 },
    };
    let cal = Delta::Calendar(CalendarDelta { months: 1, days: 0 });
    assert_eq!(
        naive_datetime::shift_delta(d, cal, false),
        Ok(DateTime {
            date: Date { year: 2020, month: 2, day: 29 },
            time: Time { hour: 22, minute: 0, second: 0, nanos: 0 },
        })
    );
    assert_eq!(
        naive_datetime::shift_delta(d, cal, true),
        Ok(DateTime {
            date: Date { year: 2019, month: 12, day: 31 },
            time: Time { hour: 22, minute: 0, second: 0, nanos: 0 },
        })
    );
    let exact = Delta::Exact(ExactDelta { nanos: 3 * 3_600_000_000_000 });
    assert_eq!(
        naive_datetime::shift_delta(d, exact, false),
        Ok(DateTime {
            date: Date { year: 2020, month: 2, day: 1 },
            time: Time { hour: 1, minute: 0, second: 0, nanos: 0 },
        })
    );
    let comp = Delta::Composite(CompositeDelta {
        calendar: CalendarDelta { months: 1, days: 0 },
        exact: ExactDelta { nanos: 3 * 3_600_000_000_000 },
    });
    assert_eq!(
        naive_datetime::shift_delta(d, comp, false),
        Ok(DateTime {
            date: Date { year: 2020, month: 3, day: 1 },
            time: Time { hour: 1, minute: 0, second: 0, nanos: 0 },
        })
    );
    let max = DateTime::max_value();
    assert_eq!(
        naive_datetime::shift_delta(max, cal, false),
        Err(Error::OutOfRange)
    );
}

#[test]
fn test_datetime_order() {
    let a = DateTime {
        date: Date { year: 2023, month: 3, day: 2 },
        time: Time { hour: 2, minute: 9, second: 9, nanos: 0 },
    };
    let b = DateTime {
        date: Date { year: 2023, month: 3, day: 2 },
        time: Time { hour: 2, minute: 9, second: 9, nanos: 1 },
    };
    let c = DateTime {
        date: Date { year: 2023, month: 3, day: 3 },
        time: Time { hour: 0, minute: 0, second: 0, nanos: 0 },
    };
    assert!(a.lt(b));
    assert!(b.lt(c));
    assert!(!c.lt(a));
    assert!(!a.lt(a));
}
