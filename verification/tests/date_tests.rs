use whenever::date::Date;
use whenever::delta::CalendarDelta;

#[test]
fn test_check_date_valid() {
    assert_eq!(
        Date::new(2021, 1, 1),
        Some(Date { year: 2021, month: 1, day: 1 })
    );
    assert_eq!(
        Date::new(2021, 12, 31),
        Some(Date { year: 2021, month: 12, day: 31 })
    );
    assert_eq!(
        Date::new(2021, 2, 28),
        Some(Date { year: 2021, month: 2, day: 28 })
    );
    assert_eq!(
        Date::new(2020, 2, 29),
        Some(Date { year: 2020, month: 2, day: 29 })
    );
    assert_eq!(
        Date::new(2021, 4, 30),
        Some(Date { year: 2021, month: 4, day: 30 })
    );
    assert_eq!(
        Date::new(2000, 2, 29),
        Some(Date { year: 2000, month: 2, day: 29 })
    );
    assert_eq!(
        Date::new(1900, 2, 28),
        Some(Date { year: 1900, month: 2, day: 28 })
    );
}

#[test]
fn test_check_date_invalid_year() {
    assert_eq!(Date::new(0, 1, 1), None);
    assert_eq!(Date::new(10_000, 1, 1), None);
}

#[test]
fn test_check_date_invalid_month() {
    assert_eq!(Date::new(2021, 0, 1), None);
    assert_eq!(Date::new(2021, 13, 1), None);
}

#[test]
fn test_check_date_invalid_day() {
    assert_eq!(Date::new(2021, 1, 0), None);
    assert_eq!(Date::new(2021, 1, 32), None);
    assert_eq!(Date::new(2021, 4, 31), None);
    assert_eq!(Date::new(2021, 2, 29), None);
    assert_eq!(Date::new(2020, 2, 30), None);
    assert_eq!(Date::new(2000, 2, 30), None);
    assert_eq!(Date::new(1900, 2, 29), None);
}

#[test]
fn test_ord_to_ymd() {
    assert_eq!(Date::from_ord_unchecked(1), Date::new(1, 1, 1).unwrap());
    assert_eq!(Date::from_ord_unchecked(365), Date::new(1, 12, 31).unwrap());
    assert_eq!(Date::from_ord_unchecked(366), Date::new(2, 1, 1).unwrap());
    assert_eq!(Date::from_ord_unchecked(1_000), Date::new(3, 9, 27).unwrap());
    assert_eq!(
        Date::from_ord_unchecked(1_000_000),
        Date::new(2738, 11, 28).unwrap()
    );
    assert_eq!(
        Date::from_ord_unchecked(730179),
        Date::new(2000, 2, 29).unwrap()
    );
    assert_eq!(
        Date::from_ord_unchecked(730180),
        Date::new(2000, 3, 1).unwrap()
    );
    assert_eq!(
        Date::from_ord_unchecked(3_652_059),
        Date::new(9999, 12, 31).unwrap()
    );
}

#[test]
fn test_ord_ymd_reversible() {
    for ord in 1..=(366 * 4) {
        let date = Date::from_ord_unchecked(ord);
        assert_eq!(ord, date.ord());
    }
}

#[test]
fn test_ordinal_round_trip_full_range() {
    // Every ordinal in [1, 3_652_059] maps to a date and back exactly.
    for ord in 1..=3_652_059u32 {
        assert_eq!(Date::from_ord_unchecked(ord).ord(), ord);
    }
    assert_eq!(Date::min_value().ord(), 1);
    assert_eq!(Date::max_value().ord(), 3_652_059);
}

#[test]
fn test_from_ord_range() {
    assert_eq!(Date::from_ord(0), None);
    assert_eq!(Date::from_ord(-5), None);
    assert_eq!(Date::from_ord(3_652_060), None);
    assert_eq!(Date::from_ord(1), Date::new(1, 1, 1));
    assert_eq!(Date::from_ord(3_652_059), Date::new(9999, 12, 31));
}

#[test]
fn test_shift_months_clamping() {
    let d = Date::new(2021, 1, 31).unwrap();
    assert_eq!(d.shift_months(1), Date::new(2021, 2, 28));
    let d = Date::new(2020, 1, 31).unwrap();
    assert_eq!(d.shift_months(1), Date::new(2020, 2, 29));
    // Never rolls into March.
    let d = Date::new(2021, 3, 31).unwrap();
    assert_eq!(d.shift_months(-1), Date::new(2021, 2, 28));
    // Across year boundaries, both ways.
    let d = Date::new(2021, 1, 15).unwrap();
    assert_eq!(d.shift_months(-1), Date::new(2020, 12, 15));
    assert_eq!(d.shift_months(12), Date::new(2022, 1, 15));
}

#[test]
fn test_shift_months_out_of_range() {
    let d = Date::new(9999, 12, 15).unwrap();
    assert_eq!(d.shift_months(1), None);
    let d = Date::new(1, 1, 15).unwrap();
    assert_eq!(d.shift_months(-1), None);
}

#[test]
fn test_shift_days() {
    let d = Date::new(2021, 2, 28).unwrap();
    assert_eq!(d.shift_days(1), Date::new(2021, 3, 1));
    assert_eq!(d.shift_days(-28), Date::new(2021, 1, 31));
    assert_eq!(Date::new(9999, 12, 31).unwrap().shift_days(1), None);
    assert_eq!(Date::new(1, 1, 1).unwrap().shift_days(-1), None);
}

#[test]
fn test_shift_combined() {
    let d = Date::new(2020, 1, 31).unwrap();
    // Months before days: clamp to Feb 29, then move two days.
    assert_eq!(d.shift(0, 1, 2), Date::new(2020, 3, 2));
    assert_eq!(d.shift(1, 0, 0), Date::new(2021, 1, 31));
    assert_eq!(d.shift(-1, -1, 0), Date::new(2018, 12, 31));
}

#[test]
fn test_increment_decrement() {
    assert_eq!(
        Date::new(2022, 12, 31).unwrap().increment(),
        Date::new(2023, 1, 1).unwrap()
    );
    assert_eq!(
        Date::new(2023, 1, 1).unwrap().decrement(),
        Date::new(2022, 12, 31).unwrap()
    );
    assert_eq!(
        Date::new(2020, 2, 28).unwrap().increment(),
        Date::new(2020, 2, 29).unwrap()
    );
    assert_eq!(
        Date::new(2020, 3, 1).unwrap().decrement(),
        Date::new(2020, 2, 29).unwrap()
    );
}

fn apply_delta(base: Date, delta: CalendarDelta) -> Date {
    base.shift_months(delta.months)
        .unwrap()
        .shift_days(delta.days)
        .unwrap()
}

#[test]
fn test_date_diff_round_trip() {
    let cases = [
        ((2021, 2, 28), (2021, 3, 15)),
        ((2021, 3, 15), (2021, 2, 28)),
        ((2020, 2, 29), (2021, 2, 28)),
        ((2021, 1, 31), (2021, 2, 28)),
        ((2021, 2, 28), (2021, 1, 31)),
        ((1, 1, 1), (9999, 12, 31)),
        ((9999, 12, 31), (1, 1, 1)),
        ((2023, 3, 2), (2023, 3, 2)),
        ((2024, 12, 31), (2023, 1, 1)),
    ];
    for ((ay, am, ad), (by, bm, bd)) in cases {
        let a = Date::new(ay, am, ad).unwrap();
        let b = Date::new(by, bm, bd).unwrap();
        let delta = a.diff(b);
        assert_eq!(apply_delta(b, delta), a, "{:?} - {:?} = {:?}", a, b, delta);
    }
}

#[test]
fn test_date_diff_values() {
    let a = Date::new(2021, 2, 28).unwrap();
    let b = Date::new(2021, 1, 31).unwrap();
    let d = a.diff(b);
    assert_eq!((d.months, d.days), (1, 0));
    let d = b.diff(a);
    assert_eq!((d.months, d.days), (0, -28));
}

#[test]
fn test_parse_date() {
    assert_eq!(Date::parse_all(b"2021-01-02"), Date::new(2021, 1, 2));
    assert_eq!(Date::parse_all(b"0001-01-01"), Date::new(1, 1, 1));
    assert_eq!(Date::parse_all(b"2021-1-2"), None);
    assert_eq!(Date::parse_all(b"2021/01/02"), None);
    assert_eq!(Date::parse_all(b"2021-01-2x"), None);
    assert_eq!(Date::parse_all(b"2021-02-29"), None);
    assert_eq!(Date::parse_all(b"2021-01-020"), None);
    assert_eq!(Date::parse_all(b""), None);
}

#[test]
fn test_format_date() {
    assert_eq!(
        Date::new(2021, 1, 2).unwrap().format_iso(),
        b"2021-01-02".to_vec()
    );
    assert_eq!(
        Date::new(1, 12, 31).unwrap().format_iso(),
        b"0001-12-31".to_vec()
    );
}

#[test]
fn test_day_of_week() {
    // 2023-03-02 was a Thursday.
    assert_eq!(Date::new(2023, 3, 2).unwrap().day_of_week(), 4);
    // 0001-01-01 is a Monday in the proleptic Gregorian calendar.
    assert_eq!(Date::new(1, 1, 1).unwrap().day_of_week(), 1);
}

#[test]
fn test_replace_date() {
    let d = Date::new(2021, 3, 31).unwrap();
    assert_eq!(d.replace(Some(2020), None, None), Date::new(2020, 3, 31));
    assert_eq!(d.replace(None, Some(4), None), None);
    assert_eq!(d.replace(None, Some(4), Some(30)), Date::new(2021, 4, 30));
    assert_eq!(d.replace(None, None, None), Some(d));
}

#[test]
fn test_from_longs() {
    assert_eq!(Date::from_longs(2021, 2, 28), Date::new(2021, 2, 28));
    assert_eq!(Date::from_longs(-1, 2, 28), None);
    assert_eq!(Date::from_longs(100_000, 1, 1), None);
    assert_eq!(Date::from_longs(2021, 2, 29), None);
}
