use budget_lib::{CalendarMonth, Timestamp};

#[test]
fn timestamp_of_valid_fields() {
    let t = Timestamp::new(2024, 3, 15, 3_600, 7).unwrap();
    assert_eq!(t.year(), 2024);
    assert_eq!(t.month(), 3);
    assert_eq!(t.day(), 15);
    assert_eq!(t.second(), 3_600);
    assert_eq!(t.nanosecond(), 7);
    assert_eq!(t.calendar_month(), CalendarMonth { year: 2024, month: 3 });
    assert_eq!(CalendarMonth::from(t), CalendarMonth { year: 2024, month: 3 });
}

#[test]
fn timestamp_refuses_what_is_no_moment() {
    assert!(Timestamp::new(2024, 0, 1, 0, 0).is_none());
    assert!(Timestamp::new(2024, 13, 1, 0, 0).is_none());
    assert!(Timestamp::new(2024, 1, 0, 0, 0).is_none());
    assert!(Timestamp::new(2024, 1, 32, 0, 0).is_none());
    assert!(Timestamp::new(2024, 4, 31, 0, 0).is_none());
    assert!(Timestamp::new(2024, 1, 1, 86_400, 0).is_none());
    assert!(Timestamp::new(2024, 1, 1, 0, 2_000_000_000).is_none());
    assert!(Timestamp::new(2024, 1, 1, 86_399, 1_999_999_999).is_some());
}

#[test]
fn february_follows_the_leap_years() {
    assert!(Timestamp::midnight(2024, 2, 29).is_some());
    assert!(Timestamp::midnight(2023, 2, 29).is_none());
    assert!(Timestamp::midnight(1900, 2, 29).is_none());
    assert!(Timestamp::midnight(2000, 2, 29).is_some());
    assert!(Timestamp::midnight(2023, 2, 28).is_some());
    assert!(Timestamp::midnight(-4, 2, 29).is_some());
}

#[test]
fn ordinal_packs_the_fields() {
    let t = Timestamp::new(1, 2, 3, 4, 5).unwrap();
    let expected: i128 = (((1i128 * 256 + 2) * 256 + 3) * 4_294_967_296 + 4) * 4_294_967_296 + 5;
    assert_eq!(t.ordinal(), expected);
}

#[test]
fn timestamps_are_ordered_in_time() {
    let a = Timestamp::new(2024, 3, 1, 0, 0).unwrap();
    let b = Timestamp::new(2024, 3, 1, 0, 1).unwrap();
    let c = Timestamp::new(2024, 3, 2, 0, 0).unwrap();
    let d = Timestamp::new(2025, 1, 1, 0, 0).unwrap();
    let e = Timestamp::new(-1, 12, 31, 86_399, 0).unwrap();
    assert!(a.not_after(&a));
    assert!(a.not_after(&b) && !b.not_after(&a));
    assert!(b.not_after(&c) && !c.not_after(&b));
    assert!(c.not_after(&d) && !d.not_after(&c));
    assert!(e.not_after(&a) && !a.not_after(&e));
    assert!(a < b && b < c && c < d && e < a);
    assert!(a.ordinal() < b.ordinal());
}

#[test]
fn now_is_a_moment_of_the_calendar() {
    let t = Timestamp::now();
    assert!(t.year() >= 2024);
    assert!(Timestamp::new(t.year(), t.month(), t.day(), t.second(), t.nanosecond()) == Some(t));
}

#[test]
fn calendar_month_of_valid_fields() {
    assert_eq!(CalendarMonth::new(2024, 3), Some(CalendarMonth { year: 2024, month: 3 }));
    assert_eq!(CalendarMonth::new(2024, 0), None);
    assert_eq!(CalendarMonth::new(2024, 13), None);
}
