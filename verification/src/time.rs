//! Points in time and calendar months, held as plain civil fields in UTC.

use vstd::prelude::*;
use chrono::{Datelike, Timelike};

verus! {

/// A calendar month: the key under which aggregates are bucketed.
#[derive(Clone, Copy, Debug, PartialEq, Eq, Structural, PartialOrd, Ord, Hash)]
pub struct CalendarMonth {
    pub year: i32,
    pub month: u8,
}

/// A point in time: a civil date in UTC, the second of that day and the
/// nanosecond of that second. The fields are ordered from the most to the
/// least significant, so the derived order is the order in time.
#[derive(Clone, Copy, Debug, PartialEq, Eq, Structural, PartialOrd, Ord, Hash)]
pub struct Timestamp {
    year: i32,
    month: u8,
    day: u8,
    second: u32,
    nanosecond: u32,
}

/// The civil fields of a point in time.
pub struct Instant {
    pub year: int,
    pub month: int,
    pub day: int,
    pub second: int,
    pub nanosecond: int,
}

/// Whether `year` is a leap year of the Gregorian calendar.
pub open spec fn is_leap_year(year: int) -> bool {
    year % 4 == 0 && (year % 100 != 0 || year % 400 == 0)
}

/// The number of days of a month, or 0 where `month` is no month.
pub open spec fn days_in_month(year: int, month: int) -> int {
    if month == 2 {
        if is_leap_year(year) {
            29
        } else {
            28
        }
    } else if month == 4 || month == 6 || month == 9 || month == 11 {
        30
    } else if 1 <= month <= 12 {
        31
    } else {
        0
    }
}

/// Whether the three numbers name a day of the Gregorian calendar.
pub open spec fn valid_date(year: int, month: int, day: int) -> bool {
    1 <= month <= 12 && 1 <= day <= days_in_month(year, month)
}

impl Instant {
    /// Whether the fields name a day of the calendar and a moment within it.
    /// A nanosecond of one thousand million or more stands for a leap second.
    pub open spec fn valid(self) -> bool {
        &&& valid_date(self.year, self.month, self.day)
        &&& 0 <= self.second < 86_400
        &&& 0 <= self.nanosecond < 2_000_000_000
    }

    /// A number that grows with time: the fields packed from the most to the
    /// least significant.
    pub open spec fn ordinal(self) -> int {
        (((self.year * 256 + self.month) * 256 + self.day) * 0x1_0000_0000 + self.second)
            * 0x1_0000_0000 + self.nanosecond
    }

    /// Whether `self` comes before `other`, field by field.
    pub open spec fn before(self, other: Instant) -> bool {
        self.year < other.year || (self.year == other.year && (self.month < other.month || (
        self.month == other.month && (self.day < other.day || (self.day == other.day && (self.second
            < other.second || (self.second == other.second && self.nanosecond
            < other.nanosecond)))))))
    }
}

/// Reads the clock through `chrono::Utc::now` and takes the reading apart
/// with `year`, `month`, `day`, `num_seconds_from_midnight` and `nanosecond`.
/// Whatever the time is, the date is one of the calendar, the second lies
/// within a day, and the nanosecond is below two thousand million.
#[verifier::external_body]
fn clock_reading() -> (r: (i32, u32, u32, u32, u32))
    ensures
        valid_date(r.0 as int, r.1 as int, r.2 as int),
        r.3 < 86_400,
        r.4 < 2_000_000_000,
{
    let now = chrono::Utc::now();
    (now.year(), now.month(), now.day(), now.num_seconds_from_midnight(), now.nanosecond())
}

impl CalendarMonth {
    /// The month `month` of `year`, where `month` is one of 1 to 12.
    pub fn new(year: i32, month: u8) -> (r: Option<CalendarMonth>)
        ensures
            r == if 1 <= month <= 12 {
                Some(CalendarMonth { year, month })
            } else {
                None
            },
    {
        if 1 <= month && month <= 12 {
            Some(CalendarMonth { year, month })
        } else {
            None
        }
    }
}

impl Timestamp {
    /// The civil fields of this point in time.
    pub closed spec fn view(&self) -> Instant {
        Instant {
            year: self.year as int,
            month: self.month as int,
            day: self.day as int,
            second: self.second as int,
            nanosecond: self.nanosecond as int,
        }
    }

    /// The month that this point in time falls in.
    pub open spec fn month_of(self) -> CalendarMonth {
        CalendarMonth { year: self@.year as i32, month: self@.month as u8 }
    }

    /// The point in time with the given fields, where they name one.
    pub fn new(year: i32, month: u8, day: u8, second: u32, nanosecond: u32) -> (r: Option<
        Timestamp,
    >)
        ensures
            r is Some <==> (Instant {
                year: year as int,
                month: month as int,
                day: day as int,
                second: second as int,
                nanosecond: nanosecond as int,
            }).valid(),
            r matches Some(t) ==> t@ == (Instant {
                year: year as int,
                month: month as int,
                day: day as int,
                second: second as int,
                nanosecond: nanosecond as int,
            }),
    {
        if month < 1 || month > 12 || day < 1 || second >= 86_400 || nanosecond >= 2_000_000_000 {
            return None;
        }
        let leap = year % 4 == 0 && (year % 100 != 0 || year % 400 == 0);
        let days: u8 = if month == 2 {
            if leap {
                29
            } else {
                28
            }
        } else if month == 4 || month == 6 || month == 9 || month == 11 {
            30
        } else {
            31
        };
        if day > days {
            return None;
        }
        Some(Timestamp { year, month, day, second, nanosecond })
    }

    /// Midnight at the start of the given day, where it is one of the
    /// calendar.
    pub fn midnight(year: i32, month: u8, day: u8) -> (r: Option<Timestamp>)
        ensures
            r is Some <==> valid_date(year as int, month as int, day as int),
            r matches Some(t) ==> t@ == (Instant {
                year: year as int,
                month: month as int,
                day: day as int,
                second: 0,
                nanosecond: 0,
            }),
    {
        Timestamp::new(year, month, day, 0, 0)
    }

    /// The present moment. Nothing is known of it but that it is a moment of
    /// the calendar.
    pub fn now() -> (r: Timestamp)
        ensures
            r@.valid(),
    {
        let (year, month, day, second, nanosecond) = clock_reading();
        Timestamp { year, month: month as u8, day: day as u8, second, nanosecond }
    }

    pub fn year(&self) -> (r: i32)
        ensures
            r == self@.year,
    {
        self.year
    }

    pub fn month(&self) -> (r: u8)
        ensures
            r == self@.month,
    {
        self.month
    }

    pub fn day(&self) -> (r: u8)
        ensures
            r == self@.day,
    {
        self.day
    }

    /// The second of the day.
    pub fn second(&self) -> (r: u32)
        ensures
            r == self@.second,
    {
        self.second
    }

    pub fn nanosecond(&self) -> (r: u32)
        ensures
            r == self@.nanosecond,
    {
        self.nanosecond
    }

    /// The month that this point in time falls in.
    pub fn calendar_month(&self) -> (r: CalendarMonth)
        ensures
            r == self.month_of(),
    {
        CalendarMonth { year: self.year, month: self.month }
    }

    /// The fields packed into one number that grows with time.
    pub fn ordinal(&self) -> (r: i128)
        ensures
            r == self@.ordinal(),
    {
        let year: i128 = self.year as i128;
        let month: i128 = self.month as i128;
        let day: i128 = self.day as i128;
        let second: i128 = self.second as i128;
        let nanosecond: i128 = self.nanosecond as i128;
        let days: i128 = (year * 256 + month) * 256 + day;
        (days * 0x1_0000_0000 + second) * 0x1_0000_0000 + nanosecond
    }

    /// Whether `self` is not later than `other`.
    pub fn not_after(&self, other: &Timestamp) -> (r: bool)
        ensures
            r == (self@.ordinal() <= other@.ordinal()),
    {
        self.ordinal() <= other.ordinal()
    }
}

/// Two numbers, each packed from a high part and a low part that is below
/// `base`, stand as their high parts do, and as their low parts where the
/// high parts agree.
proof fn lemma_packed_order(high_a: int, low_a: int, high_b: int, low_b: int, base: int)
    requires
        base > 0,
        0 <= low_a < base,
        0 <= low_b < base,
    ensures
        high_a * base + low_a < high_b * base + low_b <==> high_a < high_b || (high_a == high_b
            && low_a < low_b),
        high_a * base + low_a == high_b * base + low_b <==> high_a == high_b && low_a == low_b,
{
    assert(high_a < high_b ==> high_a * base + base <= high_b * base) by (nonlinear_arith)
        requires
            base > 0,
    ;
    assert(high_b < high_a ==> high_b * base + base <= high_a * base) by (nonlinear_arith)
        requires
            base > 0,
    ;
}

/// The packed number orders points in time as their fields do, read from
/// the year down to the nanosecond.
pub proof fn lemma_ordinal_orders_by_fields(a: Timestamp, b: Timestamp)
    ensures
        a@.ordinal() < b@.ordinal() <==> a@.before(b@),
        a@.ordinal() == b@.ordinal() <==> a == b,
{
    let x = a@;
    let y = b@;
    assert(0 <= x.month < 256 && 0 <= x.day < 256 && 0 <= y.month < 256 && 0 <= y.day < 256);
    assert(0 <= x.second < 0x1_0000_0000 && 0 <= x.nanosecond < 0x1_0000_0000);
    assert(0 <= y.second < 0x1_0000_0000 && 0 <= y.nanosecond < 0x1_0000_0000);
    let months_x = x.year * 256 + x.month;
    let months_y = y.year * 256 + y.month;
    let days_x = months_x * 256 + x.day;
    let days_y = months_y * 256 + y.day;
    let seconds_x = days_x * 0x1_0000_0000 + x.second;
    let seconds_y = days_y * 0x1_0000_0000 + y.second;
    lemma_packed_order(x.year, x.month, y.year, y.month, 256);
    lemma_packed_order(months_x, x.day, months_y, y.day, 256);
    lemma_packed_order(days_x, x.second, days_y, y.second, 0x1_0000_0000);
    lemma_packed_order(seconds_x, x.nanosecond, seconds_y, y.nanosecond, 0x1_0000_0000);
    assert(x.ordinal() == seconds_x * 0x1_0000_0000 + x.nanosecond);
    assert(y.ordinal() == seconds_y * 0x1_0000_0000 + y.nanosecond);
    if x.ordinal() == y.ordinal() {
        assert(a.year == b.year && a.month == b.month && a.day == b.day && a.second == b.second
            && a.nanosecond == b.nanosecond);
    }
}

impl From<Timestamp> for CalendarMonth {
    fn from(t: Timestamp) -> (r: CalendarMonth) {
        t.calendar_month()
    }
}

impl vstd::std_specs::convert::FromSpecImpl<Timestamp> for CalendarMonth {
    open spec fn obeys_from_spec() -> bool {
        true
    }

    open spec fn from_spec(t: Timestamp) -> CalendarMonth {
        t.month_of()
    }
}

} // verus!
