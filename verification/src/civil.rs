//! Civil (wall-clock) date-times and the boundary to calendar arithmetic.
//!
//! A [`Civil`] value is a plain Gregorian calendar date with a wall-clock
//! time, no offset attached. The library does all of its reasoning on these
//! plain fields; converting between a civil representation and a Unix instant
//! is Gregorian calendar arithmetic, which is delegated to the `time` crate
//! behind the two trusted wrappers at the bottom of this module.

use vstd::prelude::*;

use time::{Date, Month, OffsetDateTime, Time, UtcOffset};

verus! {

/// A wall-clock date and time in the proleptic Gregorian calendar,
/// with no offset attached.
#[derive(Clone, Copy, Debug, PartialEq, Eq, Structural)]
pub struct Civil {
    pub year: i32,
    pub month: u8,
    pub day: u8,
    pub hour: u8,
    pub minute: u8,
    pub second: u8,
}

/// The smallest Unix timestamp whose UTC calendar year is representable
/// (midnight, January 1st of year -9999).
pub const UNIX_MIN: i64 = -377705116800;

/// The largest Unix timestamp whose UTC calendar year is representable
/// (the last second of year 9999).
pub const UNIX_MAX: i64 = 253402300799;

/// The widest UTC offset the calendar arithmetic accepts, in seconds
/// (just under 26 hours either way).
pub const OFFSET_MAX: i32 = 93599;

/// A leap year in the proleptic Gregorian calendar.
pub open spec fn is_leap_year(y: int) -> bool {
    (y % 4 == 0 && y % 100 != 0) || y % 400 == 0
}

/// How many days the given month of the given year has.
pub open spec fn days_in_month(y: int, m: int) -> int {
    if m == 2 {
        if is_leap_year(y) {
            29
        } else {
            28
        }
    } else if m == 4 || m == 6 || m == 9 || m == 11 {
        30
    } else {
        31
    }
}

/// The calendar date of `c` exists and its year is representable.
pub open spec fn valid_date(c: Civil) -> bool {
    &&& -9999 <= c.year <= 9999
    &&& 1 <= c.month <= 12
    &&& 1 <= c.day <= days_in_month(c.year as int, c.month as int)
}

/// The wall-clock time of `c` is a real time of day.
pub open spec fn valid_time(c: Civil) -> bool {
    c.hour < 24 && c.minute < 60 && c.second < 60
}

/// `c` is a well-formed wall-clock date-time.
pub open spec fn valid_civil(c: Civil) -> bool {
    valid_date(c) && valid_time(c)
}

/// The wall-clock time of `c` as seconds since its day's midnight.
pub open spec fn tod_seconds(c: Civil) -> int {
    c.hour * 3600 + c.minute * 60 + c.second
}

/// The fields of `c` as a tuple of integers, in most-significant-first order.
pub open spec fn civil_fields(c: Civil) -> (int, int, int, int, int, int) {
    (c.year as int, c.month as int, c.day as int, c.hour as int, c.minute as int, c.second as int)
}

/// Lexicographic order on field tuples. For two wall clocks read in the same
/// offset this is exactly the order of the instants they denote.
pub open spec fn fields_le(a: (int, int, int, int, int, int), b: (int, int, int, int, int, int)) -> bool {
    if a.0 != b.0 {
        a.0 < b.0
    } else if a.1 != b.1 {
        a.1 < b.1
    } else if a.2 != b.2 {
        a.2 < b.2
    } else if a.3 != b.3 {
        a.3 < b.3
    } else if a.4 != b.4 {
        a.4 < b.4
    } else {
        a.5 <= b.5
    }
}

/// Wall-clock order on civil values.
pub open spec fn wall_le(a: Civil, b: Civil) -> bool {
    fields_le(civil_fields(a), civil_fields(b))
}

/// The two civil values name the same calendar day.
pub open spec fn same_date(a: Civil, b: Civil) -> bool {
    a.year == b.year && a.month == b.month && a.day == b.day
}

/// `c` with its wall-clock time replaced by `tod` seconds after midnight.
pub open spec fn with_tod(c: Civil, tod: int) -> Civil {
    Civil {
        year: c.year,
        month: c.month,
        day: c.day,
        hour: (tod / 3600) as u8,
        minute: ((tod / 60) % 60) as u8,
        second: (tod % 60) as u8,
    }
}

/// Decide whether a non-negative year is a leap year.
pub fn leap_year(y: i32) -> (r: bool)
    requires
        y >= 0,
    ensures
        r == is_leap_year(y as int),
{
    (y % 4 == 0 && y % 100 != 0) || y % 400 == 0
}

/// The number of days in a month of a non-negative year.
pub fn month_length(y: i32, m: u8) -> (r: u8)
    requires
        y >= 0,
        1 <= m <= 12,
    ensures
        r as int == days_in_month(y as int, m as int),
{
    if m == 2 {
        if leap_year(y) {
            29
        } else {
            28
        }
    } else if m == 4 || m == 6 || m == 9 || m == 11 {
        30
    } else {
        31
    }
}

/// Decide `wall_le` on two civil values.
pub fn wall_cmp_le(a: &Civil, b: &Civil) -> (r: bool)
    ensures
        r == wall_le(*a, *b),
{
    if a.year != b.year {
        a.year < b.year
    } else if a.month != b.month {
        a.month < b.month
    } else if a.day != b.day {
        a.day < b.day
    } else if a.hour != b.hour {
        a.hour < b.hour
    } else if a.minute != b.minute {
        a.minute < b.minute
    } else {
        a.second <= b.second
    }
}

/// Replace the wall-clock time of `c` by `tod` seconds after midnight.
pub fn set_tod(c: &Civil, tod: u32) -> (r: Civil)
    requires
        tod < 86400,
    ensures
        r == with_tod(*c, tod as int),
        valid_time(r),
        valid_date(*c) ==> valid_civil(r),
{
    let hour: u32 = tod / 3600;
    let minute: u32 = (tod / 60) % 60;
    let second: u32 = tod % 60;
    Civil {
        year: c.year,
        month: c.month,
        day: c.day,
        hour: hour as u8,
        minute: minute as u8,
        second: second as u8,
    }
}


/// Splitting a time of day into hours, minutes and seconds and reading it
/// back gives the same time of day.
pub proof fn lemma_tod_roundtrip(t: int)
    requires
        0 <= t < 86400,
    ensures
        3600 * (t / 3600) + 60 * ((t / 60) % 60) + t % 60 == t,
        tod_seconds(with_tod(Civil { year: 0, month: 1, day: 1, hour: 0, minute: 0, second: 0 }, t)) == t,
{
    vstd::arithmetic::div_mod::lemma_fundamental_div_mod(t, 3600);
    let a = t / 3600;
    let r = t % 3600;
    assert(t == 3600 * a + r);
    assert(t / 60 == 60 * a + r / 60) by (nonlinear_arith)
        requires
            t == 3600 * a + r,
            0 <= r < 3600,
    ;
    assert((60 * a + r / 60) % 60 == r / 60) by (nonlinear_arith)
        requires
            0 <= r / 60 < 60,
            a >= 0,
    ;
    assert(t % 60 == r % 60) by (nonlinear_arith)
        requires
            t == 3600 * a + r,
            0 <= r < 3600,
            a >= 0,
    ;
    vstd::arithmetic::div_mod::lemma_fundamental_div_mod(r, 60);
}

/// Replacing the wall-clock time of one day by two different times of day
/// gives two different wall clocks.
pub proof fn lemma_with_tod_injective(date: Civil, t1: int, t2: int)
    requires
        0 <= t1 < 86400,
        0 <= t2 < 86400,
        t1 != t2,
    ensures
        with_tod(date, t1) != with_tod(date, t2),
{
    lemma_tod_roundtrip(t1);
    lemma_tod_roundtrip(t2);
    assert(tod_seconds(with_tod(date, t1)) == t1);
    assert(tod_seconds(with_tod(date, t2)) == t2);
}

/// Replacing the wall-clock time of one day respects the order of the
/// times of day: the wall clocks compare as the seconds do.
pub proof fn lemma_with_tod_order(date: Civil, t1: int, t2: int)
    requires
        0 <= t1 <= t2 < 86400,
    ensures
        wall_le(with_tod(date, t1), with_tod(date, t2)),
{
    lemma_tod_roundtrip(t1);
    lemma_tod_roundtrip(t2);
    let c1 = with_tod(date, t1);
    let c2 = with_tod(date, t2);
    assert(tod_seconds(c1) == t1);
    assert(tod_seconds(c2) == t2);
    if c1.hour == c2.hour && c1.minute == c2.minute {
        assert(c1.second <= c2.second);
    } else if c1.hour == c2.hour {
        assert(c1.minute < c2.minute || c1.minute > c2.minute);
        if c1.minute > c2.minute {
            assert(60 * c1.minute + c1.second > 60 * c2.minute + c2.second);
            assert(false);
        }
    } else {
        if c1.hour > c2.hour {
            assert(3600 * c1.hour + 60 * c1.minute + c1.second > 3600 * c2.hour + 60 * c2.minute
                + c2.second);
            assert(false);
        }
    }
}

/// The Unix instant (seconds since the epoch) at which the given civil
/// fields are read on a UTC clock. Gregorian calendar arithmetic; its value
/// is fixed by the `time` crate and never restated here.
pub uninterp spec fn unix_of(y: int, mo: int, d: int, h: int, mi: int, s: int) -> int;

/// The civil fields shown on a UTC clock at Unix instant `t`. The inverse
/// direction of the calendar arithmetic, likewise left to the `time` crate.
pub uninterp spec fn civil_of(t: int) -> (int, int, int, int, int, int);

/// Relies on `time::Date::from_calendar_date`, `Time::from_hms`,
/// `UtcOffset::from_whole_seconds`, `PrimitiveDateTime::assume_offset` and
/// `OffsetDateTime::unix_timestamp`: reading the civil fields in the given
/// offset and returning the Unix instant, which succeeds exactly on real
/// calendar dates and times within the supported year and offset ranges.
/// The range clauses restate those spans: the supported years cover
/// `UNIX_MIN..=UNIX_MAX` on a UTC clock, and a year at least a century
/// inside either edge keeps the instant three billion seconds inside them.
#[verifier::external_body]
pub fn civil_to_unix(c: &Civil, offset_seconds: i32) -> (r: Option<i64>)
    ensures
        valid_civil(*c) && -OFFSET_MAX <= offset_seconds <= OFFSET_MAX ==> r is Some,
        !(valid_civil(*c) && -OFFSET_MAX <= offset_seconds <= OFFSET_MAX) ==> r is None,
        r matches Some(t) ==> t == unix_of(c.year as int, c.month as int, c.day as int, c.hour as int, c.minute as int, c.second as int) - offset_seconds,
        r matches Some(t) ==> UNIX_MIN - OFFSET_MAX <= t <= UNIX_MAX + OFFSET_MAX,
        r matches Some(t) ==> (-9899 <= c.year <= 9899 ==> UNIX_MIN + 3000000000 <= t + offset_seconds <= UNIX_MAX - 3000000000),
{
    let month = Month::try_from(c.month).ok()?;
    let date = Date::from_calendar_date(c.year, month, c.day).ok()?;
    let tod = Time::from_hms(c.hour, c.minute, c.second).ok()?;
    let off = UtcOffset::from_whole_seconds(offset_seconds).ok()?;
    Some(date.with_time(tod).assume_offset(off).unix_timestamp())
}

/// Relies on `time::OffsetDateTime::from_unix_timestamp`,
/// `checked_to_offset` and the component accessors: showing the Unix instant
/// `t` on a clock at the given offset, total on instants comfortably inside
/// the supported year range, and always a real calendar date and time.
#[verifier::external_body]
pub fn unix_to_civil(t: i64, offset_seconds: i32) -> (r: Option<Civil>)
    ensures
        UNIX_MIN + 200000 <= t <= UNIX_MAX - 200000 && -OFFSET_MAX <= offset_seconds <= OFFSET_MAX ==> r is Some,
        t < UNIX_MIN || t > UNIX_MAX || offset_seconds < -OFFSET_MAX || offset_seconds > OFFSET_MAX ==> r is None,
        r matches Some(c) ==> civil_fields(c) == civil_of(t + offset_seconds as int),
        r matches Some(c) ==> valid_civil(c),
{
    let off = UtcOffset::from_whole_seconds(offset_seconds).ok()?;
    let local = OffsetDateTime::from_unix_timestamp(t).ok()?.checked_to_offset(off)?;
    Some(Civil {
        year: local.year(),
        month: local.month() as u8,
        day: local.day(),
        hour: local.hour(),
        minute: local.minute(),
        second: local.second(),
    })
}

} // verus!
