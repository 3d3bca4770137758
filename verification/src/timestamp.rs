use vstd::prelude::*;
use vstd::arithmetic::div_mod::{
    lemma_fundamental_div_mod, lemma_fundamental_div_mod_converse, lemma_mod_multiples_basic,
};
use chrono::{Datelike, Timelike};

verus! {

/// Why a calendar input was refused.
#[derive(PartialEq, Eq, Structural, Clone, Copy, Debug)]
pub enum TimestampError {
    /// The fields do not name a valid UTC instant at or after 1970-01-01.
    InvalidTimestamp,
}

/// Canonical timestamp: whole seconds since 1970-01-01T00:00:00Z, and the
/// sub-second part in nanoseconds.
#[derive(PartialEq, Eq, Structural, Clone, Copy, Debug)]
pub struct Timestamp {
    pub epoch_seconds: u64,
    pub nanoseconds: u32,
}

impl Timestamp {
    /// The sub-second part never reaches one full second.
    pub open spec fn wf(self) -> bool {
        self.nanoseconds < 1_000_000_000
    }
}

/// The millisecond count of a timestamp: floor of
/// `epoch_seconds * 1000 + nanoseconds / 1_000_000`, saturating at `u64::MAX`.
pub open spec fn millis_of(ts: Timestamp) -> int {
    let exact = ts.epoch_seconds as int * 1000 + ts.nanoseconds as int / 1_000_000;
    if exact > u64::MAX as int {
        u64::MAX as int
    } else {
        exact
    }
}

/// The millisecond value a UUID built for this timestamp carries, before
/// truncation to 48 bits: floor division of the nanoseconds, saturating
/// addition, never rounding to nearest and never wrapping.
pub fn to_uuid_timestamp_buildpart(ts: Timestamp) -> (r: u64)
    requires
        ts.wf(),
    ensures
        r == millis_of(ts),
{
    let sub: u64 = (ts.nanoseconds / 1_000_000) as u64;
    match ts.epoch_seconds.checked_mul(1000) {
        Some(m) => match m.checked_add(sub) {
            Some(r) => r,
            None => u64::MAX,
        },
        None => u64::MAX,
    }
}

/// A calendar date and time of day, UTC, with nanosecond resolution.
#[derive(PartialEq, Eq, Structural, Clone, Copy, Debug)]
pub struct CalendarTime {
    pub year: i32,
    pub month: u8,
    pub day: u8,
    pub hour: u8,
    pub minute: u8,
    pub second: u8,
    pub nanosecond: u32,
}

/// The Gregorian leap-year rule: every fourth year, except every hundredth,
/// except every four-hundredth.
pub open spec fn is_leap_year(y: int) -> bool {
    y % 4 == 0 && (y % 100 != 0 || y % 400 == 0)
}

pub open spec fn days_in_year(y: int) -> int {
    if is_leap_year(y) {
        366
    } else {
        365
    }
}

/// How many days month `m` of year `y` has.
pub open spec fn days_in_month(y: int, m: int) -> int {
    if m == 2 {
        if is_leap_year(y) {
            29
        } else {
            28
        }
    } else if m == 4 || m == 6 || m == 9 || m == 11 {
        30
    } else {
        31
    }
}

/// Days from 1970-01-01 to the first day of year `y`, counted year by year.
pub open spec fn days_before_year(y: int) -> int
    decreases y,
{
    if y <= 1970 {
        0
    } else {
        days_before_year(y - 1) + days_in_year(y - 1)
    }
}

/// Days from the first of the year to the first of month `m`, counted month
/// by month.
pub open spec fn days_before_month(y: int, m: int) -> int
    decreases m,
{
    if m <= 1 {
        0
    } else {
        days_before_month(y, m - 1) + days_in_month(y, m - 1)
    }
}

/// The day count of a calendar date, measured from 1970-01-01 as day zero.
pub open spec fn day_number(y: int, m: int, d: int) -> int {
    days_before_year(y) + days_before_month(y, m) + d - 1
}

/// The Unix second count of a calendar date and time of day.
pub open spec fn epoch_seconds_of(c: CalendarTime) -> int {
    day_number(c.year as int, c.month as int, c.day as int) * 86400 + c.hour as int * 3600
        + c.minute as int * 60 + c.second as int
}

/// The calendar fields name a real UTC instant at or after 1970-01-01.
pub open spec fn valid_calendar(c: CalendarTime) -> bool {
    &&& c.year >= 1970
    &&& 1 <= c.month <= 12
    &&& 1 <= c.day && c.day as int <= days_in_month(c.year as int, c.month as int)
    &&& c.hour <= 23
    &&& c.minute <= 59
    &&& c.second <= 59
    &&& c.nanosecond <= 999_999_999
}

/// Crossing one value down, a quotient by `k` drops by one exactly at the
/// multiples of `k`.
proof fn lemma_div_step(x: int, k: int)
    requires
        x >= 1,
        k >= 1,
    ensures
        x / k - (x - 1) / k == if x % k == 0 {
            1int
        } else {
            0int
        },
{
    let q = x / k;
    let r = x % k;
    lemma_fundamental_div_mod(x, k);
    if r == 0 {
        assert(x - 1 == k * (q - 1) + (k - 1)) by (nonlinear_arith)
            requires
                x == k * q + r,
                r == 0,
        ;
        lemma_fundamental_div_mod_converse(x - 1, k, q - 1, k - 1);
    } else {
        lemma_fundamental_div_mod_converse(x - 1, k, q, r - 1);
    }
}

/// A multiple of 400 is a multiple of 100.
proof fn lemma_mod_100_of_400(x: int)
    requires
        x % 400 == 0,
    ensures
        x % 100 == 0,
{
    let q = x / 400;
    lemma_fundamental_div_mod(x, 400);
    assert(x == (4 * q) * 100) by (nonlinear_arith)
        requires
            x == 400 * q,
    ;
    lemma_mod_multiples_basic(4 * q, 100);
}

/// A multiple of 100 is a multiple of 4.
proof fn lemma_mod_4_of_100(x: int)
    requires
        x % 100 == 0,
    ensures
        x % 4 == 0,
{
    let q = x / 100;
    lemma_fundamental_div_mod(x, 100);
    assert(x == (25 * q) * 4) by (nonlinear_arith)
        requires
            x == 100 * q,
    ;
    lemma_mod_multiples_basic(25 * q, 4);
}

/// The year-by-year day count from 1970 equals the closed form over floored
/// leap-year quotients that the executable code computes.
proof fn lemma_days_before_year_closed(y: int)
    requires
        y >= 1970,
    ensures
        days_before_year(y) == 365 * (y - 1970) + (y - 1) / 4 - (y - 1) / 100 + (y - 1) / 400
            - 477,
    decreases y,
{
    if y == 1970 {
        lemma_fundamental_div_mod_converse(1969, 4, 492, 1);
        lemma_fundamental_div_mod_converse(1969, 100, 19, 69);
        lemma_fundamental_div_mod_converse(1969, 400, 4, 369);
    } else {
        lemma_days_before_year_closed(y - 1);
        lemma_div_step(y - 1, 4);
        lemma_div_step(y - 1, 100);
        lemma_div_step(y - 1, 400);
        if (y - 1) % 400 == 0 {
            lemma_mod_100_of_400(y - 1);
            lemma_mod_4_of_100(y - 1);
        }
        if (y - 1) % 100 == 0 {
            lemma_mod_4_of_100(y - 1);
        }
    }
}

/// The day count never goes below zero.
proof fn lemma_days_before_year_nonneg(y: int)
    requires
        y >= 1970,
    ensures
        days_before_year(y) >= 0,
    decreases y,
{
    if y > 1970 {
        lemma_days_before_year_nonneg(y - 1);
    }
}

/// The day count grows by at most 366 a year.
proof fn lemma_days_before_year_bound(y: int)
    requires
        y >= 1970,
    ensures
        days_before_year(y) <= 366 * (y - 1970),
    decreases y,
{
    if y > 1970 {
        lemma_days_before_year_bound(y - 1);
    }
}

/// Whether year `y` is a Gregorian leap year.
pub fn leap_year(y: i32) -> (r: bool)
    requires
        y >= 1970,
    ensures
        r == is_leap_year(y as int),
{
    y % 4 == 0 && (y % 100 != 0 || y % 400 == 0)
}

/// How many days month `m` of year `y` has.
pub fn month_length(y: i32, m: u8) -> (r: u8)
    requires
        y >= 1970,
        1 <= m <= 12,
    ensures
        r == days_in_month(y as int, m as int),
        28 <= r <= 31,
{
    if m == 2 {
        if leap_year(y) {
            29
        } else {
            28
        }
    } else if m == 4 || m == 6 || m == 9 || m == 11 {
        30
    } else {
        31
    }
}

/// Days from the first of the year to the first of month `m`.
fn month_day_offset(y: i32, m: u8) -> (r: u16)
    requires
        y >= 1970,
        1 <= m <= 12,
    ensures
        r == days_before_month(y as int, m as int),
{
    let mut acc: u16 = 0;
    let mut i: u8 = 1;
    while i < m
        invariant
            1 <= i <= m,
            m <= 12,
            y >= 1970,
            acc == days_before_month(y as int, i as int),
            acc <= 31 * (i - 1),
        decreases m - i,
    {
        acc = acc + month_length(y, i) as u16;
        i = i + 1;
    }
    acc
}

/// Days from 1970-01-01 to the first day of year `y`, by the closed form.
fn year_day_offset(y: i32) -> (r: u64)
    requires
        y >= 1970,
    ensures
        r == days_before_year(y as int),
        r <= 366 * (y - 1970),
{
    proof {
        lemma_days_before_year_closed(y as int);
        lemma_days_before_year_nonneg(y as int);
        lemma_days_before_year_bound(y as int);
    }
    let yy: i64 = y as i64;
    let leaps: i64 = (yy - 1) / 4 - (yy - 1) / 100 + (yy - 1) / 400 - 477;
    let days: i64 = 365 * (yy - 1970) + leaps;
    days as u64
}

/// Normalize a UTC calendar timestamp to the canonical pair of epoch seconds
/// and nanoseconds. Succeeds exactly on the fields that name a real UTC
/// instant at or after 1970-01-01 — invalid dates, and dates this canonical
/// form cannot carry, are refused.
pub fn from_calendar(c: &CalendarTime) -> (r: Result<Timestamp, TimestampError>)
    ensures
        valid_calendar(*c) ==> r == Ok::<Timestamp, TimestampError>(Timestamp {
            epoch_seconds: epoch_seconds_of(*c) as u64,
            nanoseconds: c.nanosecond,
        }),
        !valid_calendar(*c) ==> r == Err::<Timestamp, TimestampError>(
            TimestampError::InvalidTimestamp,
        ),
        r matches Ok(ts) ==> ts.wf() && ts.epoch_seconds == epoch_seconds_of(*c)
            && ts.nanoseconds == c.nanosecond,
{
    if c.year < 1970 || c.month < 1 || c.month > 12 {
        return Err(TimestampError::InvalidTimestamp);
    }
    let dim = month_length(c.year, c.month);
    if c.day < 1 || c.day > dim || c.hour > 23 || c.minute > 59 || c.second > 59
        || c.nanosecond > 999_999_999 {
        return Err(TimestampError::InvalidTimestamp);
    }
    let ydays: u64 = year_day_offset(c.year);
    let mdays: u64 = month_day_offset(c.year, c.month) as u64;
    let days: u64 = ydays + mdays + (c.day as u64) - 1;
    let secs: u64 = days * 86400 + (c.hour as u64) * 3600 + (c.minute as u64) * 60 + (
    c.second as u64);
    Ok(Timestamp { epoch_seconds: secs, nanoseconds: c.nanosecond })
}

/// Resolve a UTC offset: the canonical instant that a wall clock standing
/// `offset_minutes` east of UTC reads as `ts`. `None` exactly when the
/// shifted second count leaves what the canonical form can carry.
pub fn apply_utc_offset(ts: &Timestamp, offset_minutes: i32) -> (r: Option<Timestamp>)
    requires
        ts.wf(),
    ensures
        r matches Some(t) ==> t.wf() && t.nanoseconds == ts.nanoseconds
            && t.epoch_seconds as int == ts.epoch_seconds as int - offset_minutes as int * 60,
        r is None <==> !(0 <= ts.epoch_seconds as int - offset_minutes as int * 60
            <= u64::MAX as int),
{
    let shift: i64 = (offset_minutes as i64) * 60;
    if shift >= 0 {
        let s = shift as u64;
        if ts.epoch_seconds >= s {
            Some(Timestamp { epoch_seconds: ts.epoch_seconds - s, nanoseconds: ts.nanoseconds })
        } else {
            None
        }
    } else {
        let s = (-shift) as u64;
        match ts.epoch_seconds.checked_add(s) {
            Some(e) => Some(Timestamp { epoch_seconds: e, nanoseconds: ts.nanoseconds }),
            None => None,
        }
    }
}

/// Relies on chrono's `DateTime::<Utc>::from_timestamp` and its calendar
/// field accessors: the result is the proleptic-Gregorian UTC calendar date
/// and time of day whose Unix second count is the argument, and chrono
/// documents that every instant within about 262,000 years of the epoch —
/// far beyond the 48-bit millisecond range — is representable.
#[verifier::external_body]
fn epoch_to_calendar(epoch_seconds: u64) -> (r: Option<CalendarTime>)
    ensures
        r matches Some(c) ==> valid_calendar(c) && c.nanosecond == 0 && epoch_seconds_of(c)
            == epoch_seconds,
        epoch_seconds <= 281_474_976_710 ==> r is Some,
{
    let secs = i64::try_from(epoch_seconds).ok()?;
    let dt = chrono::DateTime::from_timestamp(secs, 0)?;
    Some(CalendarTime {
        year: dt.year(),
        month: dt.month() as u8,
        day: dt.day() as u8,
        hour: dt.hour() as u8,
        minute: dt.minute() as u8,
        second: dt.second() as u8,
        nanosecond: 0,
    })
}

/// The calendar form of a canonical timestamp: the UTC date and time of day
/// whose Unix second count is `ts.epoch_seconds`, carrying the nanoseconds
/// unchanged. `None` only beyond the second count that the 48-bit millisecond
/// field can ever decode to.
pub fn to_calendar(ts: &Timestamp) -> (r: Option<CalendarTime>)
    requires
        ts.wf(),
    ensures
        r matches Some(c) ==> valid_calendar(c) && epoch_seconds_of(c) == ts.epoch_seconds
            && c.nanosecond == ts.nanoseconds,
        ts.epoch_seconds <= 281_474_976_710 ==> r is Some,
{
    match epoch_to_calendar(ts.epoch_seconds) {
        Some(c) => Some(
            CalendarTime {
                year: c.year,
                month: c.month,
                day: c.day,
                hour: c.hour,
                minute: c.minute,
                second: c.second,
                nanosecond: ts.nanoseconds,
            },
        ),
        None => None,
    }
}

} // verus!
