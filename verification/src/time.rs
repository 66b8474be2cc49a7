//! Calendar dates, pickup/dropoff timestamps, and the derived time buckets:
//! proleptic-Gregorian day numbers, month truncation, hour-of-day
//! classification, whole-minute trip durations, and `YYYY-MM-DD` parsing.
use vstd::prelude::*;

verus! {

/// A calendar date. Valid dates carry a year between 1 and 9999, a month
/// between 1 and 12, and a day that exists in that month.
#[derive(Clone, Copy, PartialEq, Eq, Structural, Debug)]
pub struct Date {
    pub year: u32,
    pub month: u8,
    pub day: u8,
}

/// A timestamp: a calendar date plus a time of day.
#[derive(Clone, Copy, PartialEq, Eq, Structural, Debug)]
pub struct Timestamp {
    pub date: Date,
    pub hour: u8,
    pub minute: u8,
    pub second: u8,
}

/// The four time-of-day buckets a pickup hour resolves to.
#[derive(Clone, Copy, PartialEq, Eq, Structural, Debug)]
pub enum TimeOfDay {
    Morning,
    Afternoon,
    Evening,
    Night,
}

pub open spec fn spec_is_leap_year(year: int) -> bool {
    year % 4 == 0 && (year % 100 != 0 || year % 400 == 0)
}

pub open spec fn spec_days_in_month(year: int, month: int) -> int {
    if month == 2 {
        if spec_is_leap_year(year) {
            29
        } else {
            28
        }
    } else if month == 4 || month == 6 || month == 9 || month == 11 {
        30
    } else {
        31
    }
}

pub open spec fn date_valid(d: Date) -> bool {
    &&& 1 <= d.year <= 9999
    &&& 1 <= d.month <= 12
    &&& 1 <= d.day <= spec_days_in_month(d.year as int, d.month as int)
}

pub open spec fn timestamp_valid(t: Timestamp) -> bool {
    &&& date_valid(t.date)
    &&& t.hour < 24
    &&& t.minute < 60
    &&& t.second < 60
}

pub fn is_leap_year(year: u32) -> (r: bool)
    ensures
        r == spec_is_leap_year(year as int),
{
    year % 4 == 0 && (year % 100 != 0 || year % 400 == 0)
}

pub fn days_in_month(year: u32, month: u8) -> (r: u8)
    ensures
        r == spec_days_in_month(year as int, month as int),
{
    if month == 2 {
        if is_leap_year(year) {
            29
        } else {
            28
        }
    } else if month == 4 || month == 6 || month == 9 || month == 11 {
        30
    } else {
        31
    }
}

/// Number of days in all the full years before `year` of the proleptic
/// Gregorian calendar.
pub open spec fn spec_days_before_year(year: int) -> int {
    365 * (year - 1) + (year - 1) / 4 - (year - 1) / 100 + (year - 1) / 400
}

/// Number of days in the full months before `month` within `year`.
pub open spec fn spec_days_before_month(year: int, month: int) -> int {
    let base: int = if month == 1 {
        0
    } else if month == 2 {
        31
    } else if month == 3 {
        59
    } else if month == 4 {
        90
    } else if month == 5 {
        120
    } else if month == 6 {
        151
    } else if month == 7 {
        181
    } else if month == 8 {
        212
    } else if month == 9 {
        243
    } else if month == 10 {
        273
    } else if month == 11 {
        304
    } else {
        334
    };
    if month > 2 && spec_is_leap_year(year) {
        base + 1
    } else {
        base
    }
}

/// Ordinal day number of a date: 0001-01-01 is day 0.
pub open spec fn spec_day_number(d: Date) -> int {
    spec_days_before_year(d.year as int) + spec_days_before_month(d.year as int, d.month as int)
        + d.day - 1
}

pub proof fn lemma_day_number_bounds(d: Date)
    requires
        date_valid(d),
    ensures
        0 <= spec_day_number(d) < 3_652_059,
{
}

pub fn day_number(d: Date) -> (r: u64)
    requires
        date_valid(d),
    ensures
        r == spec_day_number(d),
        r < 3_652_059,
{
    let ym1: u64 = (d.year - 1) as u64;
    let leaps: u64 = ym1 / 4 + ym1 / 400;
    let century_leaps: u64 = ym1 / 100;
    assert(century_leaps <= leaps) by {
        assert(ym1 / 100 <= ym1 / 4) by (nonlinear_arith);
    }
    let before_year: u64 = 365 * ym1 + leaps - century_leaps;
    let base: u64 = if d.month == 1 {
        0
    } else if d.month == 2 {
        31
    } else if d.month == 3 {
        59
    } else if d.month == 4 {
        90
    } else if d.month == 5 {
        120
    } else if d.month == 6 {
        151
    } else if d.month == 7 {
        181
    } else if d.month == 8 {
        212
    } else if d.month == 9 {
        243
    } else if d.month == 10 {
        273
    } else if d.month == 11 {
        304
    } else {
        334
    };
    let before_month: u64 = if d.month > 2 && is_leap_year(d.year) {
        base + 1
    } else {
        base
    };
    before_year + before_month + (d.day - 1) as u64
}

/// A timestamp as a count of seconds from the start of day 0.
pub open spec fn spec_timestamp_seconds(t: Timestamp) -> int {
    spec_day_number(t.date) * 86400 + t.hour * 3600 + t.minute * 60 + t.second
}

pub fn timestamp_seconds(t: &Timestamp) -> (r: u64)
    requires
        timestamp_valid(*t),
    ensures
        r == spec_timestamp_seconds(*t),
        r < 315_537_897_600,
{
    proof {
        lemma_day_number_bounds(t.date);
    }
    let days: u64 = day_number(t.date);
    days * 86400 + (t.hour as u64) * 3600 + (t.minute as u64) * 60 + t.second as u64
}

/// Whole-minute truncation (toward zero) of dropoff minus pickup.
pub open spec fn spec_duration_minutes(pickup: Timestamp, dropoff: Timestamp) -> int {
    let diff = spec_timestamp_seconds(dropoff) - spec_timestamp_seconds(pickup);
    if diff >= 0 {
        diff / 60
    } else {
        -((-diff) / 60)
    }
}

/// Valid timestamps keep the duration within the bound the averaging
/// accumulators rely on.
pub proof fn lemma_duration_minutes_bounds(pickup: Timestamp, dropoff: Timestamp)
    requires
        timestamp_valid(pickup),
        timestamp_valid(dropoff),
    ensures
        -5_258_964_960 < spec_duration_minutes(pickup, dropoff) < 5_258_964_960,
{
    lemma_day_number_bounds(pickup.date);
    lemma_day_number_bounds(dropoff.date);
    let p = spec_timestamp_seconds(pickup);
    let d = spec_timestamp_seconds(dropoff);
    assert(0 <= p < 315_537_897_600);
    assert(0 <= d < 315_537_897_600);
    if d - p >= 0 {
        assert((d - p) / 60 < 5_258_964_960) by (nonlinear_arith)
            requires 0 <= d - p < 315_537_897_600;
    } else {
        assert((p - d) / 60 < 5_258_964_960) by (nonlinear_arith)
            requires 0 < p - d < 315_537_897_600;
    }
}

pub fn duration_minutes(pickup: &Timestamp, dropoff: &Timestamp) -> (r: i64)
    requires
        timestamp_valid(*pickup),
        timestamp_valid(*dropoff),
    ensures
        r == spec_duration_minutes(*pickup, *dropoff),
        -5_258_964_960 < r < 5_258_964_960,
{
    let p: u64 = timestamp_seconds(pickup);
    let d: u64 = timestamp_seconds(dropoff);
    if d >= p {
        ((d - p) / 60) as i64
    } else {
        -(((p - d) / 60) as i64)
    }
}

/// The first day of the month containing `d`: truncation to month grain.
pub open spec fn spec_month_start(d: Date) -> Date {
    Date { year: d.year, month: d.month, day: 1 }
}

pub fn month_start_of(d: &Date) -> (r: Date)
    ensures
        r == spec_month_start(*d),
        date_valid(*d) ==> date_valid(r),
{
    Date { year: d.year, month: d.month, day: 1 }
}

/// Two dates fall in the same calendar month exactly when their month
/// truncations are equal.
pub open spec fn same_month(a: Date, b: Date) -> bool {
    spec_month_start(a) == spec_month_start(b)
}

pub fn in_same_month(a: &Date, b: &Date) -> (r: bool)
    ensures
        r == same_month(*a, *b),
{
    a.year == b.year && a.month == b.month
}

/// The ordered half-open-interval rule for the time-of-day bucket of a
/// pickup hour: [5,12) is morning, then [12,17) afternoon, then [17,21)
/// evening, anything else night. First match wins, so the shared boundary
/// hours 12 and 17 land in the later bucket.
pub open spec fn spec_time_of_day(hour: int) -> TimeOfDay {
    if 5 <= hour < 12 {
        TimeOfDay::Morning
    } else if 12 <= hour < 17 {
        TimeOfDay::Afternoon
    } else if 17 <= hour < 21 {
        TimeOfDay::Evening
    } else {
        TimeOfDay::Night
    }
}

pub fn classify_hour(hour: u8) -> (r: TimeOfDay)
    ensures
        r == spec_time_of_day(hour as int),
{
    if 5 <= hour && hour < 12 {
        TimeOfDay::Morning
    } else if 12 <= hour && hour < 17 {
        TimeOfDay::Afternoon
    } else if 17 <= hour && hour < 21 {
        TimeOfDay::Evening
    } else {
        TimeOfDay::Night
    }
}

pub open spec fn is_ascii_digit(b: u8) -> bool {
    48 <= b <= 57
}

pub open spec fn digit_val(b: u8) -> int {
    b - 48
}

/// What a well-formed `YYYY-MM-DD` input denotes: ten bytes, digits in the
/// year, month and day positions, dashes between, naming a valid calendar
/// date. Anything else denotes no date.
pub open spec fn spec_parse_date(s: Seq<u8>) -> Option<Date> {
    if s.len() == 10 && is_ascii_digit(s[0]) && is_ascii_digit(s[1]) && is_ascii_digit(s[2])
        && is_ascii_digit(s[3]) && s[4] == 45 && is_ascii_digit(s[5]) && is_ascii_digit(s[6])
        && s[7] == 45 && is_ascii_digit(s[8]) && is_ascii_digit(s[9]) {
        let year = 1000 * digit_val(s[0]) + 100 * digit_val(s[1]) + 10 * digit_val(s[2])
            + digit_val(s[3]);
        let month = 10 * digit_val(s[5]) + digit_val(s[6]);
        let day = 10 * digit_val(s[8]) + digit_val(s[9]);
        let d = Date { year: year as u32, month: month as u8, day: day as u8 };
        if date_valid(d) {
            Some(d)
        } else {
            None
        }
    } else {
        None
    }
}

/// Parses a `YYYY-MM-DD` byte string into a valid calendar date.
pub fn parse_date(s: &[u8]) -> (r: Option<Date>)
    ensures
        r == spec_parse_date(s@),
        r is Some ==> date_valid(r->Some_0),
{
    if s.len() != 10 {
        return None;
    }
    let b0 = s[0];
    let b1 = s[1];
    let b2 = s[2];
    let b3 = s[3];
    let b5 = s[5];
    let b6 = s[6];
    let b8 = s[8];
    let b9 = s[9];
    if !(48 <= b0 && b0 <= 57 && 48 <= b1 && b1 <= 57 && 48 <= b2 && b2 <= 57 && 48 <= b3 && b3
        <= 57) {
        return None;
    }
    if s[4] != 45 || s[7] != 45 {
        return None;
    }
    if !(48 <= b5 && b5 <= 57 && 48 <= b6 && b6 <= 57 && 48 <= b8 && b8 <= 57 && 48 <= b9 && b9
        <= 57) {
        return None;
    }
    let year: u32 = 1000 * ((b0 - 48) as u32) + 100 * ((b1 - 48) as u32) + 10 * ((b2 - 48) as u32)
        + (b3 - 48) as u32;
    let month: u8 = 10 * (b5 - 48) + (b6 - 48);
    let day: u8 = 10 * (b8 - 48) + (b9 - 48);
    let d = Date { year, month, day };
    if 1 <= year && 1 <= month && month <= 12 && 1 <= day && day <= days_in_month(year, month) {
        Some(d)
    } else {
        None
    }
}

} // verus!
