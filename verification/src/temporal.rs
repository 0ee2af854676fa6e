//! Semantic date, time and timezone values.

use vstd::prelude::*;
use vstd::string::StringExecFns;
use std::cmp::Ordering;
use crate::text::{padded_decimal, push_padded_decimal};

verus! {

/// Timezone offset of a date or time value.
#[derive(Debug, Clone, Copy, PartialEq, Eq, PartialOrd, Ord, Hash, Structural)]
pub struct SemanticTimezone {
    pub offset_hours: i8,
    pub offset_minutes: u8,
}

/// Time of day.
#[derive(Debug, Clone, Copy, PartialEq, Eq, PartialOrd, Ord, Hash, Structural)]
pub struct SemanticTime {
    pub hour: u32,
    pub minute: u32,
    pub second: u32,
    pub microsecond: u32,
    pub timezone: Option<SemanticTimezone>,
}

/// Date with an optional time of day and timezone.
#[derive(Debug, Clone, Copy, PartialEq, Eq, PartialOrd, Ord, Hash, Structural)]
pub struct SemanticDateTime {
    pub year: i32,
    pub month: u32,
    pub day: u32,
    pub hour: u32,
    pub minute: u32,
    pub second: u32,
    pub microsecond: u32,
    pub timezone: Option<SemanticTimezone>,
}


/// Year range a calendar instant is defined for.
pub open spec fn year_in_range(y: int) -> bool {
    -262143 <= y <= 262142
}

pub open spec fn is_leap_year(y: int) -> bool {
    (y % 4 == 0 && y % 100 != 0) || y % 400 == 0
}

pub open spec fn days_in_month(y: int, m: int) -> int {
    if m == 2 {
        if is_leap_year(y) { 29 } else { 28 }
    } else if m == 4 || m == 6 || m == 9 || m == 11 {
        30
    } else {
        31
    }
}

/// Days since 1970-01-01 of a civil date with a year shifted to be positive.
pub open spec fn shifted_civil_days(y: int, m: int, d: int) -> int {
    let yp = if m <= 2 { y - 1 } else { y };
    let era = yp / 400;
    let yoe = yp - era * 400;
    let mp = if m > 2 { m - 3 } else { m + 9 };
    let doy = (153 * mp + 2) / 5 + d - 1;
    let doe = yoe * 365 + yoe / 4 - yoe / 100 + doy;
    era * 146097 + doe - 719468
}

/// Days since 1970-01-01 of a proleptic Gregorian date (the year is shifted by
/// 400000 years, a whole number of 146097-day cycles, to keep the arithmetic positive).
pub open spec fn days_from_civil(y: int, m: int, d: int) -> int {
    shifted_civil_days(y + 400000, m, d) - 146097000
}

/// UTC offset of a timezone, in seconds.
pub open spec fn offset_seconds(tz: Option<SemanticTimezone>) -> int {
    match tz {
        Some(z) => if z.offset_hours < 0 {
            z.offset_hours * 3600 - z.offset_minutes * 60
        } else {
            z.offset_hours * 3600 + z.offset_minutes * 60
        },
        None => 0,
    }
}

pub open spec fn timezone_valid(tz: Option<SemanticTimezone>) -> bool {
    match tz {
        Some(z) => -23 <= z.offset_hours <= 23 && z.offset_minutes <= 59,
        None => true,
    }
}

pub open spec fn clock_valid(hour: u32, minute: u32, second: u32, microsecond: u32) -> bool {
    hour <= 23 && minute <= 59 && second <= 59 && microsecond <= 999999
}

/// Microseconds into the day of a clock reading.
pub open spec fn clock_micros(hour: u32, minute: u32, second: u32, microsecond: u32) -> int {
    ((hour * 60 + minute) * 60 + second) * 1000000 + microsecond
}

pub open spec fn datetime_valid(dt: SemanticDateTime) -> bool {
    &&& year_in_range(dt.year as int)
    &&& 1 <= dt.month <= 12
    &&& 1 <= dt.day <= days_in_month(dt.year as int, dt.month as int)
    &&& clock_valid(dt.hour, dt.minute, dt.second, dt.microsecond)
    &&& timezone_valid(dt.timezone)
}

/// The UTC instant of a date-time, in microseconds since 1970-01-01T00:00:00Z.
pub open spec fn datetime_micros(dt: SemanticDateTime) -> int {
    days_from_civil(dt.year as int, dt.month as int, dt.day as int) * 86400000000
        + clock_micros(dt.hour, dt.minute, dt.second, dt.microsecond) - offset_seconds(dt.timezone) * 1000000
}

pub open spec fn time_valid(t: SemanticTime) -> bool {
    clock_valid(t.hour, t.minute, t.second, t.microsecond) && timezone_valid(t.timezone)
}

/// The UTC instant of a time of day on 1970-01-01, in microseconds.
pub open spec fn time_micros(t: SemanticTime) -> int {
    clock_micros(t.hour, t.minute, t.second, t.microsecond) - offset_seconds(t.timezone) * 1000000
}

fn leap(y: u64) -> (b: bool)
    ensures
        b == is_leap_year(y as int),
{
    (y % 4 == 0 && y % 100 != 0) || y % 400 == 0
}

fn tz_offset_seconds(tz: Option<SemanticTimezone>) -> (r: Result<i64, String>)
    ensures
        r is Ok <==> timezone_valid(tz),
        r matches Ok(v) ==> v == offset_seconds(tz),
        r matches Err(e) ==> e@ == "invalid timezone offset"@,
{
    match tz {
        Some(z) => {
            if z.offset_hours < -23 || z.offset_hours > 23 || z.offset_minutes > 59 {
                return Err(String::from_str("invalid timezone offset"));
            }
            let h: i64 = z.offset_hours as i64;
            let m: i64 = z.offset_minutes as i64;
            if h < 0 {
                Ok(h * 3600 - m * 60)
            } else {
                Ok(h * 3600 + m * 60)
            }
        },
        None => Ok(0),
    }
}

/// UTC instant of a date-time in microseconds; fails for a date outside the
/// calendar, a clock reading out of range or an invalid timezone offset.
pub fn datetime_instant(dt: &SemanticDateTime) -> (r: Result<i64, String>)
    ensures
        r is Ok <==> datetime_valid(*dt),
        r matches Ok(v) ==> v == datetime_micros(*dt),
        r matches Err(e) ==> e@ == "invalid calendar date"@ || e@ == "invalid time of day"@
            || e@ == "invalid timezone offset"@,
{
    if dt.year < -262143 || dt.year > 262142 || dt.month < 1 || dt.month > 12 || dt.day < 1 {
        return Err(String::from_str("invalid calendar date"));
    }
    let y: u64 = (dt.year as i64 + 400000) as u64;
    let m: u64 = dt.month as u64;
    let d: u64 = dt.day as u64;
    let dim: u64 = if m == 2 {
        if leap(y) { 29 } else { 28 }
    } else if m == 4 || m == 6 || m == 9 || m == 11 {
        30
    } else {
        31
    };
    proof {
        assert(is_leap_year(y as int) == is_leap_year(dt.year as int)) by {
            assert((dt.year as int + 400000) % 4 == (dt.year as int) % 4);
            assert((dt.year as int + 400000) % 100 == (dt.year as int) % 100);
            assert((dt.year as int + 400000) % 400 == (dt.year as int) % 400);
        }
    }
    if d > dim {
        return Err(String::from_str("invalid calendar date"));
    }
    if dt.hour > 23 || dt.minute > 59 || dt.second > 59 || dt.microsecond > 999999 {
        return Err(String::from_str("invalid time of day"));
    }
    let offset = match tz_offset_seconds(dt.timezone) {
        Ok(o) => o,
        Err(e) => {
            return Err(e);
        },
    };
    let yp: u64 = if m <= 2 { y - 1 } else { y };
    let era: u64 = yp / 400;
    let yoe: u64 = yp - era * 400;
    let mp: u64 = if m > 2 { m - 3 } else { m + 9 };
    let doy: u64 = (153 * mp + 2) / 5 + d - 1;
    let doe: u64 = yoe * 365 + yoe / 4 - yoe / 100 + doy;
    let days: i64 = (era * 146097 + doe) as i64 - 719468 - 146097000;
    let clock: i64 = ((dt.hour as i64 * 60 + dt.minute as i64) * 60 + dt.second as i64) * 1000000 + dt.microsecond as i64;
    proof {
        assert(days == days_from_civil(dt.year as int, dt.month as int, dt.day as int));
        assert(-262143 <= dt.year <= 262142);
        assert(-100000000 <= days <= 100000000);
    }
    Ok(days * 86400000000 + clock - offset * 1000000)
}

/// UTC instant of a time of day on 1970-01-01 in microseconds; fails for a clock
/// reading out of range or an invalid timezone offset.
pub fn time_instant(t: &SemanticTime) -> (r: Result<i64, String>)
    ensures
        r is Ok <==> time_valid(*t),
        r matches Ok(v) ==> v == time_micros(*t),
        r matches Err(e) ==> e@ == "invalid time of day"@ || e@ == "invalid timezone offset"@,
{
    if t.hour > 23 || t.minute > 59 || t.second > 59 || t.microsecond > 999999 {
        return Err(String::from_str("invalid time of day"));
    }
    let offset = match tz_offset_seconds(t.timezone) {
        Ok(o) => o,
        Err(e) => {
            return Err(e);
        },
    };
    let clock: i64 = ((t.hour as i64 * 60 + t.minute as i64) * 60 + t.second as i64) * 1000000 + t.microsecond as i64;
    Ok(clock - offset * 1000000)
}

/// Magnitude of a timezone's hour offset.
pub open spec fn offset_hours_magnitude(z: SemanticTimezone) -> nat {
    if z.offset_hours < 0 {
        (-z.offset_hours) as nat
    } else {
        z.offset_hours as nat
    }
}

/// Display text of a timezone: `Z` for UTC, otherwise a sign and `HH:MM`.
pub open spec fn timezone_text(z: SemanticTimezone) -> Seq<char> {
    if z.offset_hours == 0 && z.offset_minutes == 0 {
        "Z"@
    } else {
        (if z.offset_hours >= 0 {
            "+"@
        } else {
            "-"@
        }) + padded_decimal(offset_hours_magnitude(z), 2) + ":"@ + padded_decimal(z.offset_minutes as nat, 2)
    }
}

/// Display text of an optional timezone (empty when absent).
pub open spec fn optional_timezone_text(tz: Option<SemanticTimezone>) -> Seq<char> {
    match tz {
        Some(z) => timezone_text(z),
        None => Seq::empty(),
    }
}

/// `.ffffff` for a non-zero microsecond part, otherwise nothing.
pub open spec fn fraction_text(microsecond: u32) -> Seq<char> {
    if microsecond != 0 {
        "."@ + padded_decimal(microsecond as nat, 6)
    } else {
        Seq::empty()
    }
}

/// `HH:MM:SS` followed by the fraction and the timezone.
pub open spec fn clock_text(hour: u32, minute: u32, second: u32, microsecond: u32, tz: Option<SemanticTimezone>) -> Seq<char> {
    padded_decimal(hour as nat, 2) + ":"@ + padded_decimal(minute as nat, 2) + ":"@ + padded_decimal(second as nat, 2)
        + fraction_text(microsecond) + optional_timezone_text(tz)
}

/// Display text of a time of day.
pub open spec fn time_text(t: SemanticTime) -> Seq<char> {
    clock_text(t.hour, t.minute, t.second, t.microsecond, t.timezone)
}

/// A year zero-padded to four characters, the sign counting as one.
pub open spec fn year_text(y: int) -> Seq<char> {
    if y < 0 {
        "-"@ + padded_decimal((-y) as nat, 3)
    } else {
        padded_decimal(y as nat, 4)
    }
}

/// Whether a date-time carries a time of day or a timezone.
pub open spec fn has_time_part(dt: SemanticDateTime) -> bool {
    dt.hour != 0 || dt.minute != 0 || dt.second != 0 || dt.microsecond != 0 || dt.timezone is Some
}

/// Display text of a date-time: `YYYY-MM-DD`, with `THH:MM:SS`, fraction and timezone
/// when it has a time part.
pub open spec fn datetime_text(dt: SemanticDateTime) -> Seq<char> {
    let date = year_text(dt.year as int) + "-"@ + padded_decimal(dt.month as nat, 2) + "-"@ + padded_decimal(
        dt.day as nat,
        2,
    );
    if has_time_part(dt) {
        date + "T"@ + clock_text(dt.hour, dt.minute, dt.second, dt.microsecond, dt.timezone)
    } else {
        date
    }
}

/// Whether a timezone can be displayed (its hour magnitude is representable).
pub open spec fn timezone_displayable(tz: Option<SemanticTimezone>) -> bool {
    match tz {
        Some(z) => z.offset_hours > i8::MIN,
        None => true,
    }
}

fn push_timezone(out: &mut String, tz: Option<SemanticTimezone>)
    requires
        timezone_displayable(tz),
    ensures
        final(out)@ == old(out)@ + optional_timezone_text(tz),
{
    proof {
        reveal_strlit("Z");
        reveal_strlit("+");
        reveal_strlit("-");
        reveal_strlit(":");
    }
    match tz {
        Some(z) => {
            if z.offset_hours == 0 && z.offset_minutes == 0 {
                out.append("Z");
            } else {
                let magnitude: u64 = if z.offset_hours < 0 {
                    out.append("-");
                    (0 - (z.offset_hours as i64)) as u64
                } else {
                    out.append("+");
                    z.offset_hours as u64
                };
                push_padded_decimal(out, magnitude, 2);
                out.append(":");
                push_padded_decimal(out, z.offset_minutes as u64, 2);
            }
        },
        None => {},
    }
}

fn push_clock(out: &mut String, hour: u32, minute: u32, second: u32, microsecond: u32, tz: Option<SemanticTimezone>)
    requires
        timezone_displayable(tz),
    ensures
        final(out)@ == old(out)@ + clock_text(hour, minute, second, microsecond, tz),
{
    proof {
        reveal_strlit(":");
        reveal_strlit(".");
    }
    push_padded_decimal(out, hour as u64, 2);
    out.append(":");
    push_padded_decimal(out, minute as u64, 2);
    out.append(":");
    push_padded_decimal(out, second as u64, 2);
    if microsecond != 0 {
        out.append(".");
        push_padded_decimal(out, microsecond as u64, 6);
    }
    push_timezone(out, tz);
}

impl SemanticTimezone {
    /// Display text: `Z` for UTC, otherwise `+HH:MM` or `-HH:MM`.
    pub fn display(&self) -> (r: String)
        requires
            self.offset_hours > i8::MIN,
        ensures
            r@ == timezone_text(*self),
    {
        let mut out = String::new();
        push_timezone(&mut out, Some(*self));
        out
    }
}

impl SemanticTime {
    /// Display text: `HH:MM:SS`, then `.ffffff` when there are microseconds, then the
    /// timezone when there is one.
    pub fn display(&self) -> (r: String)
        requires
            timezone_displayable(self.timezone),
        ensures
            r@ == time_text(*self),
    {
        let mut out = String::new();
        push_clock(&mut out, self.hour, self.minute, self.second, self.microsecond, self.timezone);
        out
    }
}

impl SemanticDateTime {
    /// Display text: `YYYY-MM-DD`, followed by `T` and the time of day when any clock
    /// field is non-zero or a timezone is present.
    pub fn display(&self) -> (r: String)
        requires
            timezone_displayable(self.timezone),
        ensures
            r@ == datetime_text(*self),
    {
        proof {
            reveal_strlit("-");
            reveal_strlit("T");
        }
        let mut out = String::new();
        if self.year < 0 {
            out.append("-");
            push_padded_decimal(&mut out, (0 - (self.year as i64)) as u64, 3);
        } else {
            push_padded_decimal(&mut out, self.year as u64, 4);
        }
        out.append("-");
        push_padded_decimal(&mut out, self.month as u64, 2);
        out.append("-");
        push_padded_decimal(&mut out, self.day as u64, 2);
        if self.hour != 0 || self.minute != 0 || self.second != 0 || self.microsecond != 0 || self.timezone.is_some() {
            out.append("T");
            push_clock(&mut out, self.hour, self.minute, self.second, self.microsecond, self.timezone);
        }
        out
    }
}

/// Order of two unsigned fields.
pub open spec fn u32_order(a: u32, b: u32) -> Ordering {
    if a < b {
        Ordering::Less
    } else if a == b {
        Ordering::Equal
    } else {
        Ordering::Greater
    }
}

/// Order of two years.
pub open spec fn year_order(a: i32, b: i32) -> Ordering {
    if a < b {
        Ordering::Less
    } else if a == b {
        Ordering::Equal
    } else {
        Ordering::Greater
    }
}

/// The first order unless it is `Equal`, then the second.
pub open spec fn order_then(first: Ordering, second: Ordering) -> Ordering {
    if first is Equal {
        second
    } else {
        first
    }
}

/// Lexicographic order of two (hour, minute, second, microsecond) readings.
pub open spec fn clock_fields_order(l: (u32, u32, u32, u32), r: (u32, u32, u32, u32)) -> Ordering {
    order_then(
        u32_order(l.0, r.0),
        order_then(u32_order(l.1, r.1), order_then(u32_order(l.2, r.2), u32_order(l.3, r.3))),
    )
}

/// Order of two clock readings, field by field (timezones are not compared).
pub open spec fn clock_order(l: SemanticTime, r: SemanticTime) -> Ordering {
    clock_fields_order((l.hour, l.minute, l.second, l.microsecond), (r.hour, r.minute, r.second, r.microsecond))
}

/// Order of two date-times by year, month, day, hour, minute, second and microsecond
/// (timezones are not compared).
pub open spec fn date_order(l: SemanticDateTime, r: SemanticDateTime) -> Ordering {
    order_then(
        year_order(l.year, r.year),
        order_then(
            u32_order(l.month, r.month),
            order_then(
                u32_order(l.day, r.day),
                clock_fields_order(
                    (l.hour, l.minute, l.second, l.microsecond),
                    (r.hour, r.minute, r.second, r.microsecond),
                ),
            ),
        ),
    )
}

fn order_u32(a: u32, b: u32) -> (o: Ordering)
    ensures
        o == u32_order(a, b),
{
    if a < b {
        Ordering::Less
    } else if a == b {
        Ordering::Equal
    } else {
        Ordering::Greater
    }
}

fn order_clock_fields(l: (u32, u32, u32, u32), r: (u32, u32, u32, u32)) -> (o: Ordering)
    ensures
        o == clock_fields_order(l, r),
{
    let h = order_u32(l.0, r.0);
    match h {
        Ordering::Equal => {},
        _ => {
            return h;
        },
    }
    let m = order_u32(l.1, r.1);
    match m {
        Ordering::Equal => {},
        _ => {
            return m;
        },
    }
    let s = order_u32(l.2, r.2);
    match s {
        Ordering::Equal => {},
        _ => {
            return s;
        },
    }
    order_u32(l.3, r.3)
}

/// Compare two times of day by hour, minute, second, then microsecond. Timezones are
/// not compared.
pub fn compare_semantic_times(left: &SemanticTime, right: &SemanticTime) -> (o: Ordering)
    ensures
        o == clock_order(*left, *right),
{
    order_clock_fields(
        (left.hour, left.minute, left.second, left.microsecond),
        (right.hour, right.minute, right.second, right.microsecond),
    )
}

/// Compare two date-times by year, month, day, hour, minute, second, then microsecond.
/// Timezones are not compared.
pub fn compare_semantic_dates(left: &SemanticDateTime, right: &SemanticDateTime) -> (o: Ordering)
    ensures
        o == date_order(*left, *right),
{
    let y = if left.year < right.year {
        Ordering::Less
    } else if left.year == right.year {
        Ordering::Equal
    } else {
        Ordering::Greater
    };
    match y {
        Ordering::Equal => {},
        _ => {
            return y;
        },
    }
    let mo = order_u32(left.month, right.month);
    match mo {
        Ordering::Equal => {},
        _ => {
            return mo;
        },
    }
    let d = order_u32(left.day, right.day);
    match d {
        Ordering::Equal => {},
        _ => {
            return d;
        },
    }
    order_clock_fields(
        (left.hour, left.minute, left.second, left.microsecond),
        (right.hour, right.minute, right.second, right.microsecond),
    )
}

/// The opposite order.
pub open spec fn order_reversed(o: Ordering) -> Ordering {
    match o {
        Ordering::Less => Ordering::Greater,
        Ordering::Equal => Ordering::Equal,
        Ordering::Greater => Ordering::Less,
    }
}

/// The instant of a time of day is its UTC reading: a time written with an offset has
/// the same instant as the UTC time whose clock reads that offset earlier (10:00+02:00
/// is 08:00Z).
pub proof fn lemma_time_instant_is_its_utc_reading(a: SemanticTime, b: SemanticTime)
    requires
        time_valid(a),
        time_valid(b),
        offset_seconds(b.timezone) == 0,
        clock_micros(b.hour, b.minute, b.second, b.microsecond) + offset_seconds(a.timezone) * 1000000
            == clock_micros(a.hour, a.minute, a.second, a.microsecond),
    ensures
        time_micros(a) == time_micros(b),
        time_micros(a) == clock_micros(b.hour, b.minute, b.second, b.microsecond),
{
}

/// The instant of a date-time is its UTC reading: a date-time written with an offset
/// has the same instant as the UTC date-time whose local reading is that offset earlier.
pub proof fn lemma_datetime_instant_is_its_utc_reading(a: SemanticDateTime, b: SemanticDateTime)
    requires
        datetime_valid(a),
        datetime_valid(b),
        offset_seconds(b.timezone) == 0,
        days_from_civil(b.year as int, b.month as int, b.day as int) * 86400000000 + clock_micros(b.hour, b.minute, b.second, b.microsecond)
            + offset_seconds(a.timezone) * 1000000 == days_from_civil(a.year as int, a.month as int, a.day as int) * 86400000000
            + clock_micros(a.hour, a.minute, a.second, a.microsecond),
    ensures
        datetime_micros(a) == datetime_micros(b),
{
}

/// Times of day are ordered by how far into the day they are: hours first, then
/// minutes, seconds and microseconds, which for valid clock readings is the order of
/// their microsecond counts since midnight (timezones aside).
pub proof fn lemma_clock_order_is_time_of_day_order(l: SemanticTime, r: SemanticTime)
    requires
        clock_valid(l.hour, l.minute, l.second, l.microsecond),
        clock_valid(r.hour, r.minute, r.second, r.microsecond),
    ensures
        clock_order(l, r) is Less <==> clock_micros(l.hour, l.minute, l.second, l.microsecond) < clock_micros(
            r.hour,
            r.minute,
            r.second,
            r.microsecond,
        ),
        clock_order(l, r) is Equal <==> clock_micros(l.hour, l.minute, l.second, l.microsecond) == clock_micros(
            r.hour,
            r.minute,
            r.second,
            r.microsecond,
        ),
        clock_order(l, r) is Greater <==> clock_micros(l.hour, l.minute, l.second, l.microsecond) > clock_micros(
            r.hour,
            r.minute,
            r.second,
            r.microsecond,
        ),
{
}

/// Position of a date-time's local reading on a timeline with 31-day months: years,
/// then months, days, hours, minutes, seconds and microseconds, each field in its range.
pub open spec fn local_reading_rank(dt: SemanticDateTime) -> int {
    ((dt.year as int * 12 + (dt.month as int - 1)) * 31 + (dt.day as int - 1)) * 86400000000
        + clock_micros(dt.hour, dt.minute, dt.second, dt.microsecond)
}

/// Date-times are ordered by when their local readings fall: the year first, then the
/// month, day, hour, minute, second and microsecond, so an earlier reading is always
/// less (timezones aside).
pub proof fn lemma_date_order_is_local_reading_order(l: SemanticDateTime, r: SemanticDateTime)
    requires
        1 <= l.month <= 12,
        1 <= r.month <= 12,
        1 <= l.day <= 31,
        1 <= r.day <= 31,
        clock_valid(l.hour, l.minute, l.second, l.microsecond),
        clock_valid(r.hour, r.minute, r.second, r.microsecond),
    ensures
        date_order(l, r) is Less <==> local_reading_rank(l) < local_reading_rank(r),
        date_order(l, r) is Equal <==> local_reading_rank(l) == local_reading_rank(r),
        date_order(l, r) is Greater <==> local_reading_rank(l) > local_reading_rank(r),
{
}

/// Date-times are ordered as a total preorder that ignores timezones: each equals
/// itself, swapping the operands reverses the order, and `a < b < c` gives `a < c`.
pub proof fn lemma_date_order_is_a_total_preorder(a: SemanticDateTime, b: SemanticDateTime, c: SemanticDateTime)
    ensures
        date_order(a, a) is Equal,
        date_order(b, a) == order_reversed(date_order(a, b)),
        date_order(a, b) is Less && date_order(b, c) is Less ==> date_order(a, c) is Less,
        date_order(a, b) is Equal && date_order(b, c) is Equal ==> date_order(a, c) is Equal,
{
}

/// Times of day are ordered as a total preorder that ignores timezones.
pub proof fn lemma_clock_order_is_a_total_preorder(a: SemanticTime, b: SemanticTime, c: SemanticTime)
    ensures
        clock_order(a, a) is Equal,
        clock_order(b, a) == order_reversed(clock_order(a, b)),
        clock_order(a, b) is Less && clock_order(b, c) is Less ==> clock_order(a, c) is Less,
        clock_order(a, b) is Equal && clock_order(b, c) is Equal ==> clock_order(a, c) is Equal,
{
}

} // verus!
