//! `os.time` with a date table and `os.date` on a timestamp: the calendar
//! arithmetic is the `time` crate's, the rules around it (which fields
//! are checked in which order, the `!` and `*t` formats, the errors) the
//! library's.
//!
//! Dates are those of the proleptic Gregorian calendar from year -9999
//! to 9999; a timestamp counts seconds from 1970-01-01 00:00:00 UTC.
use vstd::prelude::*;
use crate::decimal::{decimal_string, int_text};
use crate::error::{LibError, bad_argument, is_bad_argument_got};
use crate::os_date::{DateFields, DateTable, date_table, date_table_spec, strftime, strftime_spec};

verus! {

/// A leap year of the Gregorian calendar.
pub open spec fn is_leap_year(y: int) -> bool {
    y % 4 == 0 && (y % 100 != 0 || y % 400 == 0)
}

/// The number of days of month `m` (1 to 12) of year `y`.
pub open spec fn days_in_month(y: int, m: int) -> int {
    if m == 2 {
        if is_leap_year(y) {
            29
        } else {
            28
        }
    } else if m == 4 || m == 6 || m == 9 || m == 11 {
        30
    } else {
        31
    }
}

/// The number of days from 1970-01-01 to the date `y`-`m`-`d`.
pub open spec fn days_from_civil(y: int, m: int, d: int) -> int {
    let yy = if m <= 2 {
        y - 1
    } else {
        y
    };
    let mp = if m > 2 {
        m - 3
    } else {
        m + 9
    };
    365 * yy + yy / 4 - yy / 100 + yy / 400 + (153 * mp + 2) / 5 + d - 1 - 719468
}

/// A date of the supported calendar: year -9999 to 9999, a day of the
/// month.
pub open spec fn valid_date(y: int, m: int, d: int) -> bool {
    -9999 <= y <= 9999 && 1 <= m <= 12 && 1 <= d <= days_in_month(y, m)
}

/// A timestamp between the first second of year -9999 and the last of
/// year 9999.
pub open spec fn timestamp_in_range(t: int) -> bool {
    days_from_civil(-9999, 1, 1) * 86400 <= t <= days_from_civil(9999, 12, 31) * 86400 + 86399
}

/// `d` is the calendar reading of `local` seconds after the epoch in a
/// zone `offset` seconds from UTC.
pub open spec fn calendar_fields(d: DateFields, local: int, offset: int) -> bool {
    let days = local / 86400;
    let sod = local % 86400;
    &&& valid_date(d.year as int, d.month as int, d.day as int)
    &&& days_from_civil(d.year as int, d.month as int, d.day as int) == days
    &&& d.hour == sod / 3600
    &&& d.minute == (sod % 3600) / 60
    &&& d.second == sod % 60
    &&& d.weekday == (days + 4) % 7
    &&& d.ordinal == days - days_from_civil(d.year as int, 1, 1) + 1
    &&& d.offset_seconds == offset
}

/// The message of a date refused by the calendar: the year is checked
/// before the day.
pub open spec fn date_error_text(y: int) -> Seq<char> {
    if -9999 <= y <= 9999 {
        "day was not in range"@
    } else {
        "year was not in range"@
    }
}

/// The message of a time of day refused by the calendar: the hour is
/// checked first, then the minute, then the second.
pub open spec fn time_error_text(h: int, m: int) -> Seq<char> {
    if h >= 24 {
        "hour was not in range"@
    } else if m >= 60 {
        "minute was not in range"@
    } else {
        "second was not in range"@
    }
}

/// `time::OffsetDateTime::from_unix_timestamp`, reduced to its error: none
/// for a timestamp in range, else the error's message.
#[verifier::external_body]
fn timestamp_error(secs: i64) -> (r: Option<String>)
    ensures
        r is None <==> timestamp_in_range(secs as int),
        r matches Some(t) ==> t@ == "timestamp was not in range"@,
{
    time::OffsetDateTime::from_unix_timestamp(secs).err().map(|e| e.to_string())
}

/// `time::OffsetDateTime::from_unix_timestamp(secs)` moved by
/// `to_offset` into the zone `offset` seconds from UTC, read as calendar
/// fields (weekday counted from Sunday, the day of the year from 1).
#[verifier::external_body]
fn calendar_at(secs: i64, offset: i32) -> (r: DateFields)
    requires
        timestamp_in_range(secs as int),
        -93599 <= offset <= 93599,
        timestamp_in_range(secs + offset),
    ensures
        calendar_fields(r, secs + offset, offset as int),
{
    let utc = match time::OffsetDateTime::from_unix_timestamp(secs) { Ok(t) => t, Err(_) => time::OffsetDateTime::UNIX_EPOCH };
    let zone = match time::UtcOffset::from_whole_seconds(offset) { Ok(z) => z, Err(_) => time::UtcOffset::UTC };
    let t = utc.to_offset(zone);
    DateFields {
        year: t.year(), month: t.month() as u8, day: t.day(),
        hour: t.hour(), minute: t.minute(), second: t.second(),
        weekday: t.weekday().number_days_from_sunday(), ordinal: t.ordinal(),
        offset_seconds: t.offset().whole_seconds(),
    }
}

/// `time::Date::from_calendar_date` for month `month`, reduced to its
/// error: none for a valid date, else the error's message.
#[verifier::external_body]
fn date_error(year: i32, month: u8, day: u8) -> (r: Option<String>)
    requires
        1 <= month <= 12,
    ensures
        r is None <==> valid_date(year as int, month as int, day as int),
        r matches Some(t) ==> t@ == date_error_text(year as int),
{
    let m = match time::Month::try_from(month) { Ok(m) => m, Err(_) => time::Month::January };
    time::Date::from_calendar_date(year, m, day).err().map(|e| e.to_string())
}

/// `time::Time::from_hms`, reduced to its error: none for a time of day,
/// else the error's message.
#[verifier::external_body]
fn time_error(hour: u8, minute: u8, second: u8) -> (r: Option<String>)
    ensures
        r is None <==> (hour < 24 && minute < 60 && second < 60),
        r matches Some(t) ==> t@ == time_error_text(hour as int, minute as int),
{
    time::Time::from_hms(hour, minute, second).err().map(|e| e.to_string())
}

/// `time::PrimitiveDateTime::assume_utc(..).unix_timestamp()` of a valid
/// date and time of day.
#[verifier::external_body]
fn utc_timestamp(year: i32, month: u8, day: u8, hour: u8, minute: u8, second: u8) -> (r: i64)
    requires
        valid_date(year as int, month as int, day as int),
        hour < 24,
        minute < 60,
        second < 60,
    ensures
        r == days_from_civil(year as int, month as int, day as int) * 86400 + hour * 3600 + minute
            * 60 + second,
{
    let m = match time::Month::try_from(month) { Ok(m) => m, Err(_) => time::Month::January };
    let date = match time::Date::from_calendar_date(year, m, day) { Ok(d) => d, Err(_) => time::Date::MIN };
    let tod = match time::Time::from_hms(hour, minute, second) { Ok(t) => t, Err(_) => time::Time::MIDNIGHT };
    time::PrimitiveDateTime::new(date, tod).assume_utc().unix_timestamp()
}

/// The fields of an `os.time` table (the interpreter fills in hour 12,
/// minute 0 and second 0 when they are absent).
#[derive(Debug, Clone, Copy)]
pub struct OsTimeInput {
    pub year: i64,
    pub month: i64,
    pub day: i64,
    pub hour: i64,
    pub min: i64,
    pub sec: i64,
}

/// `os.time(t)`: the table read as a UTC date and time, as a timestamp.
/// The month must be 1 to 12; the year is then taken as an `i32`, the
/// day, hour, minute and second as bytes, and the calendar checks the
/// date, then the time of day.  Errors are bad arguments 1 with no
/// function name (the interpreter names the function from the call).
pub fn time_from_table(t: &OsTimeInput) -> (r: Result<i64, LibError>)
    ensures
        !(1 <= t.month <= 12) ==> (r matches Err(e) && is_bad_argument_got(
            e,
            1,
            ""@,
            "month in 1..12"@,
            int_text(t.month as int),
        )),
        1 <= t.month <= 12 ==> {
            let y = t.year as i32;
            let d = t.day as u8;
            let h = t.hour as u8;
            let mi = t.min as u8;
            let s = t.sec as u8;
            if !valid_date(y as int, t.month as int, d as int) {
                r matches Err(e) && is_bad_argument_got(
                    e,
                    1,
                    ""@,
                    "valid date"@,
                    date_error_text(y as int),
                )
            } else if !(h < 24 && mi < 60 && s < 60) {
                r matches Err(e) && is_bad_argument_got(
                    e,
                    1,
                    ""@,
                    "valid time"@,
                    time_error_text(h as int, mi as int),
                )
            } else {
                r == Ok::<i64, LibError>(
                    (days_from_civil(y as int, t.month as int, d as int) * 86400 + h * 3600 + mi
                        * 60 + s) as i64,
                )
            }
        },
{
    if t.month < 1 || t.month > 12 {
        return Err(bad_argument(1, "", "month in 1..12", decimal_string(t.month)));
    }
    let year = t.year as i32;
    let month = t.month as u8;
    let day = t.day as u8;
    match date_error(year, month, day) {
        Some(text) => return Err(bad_argument(1, "", "valid date", text)),
        None => {},
    }
    let hour = t.hour as u8;
    let minute = t.min as u8;
    let second = t.sec as u8;
    match time_error(hour, minute, second) {
        Some(text) => return Err(bad_argument(1, "", "valid time", text)),
        None => {},
    }
    Ok(utc_timestamp(year, month, day, hour, minute, second))
}

/// What `os.date` gives: formatted text, or a date table.
#[derive(Debug)]
pub enum DateOutput {
    Text(String),
    Table(DateTable),
}

/// The format of `os.date`: the one given, or `%c`.
pub open spec fn date_format(fmt: Option<&str>) -> Seq<char> {
    match fmt {
        Some(f) => f@,
        None => "%c"@,
    }
}

/// A format starting with `!` reads the time in UTC.
pub open spec fn uses_utc(f: Seq<char>) -> bool {
    f.len() > 0 && f[0] == '!'
}

/// The format without its `!`.
pub open spec fn format_body(f: Seq<char>) -> Seq<char> {
    if uses_utc(f) {
        f.subrange(1, f.len() as int)
    } else {
        f
    }
}

/// The zone a format reads the time in: UTC after `!`, else the local
/// zone, UTC when it is unknown.
pub open spec fn zone_offset(f: Seq<char>, local: Option<i32>) -> int {
    if uses_utc(f) {
        0
    } else {
        match local {
            Some(o) => o as int,
            None => 0,
        }
    }
}

/// `r` is what `os.date` gives for the calendar reading `d` of `secs` in
/// the zone of the format `f`: a date table for `*t`, else the formatted
/// text.
pub open spec fn date_reading(
    r: Result<DateOutput, LibError>,
    d: DateFields,
    f: Seq<char>,
    local: Option<i32>,
    secs: int,
) -> bool {
    let off = zone_offset(f, local);
    &&& calendar_fields(d, secs + off, off)
    &&& if format_body(f) == "*t"@ {
        r matches Ok(DateOutput::Table(t)) && t == date_table_spec(d)
    } else {
        r matches Ok(DateOutput::Text(s)) && s@ == strftime_spec(d, format_body(f))
    }
}

/// `os.date(fmt, secs)`: the timestamp read in UTC (format starting with
/// `!`) or in the local zone `local_offset` seconds from UTC (UTC when
/// unknown); the format `*t` gives a date table, any other is formatted
/// (`%c` by default).  A timestamp out of range is a bad argument 2.
pub fn date(fmt: Option<&str>, secs: i64, local_offset: Option<i32>) -> (r: Result<DateOutput, LibError>)
    requires
        local_offset matches Some(o) ==> -93599 <= o <= 93599,
        timestamp_in_range(secs as int) ==> timestamp_in_range(
            secs + zone_offset(date_format(fmt), local_offset),
        ),
    ensures
        !timestamp_in_range(secs as int) ==> (r matches Err(e) && is_bad_argument_got(
            e,
            2,
            ""@,
            "valid timestamp"@,
            "timestamp was not in range"@,
        )),
        timestamp_in_range(secs as int) ==> exists|d: DateFields|
            #[trigger] date_reading(r, d, date_format(fmt), local_offset, secs as int),
{
    let f: &str = match fmt {
        Some(s) => s,
        None => "%c",
    };
    proof {
        reveal_strlit("%c");
        reveal_strlit("*t");
    }
    let n = f.unicode_len();
    let utc = n > 0 && f.get_char(0) == '!';
    let body: &str = if utc {
        f.substring_char(1, n)
    } else {
        f
    };
    match timestamp_error(secs) {
        Some(text) => return Err(bad_argument(2, "", "valid timestamp", text)),
        None => {},
    }
    let off: i32 = if utc {
        0
    } else {
        match local_offset {
            Some(o) => o,
            None => 0,
        }
    };
    let fields = calendar_at(secs, off);
    let bn = body.unicode_len();
    if bn == 2 && body.get_char(0) == '*' && body.get_char(1) == 't' {
        assert(body@ =~= "*t"@);
        let r = Ok(DateOutput::Table(date_table(&fields)));
        assert(date_reading(r, fields, date_format(fmt), local_offset, secs as int));
        r
    } else {
        proof {
            if body@ == "*t"@ {
                assert(body@[0] == '*' && body@[1] == 't');
            }
        }
        let r = Ok(DateOutput::Text(strftime(&fields, body)));
        assert(date_reading(r, fields, date_format(fmt), local_offset, secs as int));
        r
    }
}

} // verus!
