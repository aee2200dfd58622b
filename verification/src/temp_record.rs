//! The record of the current state that is pushed to cloud storage on every
//! poll, and how the storing services read a record's date and the day it
//! is filed under.

use vstd::prelude::*;
use vstd::string::StringExecFns;
use vstd::string::StringSliceAdditionalSpecFns;
use vstd::utf8::{encode_utf8, is_char_boundary};
use crate::control_thermostat::now_unix_nanos;
use chrono::Datelike;
use crate::shared_data::SharedData;

verus! {

/// The UTC offset, in hours, at which record dates are written.
pub const RECORD_OFFSET_HOURS: i8 = -6;

/// The RFC 3339 text that `time` writes for the instant `unix_nanos` (in
/// nanoseconds since the Unix epoch) shown at a UTC offset of `offset_hours`;
/// `None` where `time` cannot represent that instant or format it.
pub uninterp spec fn rfc3339_text(unix_nanos: int, offset_hours: int) -> Option<Seq<char>>;

/// Formats an instant with `time`: `OffsetDateTime::from_unix_timestamp_nanos`,
/// moved to the offset made by `UtcOffset::from_hms(offset_hours, 0, 0)` with
/// `checked_to_offset`, then `format(&Rfc3339)`.  The result is named, not
/// described: it depends on the two arguments alone.
#[verifier::external_body]
fn format_rfc3339(unix_nanos: i128, offset_hours: i8) -> (r: Option<String>)
    ensures
        match r {
            Some(s) => rfc3339_text(unix_nanos as int, offset_hours as int) == Some(s@),
            None => rfc3339_text(unix_nanos as int, offset_hours as int) is None,
        },
{
    let offset = time::UtcOffset::from_hms(offset_hours, 0, 0).ok()?;
    let at = time::OffsetDateTime::from_unix_timestamp_nanos(unix_nanos).ok()?;
    at.checked_to_offset(offset)?.format(&time::format_description::well_known::Rfc3339).ok()
}

/// How `bool::to_string` spells a flag.
pub open spec fn bool_text(b: bool) -> Seq<char> {
    if b {
        "true"@
    } else {
        "false"@
    }
}

/// `true` or `false`, as `bool::to_string` writes it.
pub fn bool_string(b: bool) -> (r: String)
    ensures
        r@ == bool_text(b),
{
    let mut s = String::new();
    if b {
        s.append("true");
    } else {
        s.append("false");
    }
    assert(s@ =~= bool_text(b));
    s
}

/// One temperature record as the storing services receive it, with the
/// temperature in ten-thousandths of a degree Fahrenheit.
pub struct TempData {
    pub record_date: String,
    pub thermostat_on: bool,
    pub temperature: i64,
    pub thermostat_value: u16,
}

/// The record of the shared state taken at instant `now`; `None` where the
/// instant cannot be written as a date.
pub fn temp_record_at(sd: &SharedData, now: i128) -> (r: Option<TempData>)
    ensures
        r is None <==> rfc3339_text(now as int, RECORD_OFFSET_HOURS as int) is None,
        r matches Some(t) ==> {
            &&& rfc3339_text(now as int, RECORD_OFFSET_HOURS as int) == Some(t.record_date@)
            &&& t.thermostat_on == sd@.thermostat_on
            &&& t.temperature == sd@.current_temp
            &&& t.thermostat_value == sd@.thermostat_value
        },
{
    let record_date = match format_rfc3339(now, RECORD_OFFSET_HOURS) {
        Some(d) => d,
        None => return None,
    };
    Some(TempData {
        record_date,
        thermostat_on: sd.is_thermostat_on(),
        temperature: sd.current_temp(),
        thermostat_value: sd.thermostat_value(),
    })
}

/// The record of the shared state now.
pub fn temp_record(sd: &SharedData) -> (r: (i128, Option<TempData>))
    ensures
        r.1 is None <==> rfc3339_text(r.0 as int, RECORD_OFFSET_HOURS as int) is None,
        r.1 matches Some(t) ==> {
            &&& rfc3339_text(r.0 as int, RECORD_OFFSET_HOURS as int) == Some(t.record_date@)
            &&& t.thermostat_on == sd@.thermostat_on
            &&& t.temperature == sd@.current_temp
            &&& t.thermostat_value == sd@.thermostat_value
        },
{
    let now = now_unix_nanos();
    (now, temp_record_at(sd, now))
}

/// The day a record is filed under: the first ten bytes of its date
/// (`YYYY-MM-DD`).  `None` where the date is shorter than that or the tenth
/// byte does not end a character, where slicing the string would fail.
pub fn record_day(record_date: &str) -> (r: Option<String>)
    ensures
        r is Some <==> record_date.spec_bytes().len() >= 10 && is_char_boundary(
            record_date.spec_bytes(),
            10,
        ),
        r matches Some(d) ==> encode_utf8(d@) == record_date.spec_bytes().take(10),
{
    proof {
        vstd::utf8::encode_utf8_valid_utf8(record_date@);
    }
    let bytes = record_date.as_bytes();
    if bytes.len() < 10 || !record_date.is_char_boundary(10) {
        return None;
    }
    let (day, _) = record_date.split_at(10);
    let s = day.to_owned();
    assert(day.spec_bytes() =~= record_date.spec_bytes().take(10));
    Some(s)
}

/// The instant that `chrono` reads from RFC 3339 text: whole seconds since
/// the Unix epoch, the nanoseconds within the second, and the offset in
/// seconds east of UTC; `None` where the text is not RFC 3339.
pub uninterp spec fn rfc3339_parsed(s: Seq<char>) -> Option<(int, int, int)>;

/// `chrono::DateTime::parse_from_rfc3339`, with the parsed value taken apart
/// by `timestamp`, `timestamp_subsec_nanos` and `offset().local_minus_utc()`.
#[verifier::external_body]
fn parse_rfc3339(s: &str) -> (r: Option<(i64, u32, i32)>)
    ensures
        match r {
            Some((secs, nanos, offset)) => rfc3339_parsed(s@) == Some(
                (secs as int, nanos as int, offset as int),
            ),
            None => rfc3339_parsed(s@) is None,
        },
{
    match chrono::DateTime::parse_from_rfc3339(s) {
        Ok(dt) => Some((dt.timestamp(), dt.timestamp_subsec_nanos(), dt.offset().local_minus_utc())),
        Err(_) => None,
    }
}

/// The calendar date (year, month, day) that `chrono` gives for an instant
/// seen at a UTC offset; `None` where it cannot represent them.
pub uninterp spec fn local_date(unix_seconds: int, subsec_nanos: int, offset_seconds: int) -> Option<(int, int, int)>;

/// The local date of the instant shown at the offset, as `date_naive`
/// gives it: the instant is rebuilt with `DateTime::from_timestamp` and the
/// offset with `FixedOffset::east_opt`; the local date-time is
/// `naive_utc().checked_add_offset(offset)`, whose `date` is read with
/// `year`, `month` and `day`.  Every step that can fail gives `None`.
#[verifier::external_body]
fn local_date_of(secs: i64, nanos: u32, offset: i32) -> (r: Option<(i32, u32, u32)>)
    ensures
        match r {
            Some((y, m, d)) => local_date(secs as int, nanos as int, offset as int) == Some(
                (y as int, m as int, d as int),
            ),
            None => local_date(secs as int, nanos as int, offset as int) is None,
        },
{
    let offset = chrono::FixedOffset::east_opt(offset)?;
    let at = chrono::DateTime::from_timestamp(secs, nanos)?;
    let day = at.naive_utc().checked_add_offset(offset)?.date();
    Some((day.year(), day.month(), day.day()))
}

/// A record's date as the storing service files it: the instant with its
/// offset, and the calendar day at that offset.
#[derive(Debug, Clone, Copy, PartialEq, Eq, Structural)]
pub struct StoredDate {
    pub unix_seconds: i64,
    pub subsec_nanos: u32,
    pub offset_seconds: i32,
    pub year: i32,
    pub month: u32,
    pub day: u32,
}

/// Why a record's date cannot be stored.
#[derive(Debug, Clone, Copy, PartialEq, Eq, Structural)]
pub enum DateParseError {
    /// The date is not RFC 3339 text.
    NotRfc3339,
    /// The instant has no calendar date at its offset.
    OutOfRange,
}

/// Reads a record's date and the day it is filed under: the date in the
/// record's own offset.
pub fn stored_date(record_date: &str) -> (r: Result<StoredDate, DateParseError>)
    ensures
        r == Err::<StoredDate, DateParseError>(DateParseError::NotRfc3339) <==> rfc3339_parsed(
            record_date@,
        ) is None,
        r == Err::<StoredDate, DateParseError>(DateParseError::OutOfRange) <==> (rfc3339_parsed(
            record_date@,
        ) matches Some((s, n, o)) && local_date(s, n, o) is None),
        r matches Ok(d) ==> {
            &&& rfc3339_parsed(record_date@) == Some(
                (d.unix_seconds as int, d.subsec_nanos as int, d.offset_seconds as int),
            )
            &&& local_date(d.unix_seconds as int, d.subsec_nanos as int, d.offset_seconds as int)
                == Some((d.year as int, d.month as int, d.day as int))
        },
{
    let (unix_seconds, subsec_nanos, offset_seconds) = match parse_rfc3339(record_date) {
        Some(p) => p,
        None => return Err(DateParseError::NotRfc3339),
    };
    let (year, month, day) = match local_date_of(unix_seconds, subsec_nanos, offset_seconds) {
        Some(d) => d,
        None => return Err(DateParseError::OutOfRange),
    };
    Ok(StoredDate { unix_seconds, subsec_nanos, offset_seconds, year, month, day })
}

} // verus!
