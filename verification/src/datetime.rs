//! Dates and times of `EXT-X-PROGRAM-DATE-TIME` and `EXT-X-DATERANGE`, read with `chrono`.
use vstd::prelude::*;
use vstd::string::*;
use crate::text::utf8;
use chrono::{Datelike, TimeZone, Timelike};

verus! {

/// A date and time with a fixed offset from UTC, as its calendar fields.
#[derive(Debug, Clone, Copy, PartialEq, Eq, Structural)]
pub struct DateTimeValue {
    pub year: i32,
    pub month: u32,
    pub day: u32,
    pub hour: u32,
    pub minute: u32,
    pub second: u32,
    pub nanosecond: u32,
    /// Seconds east of UTC.
    pub offset_seconds: i32,
}

/// What `DateTime::parse_from_rfc3339` gives for the text, as calendar fields.
pub uninterp spec fn rfc3339_result(s: Seq<u8>) -> Option<DateTimeValue>;

/// What `DateTime::parse_from_str` with `%Y-%m-%dT%H:%M:%S%.3f%:z` gives for the text.
pub uninterp spec fn millis_offset_result(s: Seq<u8>) -> Option<DateTimeValue>;

/// What `NaiveDateTime::parse_from_str` with `%Y-%m-%dT%H:%M:%S%.3f` gives for the text, as
/// calendar fields with a zero offset.
pub uninterp spec fn naive_millis_result(s: Seq<u8>) -> Option<DateTimeValue>;

/// `DateTime::parse_from_rfc3339`: its result, when it succeeds, as calendar fields; a
/// function of the text alone. What text it accepts is not stated here.
#[verifier::external_body]
fn parse_rfc3339(s: &str) -> (r: Option<DateTimeValue>)
    ensures
        r == rfc3339_result(s.spec_bytes()),
{
    chrono::DateTime::parse_from_rfc3339(s).ok().map(|d| DateTimeValue {
        year: d.year(),
        month: d.month(),
        day: d.day(),
        hour: d.hour(),
        minute: d.minute(),
        second: d.second(),
        nanosecond: d.nanosecond(),
        offset_seconds: d.offset().local_minus_utc(),
    })
}

/// `DateTime::parse_from_str(s, "%Y-%m-%dT%H:%M:%S%.3f%:z")`, as calendar fields; a function
/// of the text alone. What text it accepts is not stated here.
#[verifier::external_body]
fn parse_millis_offset(s: &str) -> (r: Option<DateTimeValue>)
    ensures
        r == millis_offset_result(s.spec_bytes()),
{
    chrono::DateTime::parse_from_str(s, "%Y-%m-%dT%H:%M:%S%.3f%:z").ok().map(|d| DateTimeValue {
        year: d.year(),
        month: d.month(),
        day: d.day(),
        hour: d.hour(),
        minute: d.minute(),
        second: d.second(),
        nanosecond: d.nanosecond(),
        offset_seconds: d.offset().local_minus_utc(),
    })
}

/// `NaiveDateTime::parse_from_str(s, "%Y-%m-%dT%H:%M:%S%.3f")`, as calendar fields with a zero
/// offset (a naive time has none); a function of the text alone. The offset is zero; what text
/// it accepts is not stated here.
#[verifier::external_body]
fn parse_naive_millis(s: &str) -> (r: Option<DateTimeValue>)
    ensures
        r == naive_millis_result(s.spec_bytes()),
        r matches Some(d) ==> d.offset_seconds == 0,
{
    chrono::NaiveDateTime::parse_from_str(s, "%Y-%m-%dT%H:%M:%S%.3f").ok().map(|d| DateTimeValue {
        year: d.year(),
        month: d.month(),
        day: d.day(),
        hour: d.hour(),
        minute: d.minute(),
        second: d.second(),
        nanosecond: d.nanosecond(),
        offset_seconds: 0,
    })
}

/// A date and time as the playlist writes it: RFC 3339 first, then with milliseconds and a
/// `+hh:mm` offset, then with milliseconds and no offset (taken as UTC).
pub open spec fn datetime_spec(s: Seq<u8>) -> Option<DateTimeValue> {
    match rfc3339_result(s) {
        Some(d) => Some(d),
        None => match millis_offset_result(s) {
            Some(d) => Some(d),
            None => naive_millis_result(s),
        },
    }
}

/// Reads a date and time, trying the three forms in order.
pub fn parse_datetime(input: &str) -> (r: Option<DateTimeValue>)
    ensures
        r == datetime_spec(input.spec_bytes()),
{
    if let Some(d) = parse_rfc3339(input) {
        return Some(d);
    }
    if let Some(d) = parse_millis_offset(input) {
        return Some(d);
    }
    parse_naive_millis(input)
}

/// What `Display` of a `chrono::DateTime<FixedOffset>` writes for the date and time with these
/// calendar fields (local date, local time, offset), or `None` where chrono makes no date and
/// time of them.
pub uninterp spec fn datetime_display(d: DateTimeValue) -> Option<Seq<u8>>;

/// Rebuilds the `chrono::DateTime<FixedOffset>` of the fields (`FixedOffset::east_opt`,
/// `NaiveDate::from_ymd_opt`, `NaiveTime::from_hms_nano_opt`, `from_local_datetime`) and
/// writes it with `Display`. Claimed: the text is the named one, a function of the fields.
#[verifier::external_body]
pub(crate) fn display_datetime(d: DateTimeValue) -> (r: Option<String>)
    ensures
        r is Some <==> datetime_display(d) is Some,
        r matches Some(s) ==> utf8(s@) == datetime_display(d)->0,
{
    let offset = chrono::FixedOffset::east_opt(d.offset_seconds)?;
    let date = chrono::NaiveDate::from_ymd_opt(d.year, d.month, d.day)?;
    let time = chrono::NaiveTime::from_hms_nano_opt(d.hour, d.minute, d.second, d.nanosecond)?;
    let local = offset.from_local_datetime(&chrono::NaiveDateTime::new(date, time)).single()?;
    Some(local.to_string())
}

/// The text of a date and time: chrono's, or nothing for fields that make no date and time.
pub open spec fn datetime_text(d: DateTimeValue) -> Seq<u8> {
    match datetime_display(d) {
        Some(t) => t,
        None => Seq::empty(),
    }
}

} // verus!
