//! The system clock and the calendar, by way of `chrono`. Instants are whole
//! seconds since the Unix epoch, in UTC.

use chrono::{Datelike, NaiveDate, Utc};
use vstd::prelude::*;

verus! {

/// One hour, the window in which an in-flight resource instance still counts.
pub const RECENT_WINDOW_SECS: i64 = 3600;

/// Midnight UTC on 1 January 2100, the default end of a validity window.
pub const FAR_FUTURE: i64 = 4102444800;

/// The seconds since the epoch at which the given UTC date and time of day
/// fall, or `None` where the calendar has no such date or time.
pub uninterp spec fn utc_epoch_secs(year: int, month: int, day: int, hour: int, min: int, sec: int) -> Option<int>;

/// What parsing `text` as `%Y-%m-%dT%H:%M:%S%z` gives, as seconds since the
/// epoch of the date and time read (the offset is parsed and not applied), or
/// `None` where the text does not parse.
pub uninterp spec fn parsed_epoch_secs(text: Seq<char>) -> Option<int>;

/// The current time from `chrono::Utc::now`, as seconds since the epoch. It
/// differs from call to call, so nothing is promised of it.
#[verifier::external_body]
pub(crate) fn now() -> (secs: i64) {
    Utc::now().timestamp()
}

/// The three-letter English names of the days of the week.
pub open spec fn is_weekday_name(name: Seq<char>) -> bool {
    ||| name == "Mon"@
    ||| name == "Tue"@
    ||| name == "Wed"@
    ||| name == "Thu"@
    ||| name == "Fri"@
    ||| name == "Sat"@
    ||| name == "Sun"@
}

/// The current instant as the calendar has it, in UTC.
pub struct Today {
    pub year: i64,
    pub month: i64,
    pub day: i64,
    pub ordinal: i64,
    pub weekday: String,
    pub epoch_secs: i64,
}

impl Today {
    /// The month counts from 1 to 12, the day of the month from 1 to 31, the
    /// day of the year from 1 to 366, and the weekday has its three-letter
    /// English name.
    pub open spec fn wf(&self) -> bool {
        &&& 1 <= self.month <= 12
        &&& 1 <= self.day <= 31
        &&& 1 <= self.ordinal <= 366
        &&& is_weekday_name(self.weekday@)
    }
}

/// The current instant from `chrono::Utc::now`, taken apart with the methods
/// of `chrono::Datelike`, which give the month from 1 to 12, the day from 1 to
/// 31 and the ordinal from 1 to 366; the weekday is written as
/// `chrono::Weekday` is printed for debugging, by the name of its variant,
/// which is the three-letter English name of the day. The instant differs from
/// call to call, so no more is promised of it.
#[verifier::external_body]
pub(crate) fn today() -> (t: Today)
    ensures
        t.wf(),
{
    let at = Utc::now();
    Today {
        year: at.year() as i64,
        month: at.month() as i64,
        day: at.day() as i64,
        ordinal: at.ordinal() as i64,
        weekday: format!("{:?}", at.weekday()),
        epoch_secs: at.timestamp(),
    }
}

/// Seconds since the epoch of a UTC date and time of day, through
/// `NaiveDate::from_ymd_opt` and `NaiveDate::and_hms_opt`, which return `None`
/// for a date or time that does not exist.
#[verifier::external_body]
pub(crate) fn epoch_secs_of(year: i32, month: u32, day: u32, hour: u32, min: u32, sec: u32) -> (r: Option<i64>)
    ensures
        match r {
            Some(secs) => utc_epoch_secs(
                year as int,
                month as int,
                day as int,
                hour as int,
                min as int,
                sec as int,
            ) == Some(secs as int),
            None => utc_epoch_secs(
                year as int,
                month as int,
                day as int,
                hour as int,
                min as int,
                sec as int,
            ) is None,
        },
{
    match NaiveDate::from_ymd_opt(year, month, day) {
        Some(date) => match date.and_hms_opt(hour, min, sec) {
            Some(at) => Some(at.and_utc().timestamp()),
            None => None,
        },
        None => None,
    }
}

/// Parses `text` with `chrono::NaiveDateTime::parse_from_str` and the format
/// `%Y-%m-%dT%H:%M:%S%z`.
#[verifier::external_body]
pub(crate) fn parse_instant(text: &str) -> (r: Option<i64>)
    ensures
        match r {
            Some(secs) => parsed_epoch_secs(text@) == Some(secs as int),
            None => parsed_epoch_secs(text@) is None,
        },
{
    match chrono::NaiveDateTime::parse_from_str(text, "%Y-%m-%dT%H:%M:%S%z") {
        Ok(at) => Some(at.and_utc().timestamp()),
        Err(_) => None,
    }
}

} // verus!
