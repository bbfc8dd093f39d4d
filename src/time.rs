use vstd::prelude::*;
use chrono::{Datelike, Timelike};
use crate::decimal::padded_digits;
use crate::text::{int_text, parse_integer, parse_int_in};

verus! {

/// A calendar date and wall-clock time with nanosecond precision.
#[derive(Debug, Copy, Clone, PartialEq, Eq, Hash, Structural)]
pub struct DateTimeValue {
    pub year: i32,
    pub month: u32,
    pub day: u32,
    pub hour: u32,
    pub minute: u32,
    pub second: u32,
    pub nanosecond: u32,
}

pub open spec fn is_leap_year(y: int) -> bool {
    (y % 4 == 0 && y % 100 != 0) || y % 400 == 0
}

pub open spec fn days_in_month(y: int, m: int) -> int {
    if m == 2 {
        if is_leap_year(y) {
            29
        } else {
            28
        }
    } else if m == 4 || m == 6 || m == 9 || m == 11 {
        30
    } else {
        31
    }
}

impl DateTimeValue {
    /// A real date of a four-digit year and a time of day without leap
    /// second.
    pub open spec fn wf(self) -> bool {
        &&& 0 <= self.year <= 9999
        &&& 1 <= self.month <= 12
        &&& 1 <= self.day <= days_in_month(self.year as int, self.month as int)
        &&& self.hour < 24
        &&& self.minute < 60
        &&& self.second < 60
        &&& self.nanosecond < 1_000_000_000
    }

    /// `wf` computed.
    pub fn is_valid(&self) -> (r: bool)
        ensures
            r == self.wf(),
    {
        if self.year < 0 || self.year > 9999 || self.month < 1 || self.month > 12 || self.day < 1 {
            return false;
        }
        let y = self.year;
        let leap = (y % 4 == 0 && y % 100 != 0) || y % 400 == 0;
        let dim: u32 = if self.month == 2 {
            if leap {
                29
            } else {
                28
            }
        } else if self.month == 4 || self.month == 6 || self.month == 9 || self.month == 11 {
            30
        } else {
            31
        };
        self.day <= dim && self.hour < 24 && self.minute < 60 && self.second < 60
            && self.nanosecond < 1_000_000_000
    }
}

/// The text of `%Y-%m-%d %H:%M:%S%.9f`: every field zero-padded, the year
/// to four digits and the nanoseconds to nine.
pub open spec fn datetime_text(d: DateTimeValue) -> Seq<char> {
    padded_digits(d.year as nat, 4) + seq!['-'] + padded_digits(d.month as nat, 2) + seq!['-']
        + padded_digits(d.day as nat, 2) + seq![' '] + padded_digits(d.hour as nat, 2) + seq![':']
        + padded_digits(d.minute as nat, 2) + seq![':'] + padded_digits(d.second as nat, 2)
        + seq!['.'] + padded_digits(d.nanosecond as nat, 9)
}

/// What `chrono` reads from a string with the format above: year, month,
/// day, hour, minute, second, nanosecond.
pub uninterp spec fn datetime_parse_of(s: Seq<char>) -> Option<(int, int, int, int, int, int, int)>;

pub open spec fn fields_of(d: DateTimeValue) -> (i32, u32, u32, u32, u32, u32, u32) {
    (d.year, d.month, d.day, d.hour, d.minute, d.second, d.nanosecond)
}

pub open spec fn int_fields(t: (i32, u32, u32, u32, u32, u32, u32)) -> (int, int, int, int, int, int, int) {
    (t.0 as int, t.1 as int, t.2 as int, t.3 as int, t.4 as int, t.5 as int, t.6 as int)
}

/// Relies on `chrono::NaiveDate::from_ymd_opt`, `NaiveDate::and_hms_nano_opt`
/// (both `Some` on the valid values required here) and `format` with
/// `%Y-%m-%d %H:%M:%S%.9f`, which zero-pads each field.
#[verifier::external_body]
fn format_datetime(d: DateTimeValue) -> (r: String)
    requires
        d.wf(),
    ensures
        r@ == datetime_text(d),
{
    chrono::NaiveDate::from_ymd_opt(d.year, d.month, d.day)
        .unwrap()
        .and_hms_nano_opt(d.hour, d.minute, d.second, d.nanosecond)
        .unwrap()
        .format("%Y-%m-%d %H:%M:%S%.9f")
        .to_string()
}

/// Relies on `chrono::NaiveDateTime::parse_from_str` with
/// `%Y-%m-%d %H:%M:%S%.9f` and on the date and time getters of the result:
/// the text that the format writes for a valid value reads back as it.
#[verifier::external_body]
fn parse_datetime(s: &str) -> (r: Option<(i32, u32, u32, u32, u32, u32, u32)>)
    ensures
        r matches Some(t) ==> datetime_parse_of(s@) == Some(int_fields(t)),
        r is None ==> datetime_parse_of(s@) is None,
        forall|d: DateTimeValue| d.wf() && s@ == #[trigger] datetime_text(d) ==> r == Some(fields_of(d)),
{
    chrono::NaiveDateTime::parse_from_str(s, "%Y-%m-%d %H:%M:%S%.9f").ok().map(
        |d| (d.year(), d.month(), d.day(), d.hour(), d.minute(), d.second(), d.nanosecond()),
    )
}

/// Canonical text of a date and time.
pub fn encode_datetime(d: DateTimeValue) -> (r: String)
    requires
        d.wf(),
    ensures
        r@ == datetime_text(d),
{
    format_datetime(d)
}

/// The value that `chrono` reads, where it is one that this library holds.
pub open spec fn decode_datetime_spec(s: Seq<char>) -> Option<DateTimeValue> {
    match datetime_parse_of(s) {
        Some(t) => {
            let d = DateTimeValue {
                year: t.0 as i32,
                month: t.1 as u32,
                day: t.2 as u32,
                hour: t.3 as u32,
                minute: t.4 as u32,
                second: t.5 as u32,
                nanosecond: t.6 as u32,
            };
            if d.wf() && int_fields(fields_of(d)) == t {
                Some(d)
            } else {
                None
            }
        },
        None => None,
    }
}

/// Reads a date and time in the canonical format; `None` on a mismatch, and
/// on a leap second or a year outside `0..=9999`.
pub fn decode_datetime(s: &str) -> (r: Option<DateTimeValue>)
    ensures
        r == decode_datetime_spec(s@),
        r matches Some(d) ==> d.wf(),
        forall|d: DateTimeValue| d.wf() && s@ == #[trigger] datetime_text(d) ==> r == Some(d),
{
    match parse_datetime(s) {
        Some(t) => {
            let d = DateTimeValue {
                year: t.0,
                month: t.1,
                day: t.2,
                hour: t.3,
                minute: t.4,
                second: t.5,
                nanosecond: t.6,
            };
            if d.is_valid() {
                Some(d)
            } else {
                None
            }
        },
        None => None,
    }
}

/// Whole seconds of `i64::MAX` milliseconds, the bound of a duration.
pub const DURATION_MAX_SECS: i64 = 9_223_372_036_854_775;

/// A signed span of time as whole seconds and a nanosecond part in
/// `0..10^9`, the total within `±i64::MAX` milliseconds.
#[derive(Debug, Copy, Clone, PartialEq, Eq, Hash, Structural)]
pub struct DurationValue {
    pub secs: i64,
    pub nanos: u32,
}

impl DurationValue {
    pub open spec fn wf(self) -> bool {
        &&& self.nanos < 1_000_000_000
        &&& -DURATION_MAX_SECS - 1 <= self.secs <= DURATION_MAX_SECS
        &&& self.secs == DURATION_MAX_SECS ==> self.nanos <= 807_000_000
        &&& self.secs == -DURATION_MAX_SECS - 1 ==> self.nanos >= 193_000_000
    }

    /// Whole seconds, rounded toward zero.
    pub open spec fn whole_seconds(self) -> int {
        if self.secs < 0 && self.nanos > 0 {
            self.secs + 1
        } else {
            self.secs as int
        }
    }

    /// A duration of `secs` whole seconds.
    pub open spec fn of_seconds(secs: int) -> DurationValue {
        DurationValue { secs: secs as i64, nanos: 0 }
    }
}

/// Relies on `chrono::TimeDelta::new`, which is `Some` exactly when the
/// span lies within `±i64::MAX` milliseconds.
#[verifier::external_body]
fn duration_in_range(secs: i64) -> (r: bool)
    ensures
        r == (-DURATION_MAX_SECS <= secs <= DURATION_MAX_SECS),
{
    chrono::TimeDelta::new(secs, 0).is_some()
}

/// Canonical text of a duration: its whole seconds.
pub open spec fn duration_text(d: DurationValue) -> Seq<char> {
    int_text(d.whole_seconds())
}

pub fn encode_duration(d: DurationValue) -> (r: String)
    ensures
        r@ == duration_text(d),
{
    let s: i64 = if d.secs < 0 && d.nanos > 0 {
        d.secs + 1
    } else {
        d.secs
    };
    crate::text::int_to_text(s as i128)
}

/// The duration that a text of whole seconds denotes.
pub open spec fn decode_duration_spec(s: Seq<char>) -> Option<DurationValue> {
    match parse_int_in(s, true, -DURATION_MAX_SECS as int, DURATION_MAX_SECS as int) {
        Some(v) => Some(DurationValue::of_seconds(v)),
        None => None,
    }
}

/// Reads a whole number of seconds; `None` for anything else or a span out
/// of range.
pub fn decode_duration(s: &str) -> (r: Option<DurationValue>)
    ensures
        r == decode_duration_spec(s@),
        r matches Some(d) ==> d.wf(),
{
    match parse_integer(s, true, i64::MIN as i128, i64::MAX as i128) {
        Some(v) => {
            let secs = v as i64;
            if duration_in_range(secs) {
                Some(DurationValue { secs, nanos: 0 })
            } else {
                None
            }
        },
        None => None,
    }
}

} // verus!
