//! Timestamps: raw numbers and date strings as microseconds since the epoch.

use crate::error::{ErrorKind, MeltError};
use crate::utils::json::{get_member, member, number_whole, whole_of_number, Json, JsonView};
use crate::utils::text::{chars_of, decimal_i64, parse_i64};
use vstd::prelude::*;
use vstd::utf8::encode_utf8;

verus! {

/// 1971-01-01T00:00:00Z in seconds since the epoch. A raw number is read in the largest unit in
/// which it lies after this instant.
pub const BASE_TIME_SECONDS: i64 = 31_536_000;

/// The same instant in milliseconds.
pub const BASE_TIME_MILLIS: i64 = 31_536_000_000;

/// The same instant in microseconds.
pub const BASE_TIME_MICROS: i64 = 31_536_000_000_000;

/// The same instant in nanoseconds.
pub const BASE_TIME_NANOS: i64 = 31_536_000_000_000_000;

/// The least number that, read as seconds, is a count of microseconds that fits 64 bits.
pub const MIN_RAW_TIMESTAMP: i64 = -9_223_372_036_854;

/// The greatest count of microseconds that is a count of nanoseconds that fits 64 bits.
pub const MAX_PARTITIONED_MICROS: i64 = 9_223_372_036_854_775;

/// The least such count.
pub const MIN_PARTITIONED_MICROS: i64 = -9_223_372_036_854_775;

/// A raw number as microseconds since the epoch: nanoseconds above the threshold in
/// nanoseconds, else microseconds above the threshold in microseconds, else milliseconds above
/// the threshold in milliseconds, else seconds.
pub open spec fn raw_to_micros(v: int) -> int {
    if v > BASE_TIME_NANOS {
        v / 1000
    } else if v > BASE_TIME_MICROS {
        v
    } else if v > BASE_TIME_MILLIS {
        v * 1000
    } else {
        v * 1_000_000
    }
}

/// The timestamp that a raw number stands for, where its count of microseconds fits 64 bits.
pub open spec fn checked_raw_to_micros(v: int) -> Option<i64> {
    if v >= MIN_RAW_TIMESTAMP {
        Some(raw_to_micros(v) as i64)
    } else {
        None
    }
}

/// The instant that `chrono::NaiveDateTime::parse_from_str` reads from `s` under the format
/// `fmt`, taken as UTC, in microseconds since the epoch; `None` where it reports an error.
pub uninterp spec fn naive_datetime_micros(s: Seq<char>, fmt: Seq<char>) -> Option<i64>;

/// The instant that `chrono::DateTime::parse_from_rfc3339` reads from `s`, in microseconds
/// since the epoch; `None` where it reports an error.
pub uninterp spec fn rfc3339_micros(s: Seq<char>) -> Option<i64>;

/// The instant that `chrono::DateTime::parse_from_rfc2822` reads from `s`, in microseconds
/// since the epoch; `None` where it reports an error.
pub uninterp spec fn rfc2822_micros(s: Seq<char>) -> Option<i64>;

/// `chrono::NaiveDateTime::parse_from_str`, the result taken as UTC (`and_utc`) and counted in
/// microseconds (`timestamp_micros`).
#[verifier::external_body]
fn parse_naive_datetime(s: &str, fmt: &str) -> (r: Option<i64>)
    ensures
        r == naive_datetime_micros(s@, fmt@),
{
    chrono::NaiveDateTime::parse_from_str(s, fmt).ok().map(|t| t.and_utc().timestamp_micros())
}

/// `chrono::DateTime::parse_from_rfc3339`, the result counted in microseconds
/// (`timestamp_micros`).
#[verifier::external_body]
fn parse_rfc3339(s: &str) -> (r: Option<i64>)
    ensures
        r == rfc3339_micros(s@),
{
    chrono::DateTime::parse_from_rfc3339(s).ok().map(|t| t.timestamp_micros())
}

/// `chrono::DateTime::parse_from_rfc2822`, the result counted in microseconds
/// (`timestamp_micros`).
#[verifier::external_body]
fn parse_rfc2822(s: &str) -> (r: Option<i64>)
    ensures
        r == rfc2822_micros(s@),
{
    chrono::DateTime::parse_from_rfc2822(s).ok().map(|t| t.timestamp_micros())
}

/// `chrono::Utc::now`, counted in microseconds (`timestamp_micros`). Nothing is known of the
/// result. chrono panics where the system clock stands before 1970.
#[verifier::external_body]
pub(crate) fn now_micros() -> i64 {
    chrono::Utc::now().timestamp_micros()
}

/// Reads a raw number as a timestamp in microseconds, choosing the unit by its size.
pub fn parse_i64_to_timestamp_micros(v: i64) -> (r: i64)
    requires
        v >= MIN_RAW_TIMESTAMP,
    ensures
        r == raw_to_micros(v as int),
{
    if v > BASE_TIME_NANOS {
        v / 1000
    } else if v > BASE_TIME_MICROS {
        v
    } else if v > BASE_TIME_MILLIS {
        v * 1000
    } else {
        v * 1_000_000
    }
}

/// The same, for every number: `None` where the count of microseconds does not fit 64 bits.
pub fn checked_timestamp_micros(v: i64) -> (r: Option<i64>)
    ensures
        r == checked_raw_to_micros(v as int),
        r matches Some(t) ==> t == raw_to_micros(v as int),
{
    if v >= MIN_RAW_TIMESTAMP {
        Some(parse_i64_to_timestamp_micros(v))
    } else {
        None
    }
}

/// The instant that a date string stands for, by its shape: 19 bytes with a space are
/// `YYYY-MM-DD HH:MM:SS`; with a `T` and no space, 19 bytes are `YYYY-MM-DDTHH:MM:SS` and
/// anything else is RFC 3339; all other strings are RFC 2822.
pub open spec fn date_micros(s: Seq<char>) -> Option<i64> {
    if s.contains(' ') && encode_utf8(s).len() == 19 {
        naive_datetime_micros(s, "%Y-%m-%d %H:%M:%S"@)
    } else if s.contains('T') && !s.contains(' ') {
        if encode_utf8(s).len() == 19 {
            naive_datetime_micros(s, "%Y-%m-%dT%H:%M:%S"@)
        } else {
            rfc3339_micros(s)
        }
    } else {
        rfc2822_micros(s)
    }
}

/// The timestamp that a string stands for: a whole number is read as a raw number, anything
/// else as a date.
pub open spec fn str_micros(s: Seq<char>) -> Option<i64> {
    match decimal_i64(s) {
        Some(v) => checked_raw_to_micros(v as int),
        None => date_micros(s),
    }
}

fn contains_char(chars: &Vec<char>, c: char) -> (b: bool)
    ensures
        b == chars@.contains(c),
{
    let mut i: usize = 0;
    while i < chars.len()
        invariant
            i <= chars.len(),
            forall|k: int| 0 <= k < i ==> chars@[k] != c,
        decreases chars.len() - i,
    {
        if chars[i] == c {
            return true;
        }
        i = i + 1;
    }
    false
}

/// Reads a date string in one of the four formats and returns the instant in microseconds
/// since the epoch.
pub fn parse_str_to_time(s: &str) -> (r: Result<i64, MeltError>)
    ensures
        match date_micros(s@) {
            Some(t) => r == Ok::<i64, MeltError>(t),
            None => r matches Err(e) && e.kind == ErrorKind::BadInput,
        },
{
    let chars = chars_of(s);
    let has_space = contains_char(&chars, ' ');
    let long = s.as_bytes().len();
    let parsed = if has_space && long == 19 {
        parse_naive_datetime(s, "%Y-%m-%d %H:%M:%S")
    } else if contains_char(&chars, 'T') && !has_space {
        if long == 19 {
            parse_naive_datetime(s, "%Y-%m-%dT%H:%M:%S")
        } else {
            parse_rfc3339(s)
        }
    } else {
        parse_rfc2822(s)
    };
    match parsed {
        Some(t) => Ok(t),
        None => Err(MeltError::bad_input("invalid time format [string]")),
    }
}

/// Reads a timestamp from a string: a whole number as a raw number, anything else as a date.
pub fn parse_str_to_timestamp_micros(v: &str) -> (r: Result<i64, MeltError>)
    ensures
        match str_micros(v@) {
            Some(t) => r == Ok::<i64, MeltError>(t),
            None => r matches Err(e) && e.kind == ErrorKind::BadInput,
        },
{
    match parse_i64(v) {
        Some(i) => match checked_timestamp_micros(i) {
            Some(t) => Ok(t),
            None => Err(MeltError::bad_input("invalid time format [range]")),
        },
        None => parse_str_to_time(v),
    }
}

/// The timestamp that a JSON value stands for: text by `str_micros`, a whole number as a raw
/// number, any other number cut to its whole part and then as a raw number.
pub open spec fn value_micros(v: JsonView) -> Option<i64> {
    match v {
        JsonView::Text(s) => str_micros(s),
        JsonView::Int(i) => checked_raw_to_micros(i),
        JsonView::Float(n) => checked_raw_to_micros(number_whole(n) as int),
        _ => None,
    }
}

/// Reads a timestamp in microseconds from a JSON value. Fails on what is neither text nor a
/// number, on text that is neither a whole number nor a date, and on a number whose count of
/// microseconds does not fit 64 bits.
pub fn parse_timestamp_micro_from_value(v: &Json) -> (r: Result<i64, MeltError>)
    ensures
        match value_micros(v@) {
            Some(t) => r == Ok::<i64, MeltError>(t),
            None => r matches Err(e) && e.kind == ErrorKind::BadInput,
        },
{
    let raw = match v {
        Json::String(s) => { return parse_str_to_timestamp_micros(s.as_str()); },
        Json::Int(i) => *i,
        Json::UInt(u) => {
            if *u <= 0x7fff_ffff_ffff_ffff {
                *u as i64
            } else {
                // Beyond 64 signed bits a number lies above every threshold: nanoseconds.
                return Ok((*u / 1000) as i64);
            }
        },
        Json::Float(n) => whole_of_number(n),
        _ => { return Err(MeltError::bad_input("Invalid time format [type]")); },
    };
    match checked_timestamp_micros(raw) {
        Some(t) => Ok(t),
        None => Err(MeltError::bad_input("Invalid time format [range]")),
    }
}

/// The timestamp of a record at the instant `now`: that of its field `field_name`, `now` where
/// it has none.
pub open spec fn record_micros(field_name: Seq<char>, v: JsonView, now: i64) -> Option<i64> {
    match member(v, field_name) {
        Some(value) => value_micros(value),
        None => Some(now),
    }
}

/// The timestamp of a record, given the instant to use where it has none.
pub fn parse_timestamp_at(field_name: &str, val: &Json, now: i64) -> (r: Result<i64, MeltError>)
    ensures
        match record_micros(field_name@, val@, now) {
            Some(t) => r == Ok::<i64, MeltError>(t),
            None => r matches Err(e) && e.kind == ErrorKind::BadInput,
        },
{
    match get_member(val, field_name) {
        Some(v) => parse_timestamp_micro_from_value(v),
        None => Ok(now),
    }
}

/// The timestamp of a record; the reading of the clock where it has none.
pub fn parse_timestamp(field_name: &str, val: &Json) -> (r: Result<i64, MeltError>)
    ensures
        match member(val@, field_name@) {
            Some(value) => match value_micros(value) {
                Some(t) => r == Ok::<i64, MeltError>(t),
                None => r matches Err(e) && e.kind == ErrorKind::BadInput,
            },
            None => r is Ok,
        },
{
    match get_member(val, field_name) {
        Some(v) => parse_timestamp_micro_from_value(v),
        None => Ok(now_micros()),
    }
}

} // verus!
