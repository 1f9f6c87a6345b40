//! Times and dates, as the headers of a response show them.

use std::time::SystemTime;
use vstd::prelude::*;

verus! {

/// `std::time::SystemTime`, a time as the system measures it. The library
/// asks only how far it lies from the first of January 1970.
#[verifier::external_type_specification]
#[verifier::external_body]
pub struct ExSystemTime(std::time::SystemTime);

/// A point in time: the seconds since the first of January 1970, which are
/// negative before that day, and the nanoseconds that follow them.
#[derive(PartialEq, Eq, Structural, Debug, Copy, Clone)]
pub struct Stamp {
    pub secs: i64,
    pub nanos: u32,
}

/// `SystemTime::now` reads the clock. Nothing is claimed of the time that
/// it returns.
pub assume_specification[ std::time::SystemTime::now ]() -> (t: std::time::SystemTime)
;

/// How a date is written in a header, as in `Tue, 01 Mar 2016, 12:00:00 UTC`.
pub const DATE_FORMAT: &'static str = "%a, %d %b %Y, %H:%M:%S %Z";

/// How a date is read from a header: as it is written, in UTC only.
pub const DATE_PATTERN: &'static str = "%a, %d %b %Y, %H:%M:%S UTC";

/// The text that `chrono` writes in the format `format` for the time `secs`
/// seconds after the first of January 1970 in UTC; nothing for a time that
/// it cannot hold and for a format that it cannot write.
pub uninterp spec fn date_written(secs: int, format: Seq<char>) -> Option<Seq<char>>;

/// The time in seconds after the first of January 1970 that `chrono` reads
/// from `text` by the format `format`; nothing for a text that is not of
/// that format.
pub uninterp spec fn date_read(text: Seq<char>, format: Seq<char>) -> Option<int>;

/// `DateTime::from_timestamp`, `DateTime::format` and
/// `DelayedFormat::write_to`: the text depends on the number of seconds and
/// the format alone.
#[verifier::external_body]
pub(crate) fn write_date(secs: i64, format: &str) -> (r: Option<String>)
    ensures
        r is Some <==> date_written(secs as int, format@) is Some,
        r is Some ==> r->Some_0@ == date_written(secs as int, format@)->Some_0,
{
    let time = chrono::DateTime::<chrono::Utc>::from_timestamp(secs, 0)?;
    let mut text = String::new();
    match time.format(format).write_to(&mut text) {
        Ok(()) => Some(text),
        Err(_) => None,
    }
}

/// `NaiveDateTime::parse_from_str` followed by `NaiveDateTime::and_utc` and
/// `DateTime::timestamp`: the outcome depends on the text and the format
/// alone.
#[verifier::external_body]
pub(crate) fn read_date(text: &str, format: &str) -> (r: Option<i64>)
    ensures
        r is Some <==> date_read(text@, format@) is Some,
        r is Some ==> r->Some_0 == date_read(text@, format@)->Some_0,
{
    match chrono::NaiveDateTime::parse_from_str(text, format) {
        Ok(time) => Some(time.and_utc().timestamp()),
        Err(_) => None,
    }
}

/// The text of a time as a header shows it: the time `secs` seconds after
/// the first of January 1970, written in `DATE_FORMAT`.
pub open spec fn http_date_text(secs: int) -> Option<Seq<char>> {
    date_written(secs, DATE_FORMAT@)
}

/// The time in seconds that a header names: what `text` says when it is read
/// by `DATE_PATTERN`.
pub open spec fn http_date_secs(text: Seq<char>) -> Option<int> {
    date_read(text, DATE_PATTERN@)
}

/// Writes a time as a header shows it.
pub fn write_http_date(secs: i64) -> (r: Option<String>)
    ensures
        r is Some <==> http_date_text(secs as int) is Some,
        r is Some ==> r->Some_0@ == http_date_text(secs as int)->Some_0,
{
    write_date(secs, DATE_FORMAT)
}

/// Reads the time that a header names.
pub fn read_http_date(text: &str) -> (r: Option<i64>)
    ensures
        r is Some <==> http_date_secs(text@) is Some,
        r is Some ==> r->Some_0 == http_date_secs(text@)->Some_0,
{
    read_date(text, DATE_PATTERN)
}

/// How far a system time lies from the first of January 1970, in seconds and
/// nanoseconds: after that day (`Ok`) or before it (`Err`).
pub uninterp spec fn epoch_distance(t: SystemTime) -> Result<(u64, u32), (u64, u32)>;

/// `SystemTime::duration_since` the epoch, taken apart with
/// `Duration::as_secs` and `Duration::subsec_nanos`: the distance depends on
/// the time alone.
#[verifier::external_body]
pub(crate) fn since_epoch(t: SystemTime) -> (r: Result<(u64, u32), (u64, u32)>)
    ensures
        r == epoch_distance(t),
{
    match t.duration_since(std::time::UNIX_EPOCH) {
        Ok(after) => Ok((after.as_secs(), after.subsec_nanos())),
        Err(e) => Err((e.duration().as_secs(), e.duration().subsec_nanos())),
    }
}

/// The point in time that lies `secs` seconds and `nanos` nanoseconds after
/// the first of January 1970, or before it. A time before that day counts
/// its seconds down and its nanoseconds up. There is none where the seconds
/// do not fit.
pub open spec fn stamp_of(before: bool, secs: u64, nanos: u32) -> Option<Stamp> {
    if !before {
        if secs <= i64::MAX {
            Some(Stamp { secs: secs as i64, nanos })
        } else {
            None
        }
    } else if nanos == 0 {
        if secs <= i64::MAX {
            Some(Stamp { secs: (-(secs as int)) as i64, nanos: 0 })
        } else {
            None
        }
    } else if secs < i64::MAX && nanos < 1_000_000_000 {
        Some(Stamp { secs: (-(secs as int) - 1) as i64, nanos: (1_000_000_000 - nanos) as u32 })
    } else {
        None
    }
}

/// The point in time at a distance from the first of January 1970.
pub fn stamp(before: bool, secs: u64, nanos: u32) -> (r: Option<Stamp>)
    ensures
        r == stamp_of(before, secs, nanos),
{
    if secs > 0x7fff_ffff_ffff_ffff {
        return None;
    }
    let whole: i64 = secs as i64;
    if !before {
        Some(Stamp { secs: whole, nanos })
    } else if nanos == 0 {
        Some(Stamp { secs: -whole, nanos: 0 })
    } else if secs < 0x7fff_ffff_ffff_ffff && nanos < 1_000_000_000 {
        Some(Stamp { secs: -whole - 1, nanos: 1_000_000_000 - nanos })
    } else {
        None
    }
}

/// Converts a system time to a point in time.
pub fn _conv_systemtime(t: SystemTime) -> (r: Option<Stamp>)
    ensures
        r == stamp_at(t),
{
    match since_epoch(t) {
        Ok((secs, nanos)) => stamp(false, secs, nanos),
        Err((secs, nanos)) => stamp(true, secs, nanos),
    }
}

/// Whether a text is what a `Date` header of the library can hold: the text
/// of some time, or nothing.
pub open spec fn is_date(date: Seq<char>) -> bool {
    date.len() == 0 || exists|secs: int| http_date_text(secs) == Some(date)
}

/// The time of the clock as the `Date` header shows it, as in
/// `Tue, 01 Mar 2016, 12:00:00 UTC`: the text of the time that the clock
/// gave, whatever that time is.
pub fn http_date_now() -> (date: String)
    ensures
        from_clock(date@),
        is_date(date@),
{
    let now = SystemTime::now();
    let date = http_date(now);
    assert(date@ == date_text(now));
    date
}

/// Whether a text is the date of a time that the clock gave.
pub open spec fn from_clock(date: Seq<char>) -> bool {
    exists|now: SystemTime| date == #[trigger] date_text(now)
}

/// The point in time that a system time stands for, where its seconds fit.
pub open spec fn stamp_at(t: SystemTime) -> Option<Stamp> {
    match epoch_distance(t) {
        Ok((secs, nanos)) => stamp_of(false, secs, nanos),
        Err((secs, nanos)) => stamp_of(true, secs, nanos),
    }
}

/// A system time as the `Date` header shows it: the text of its whole
/// seconds, and no text for a time that cannot be written.
pub open spec fn date_text(t: SystemTime) -> Seq<char> {
    match stamp_at(t) {
        Some(at) => match http_date_text(at.secs as int) {
            Some(text) => text,
            None => Seq::empty(),
        },
        None => Seq::empty(),
    }
}

/// A system time as the `Date` header shows it.
pub fn http_date(t: SystemTime) -> (date: String)
    ensures
        date@ == date_text(t),
        is_date(date@),
{
    let written = match _conv_systemtime(t) {
        Some(at) => write_http_date(at.secs),
        None => None,
    };
    match written {
        Some(date) => date,
        None => String::new(),
    }
}

} // verus!
