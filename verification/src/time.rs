//! Points in time as the scanner records them, and their conversions from
//! the clocks that file systems and the prefetch files use.
use chrono::TimeZone;
use vstd::prelude::*;
use crate::scanner::Timestamp;
use crate::text::decimal;

verus! {

/// The first and last days chrono's calendar holds, counted as chrono's
/// `num_days_from_ce` counts them (1 January of year 1 is day 1): 1 January
/// of year -262143 and 31 December of year 262142.
pub open spec fn first_ce_day() -> int {
    -95746129
}

pub open spec fn last_ce_day() -> int {
    95745399
}

/// The day count of 1 January 1970.
pub open spec fn unix_epoch_ce_day() -> int {
    719163
}

/// chrono accepts `secs` seconds and `nanos` nanoseconds since the Unix
/// epoch as a UTC date and time: the day falls within its calendar, and
/// the nanoseconds are below one second, or below two seconds in the last
/// second of a minute (a leap second).
pub open spec fn chrono_accepts(secs: i64, nanos: u32) -> bool {
    let days = secs as int / 86400 + unix_epoch_ce_day();
    let second_of_day = secs as int % 86400;
    &&& first_ce_day() <= days <= last_ce_day()
    &&& nanos < 2_000_000_000
    &&& (nanos < 1_000_000_000 || second_of_day % 60 == 59)
}

/// Calls chrono's `TimeZone::timestamp_opt` for `Utc`, which gives a single
/// value exactly when `DateTime::from_timestamp` accepts the two numbers.
#[verifier::external_body]
pub(crate) fn utc_accepts(secs: i64, nanos: u32) -> (b: bool)
    ensures
        b == chrono_accepts(secs, nanos),
{
    chrono::Utc.timestamp_opt(secs, nanos).single().is_some()
}

/// The instant `secs`, `nanos`, if chrono represents it.
pub open spec fn checked_instant(secs: i64, nanos: u32) -> Option<Timestamp> {
    if chrono_accepts(secs, nanos) {
        Some(Timestamp { secs, nanos })
    } else {
        None
    }
}

/// The instant `secs`, `nanos` (seconds and nanoseconds since the Unix
/// epoch), if chrono represents it.
pub fn instant(secs: i64, nanos: u32) -> (r: Option<Timestamp>)
    ensures
        r == checked_instant(secs, nanos),
{
    if utc_accepts(secs, nanos) {
        Some(Timestamp { secs, nanos })
    } else {
        None
    }
}

/// A modification time read as a duration since the Unix epoch: the whole
/// seconds are taken as a signed number (wrapping, as `as i64` does).
pub fn timestamp_from_unix(secs: u64, nanos: u32) -> (r: Option<Timestamp>)
    ensures
        r == checked_instant(secs as i64, nanos),
{
    instant(secs as i64, nanos)
}

/// Seconds between 1601-01-01 (the Windows epoch) and 1970-01-01.
pub const WINDOWS_EPOCH_OFFSET: i64 = 11644473600;

/// A Windows FILETIME (100-nanosecond ticks since 1601) as seconds and
/// nanoseconds since the Unix epoch.
pub open spec fn filetime_parts(ft: u64) -> (i64, u32) {
    (((ft / 10_000_000) as int - WINDOWS_EPOCH_OFFSET) as i64, ((ft % 10_000_000) * 100) as u32)
}

/// A Windows FILETIME as an instant, if chrono represents it.
pub fn filetime_to_timestamp(ft: u64) -> (r: Option<Timestamp>)
    ensures
        r == checked_instant(filetime_parts(ft).0, filetime_parts(ft).1),
{
    let secs: i64 = (ft / 10_000_000) as i64 - WINDOWS_EPOCH_OFFSET;
    let nanos: u32 = ((ft % 10_000_000) * 100) as u32;
    instant(secs, nanos)
}

/// The instant `days` whole days before `now`.
pub open spec fn days_before(now: Timestamp, days: int) -> Timestamp {
    Timestamp { secs: (now.secs - days * 86400) as i64, nanos: now.nanos }
}

/// The instant `days` whole days before `now`.
pub fn days_earlier(now: Timestamp, days: u32) -> (t: Timestamp)
    requires
        now.secs - days * 86400 >= i64::MIN,
    ensures
        t == days_before(now, days as int),
{
    let delta: i64 = days as i64 * 86400;
    Timestamp { secs: now.secs - delta, nanos: now.nanos }
}

/// The proleptic Gregorian (year, month, day) of the day `days` after
/// 1 January 1970 (negative before it).
pub open spec fn civil_date(days: int) -> (int, int, int) {
    let z = days + 719468;
    let era = z / 146097;
    let doe = z - era * 146097;
    let yoe = (doe - doe / 1460 + doe / 36524 - doe / 146096) / 365;
    let doy = doe - (365 * yoe + yoe / 4 - yoe / 100);
    let mp = (5 * doy + 2) / 153;
    let d = doy - (153 * mp + 2) / 5 + 1;
    let m = if mp < 10 {
        mp + 3
    } else {
        mp - 9
    };
    let y = yoe + era * 400 + if m <= 2 {
        1int
    } else {
        0int
    };
    (y, m, d)
}

/// The decimal digits of `n`, with zeros in front up to `width` digits.
pub open spec fn padded(n: nat, width: nat) -> Seq<char> {
    let digits = decimal(n);
    if digits.len() < width {
        Seq::new((width - digits.len()) as nat, |i: int| '0') + digits
    } else {
        digits
    }
}

/// A year as chrono's `%Y` writes it: four digits for years 0 to 9999,
/// otherwise a sign and at least four digits.
pub open spec fn year_text(y: int) -> Seq<char> {
    if 0 <= y <= 9999 {
        padded(y as nat, 4)
    } else if y < 0 {
        seq!['-'] + padded((-y) as nat, 4)
    } else {
        seq!['+'] + padded(y as nat, 4)
    }
}

/// The UTC date of the instant `secs` as `%Y-%m-%d` writes it.
pub open spec fn date_text(secs: i64) -> Seq<char> {
    let (y, m, d) = civil_date(secs as int / 86400);
    year_text(y) + seq!['-'] + padded(m as nat, 2) + seq!['-'] + padded(d as nat, 2)
}

/// The UTC date and time of an instant as `%Y-%m-%d_%H-%M-%S` writes it; a
/// leap second shows as second 60.
pub open spec fn stamp_text(secs: i64, nanos: u32) -> Seq<char> {
    let sod = secs as int % 86400;
    let second = sod % 60 + if nanos >= 1_000_000_000 {
        1int
    } else {
        0int
    };
    date_text(secs) + seq!['_'] + padded((sod / 3600) as nat, 2) + seq!['-'] + padded(
        ((sod % 3600) / 60) as nat,
        2,
    ) + seq!['-'] + padded(second as nat, 2)
}

/// Calls chrono's `DateTime::from_timestamp` and `format("%Y-%m-%d")` on an
/// instant chrono accepts.
#[verifier::external_body]
fn format_day(secs: i64, nanos: u32) -> (s: String)
    requires
        chrono_accepts(secs, nanos),
    ensures
        s@ == date_text(secs),
{
    chrono::DateTime::from_timestamp(secs, nanos).unwrap().format("%Y-%m-%d").to_string()
}

/// Calls chrono's `DateTime::from_timestamp` and
/// `format("%Y-%m-%d_%H-%M-%S")` on an instant chrono accepts.
#[verifier::external_body]
fn format_stamp(secs: i64, nanos: u32) -> (s: String)
    requires
        chrono_accepts(secs, nanos),
    ensures
        s@ == stamp_text(secs, nanos),
{
    chrono::DateTime::from_timestamp(secs, nanos).unwrap().format("%Y-%m-%d_%H-%M-%S").to_string()
}

/// The date and time of an instant as `YYYY-MM-DD_hh-mm-ss`, if chrono
/// represents it.
pub fn stamp(t: Timestamp) -> (r: Option<String>)
    ensures
        match r {
            Some(s) => chrono_accepts(t.secs, t.nanos) && s@ == stamp_text(t.secs, t.nanos),
            None => !chrono_accepts(t.secs, t.nanos),
        },
{
    if utc_accepts(t.secs, t.nanos) {
        Some(format_stamp(t.secs, t.nanos))
    } else {
        None
    }
}

/// The date of an instant as `YYYY-MM-DD`, if chrono represents it.
pub fn day_text(t: Timestamp) -> (r: Option<String>)
    ensures
        match r {
            Some(s) => chrono_accepts(t.secs, t.nanos) && s@ == date_text(t.secs),
            None => !chrono_accepts(t.secs, t.nanos),
        },
{
    if utc_accepts(t.secs, t.nanos) {
        Some(format_day(t.secs, t.nanos))
    } else {
        None
    }
}

} // verus!
