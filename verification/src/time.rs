//! Points in time, in nanoseconds since the beginning of 1970.
use std::fmt::Write;

use vstd::prelude::*;

verus! {

/// The number of nanoseconds in a second.
pub const NANOS: i128 = 1_000_000_000;

/// The day that a text names in a given format, counted from the first day of 1970; none where
/// it names no day.
pub uninterp spec fn named_day(text: Seq<char>, format: Seq<char>) -> Option<i64>;

/// `chrono::NaiveDate::parse_from_str`: the day that a text names, counted from the first day
/// of 1970. Which texts a format accepts is left to the crate.
#[verifier::external_body]
pub(crate) fn parse_day(text: &str, format: &str) -> (r: Option<i64>)
    ensures
        r == named_day(text@, format@),
{
    chrono::NaiveDate::parse_from_str(text, format).ok().map(
        |day| day.signed_duration_since(chrono::NaiveDate::default()).num_days(),
    )
}

/// The calendar holds a point in time: it lies between the beginning of the year -262143 and the
/// end of the year 262142.
pub open spec fn in_calendar(seconds: int) -> bool {
    -8_334_601_228_800 <= seconds <= 8_210_266_876_799
}

/// `chrono::DateTime::checked_sub_signed`: the point in time that lies `span` seconds before
/// another, where the calendar of the crate holds both.
#[verifier::external_body]
pub(crate) fn go_back(seconds: i64, nanos: u32, span: i64) -> (r: Option<(i64, u32)>)
    requires
        nanos < 1_000_000_000,
    ensures
        match r {
            Some((s, n)) => in_calendar(seconds as int) && in_calendar(seconds - span) && s
                == seconds - span && n == nanos,
            None => !in_calendar(seconds as int) || !in_calendar(seconds - span),
        },
{
    let time = chrono::DateTime::<chrono::Utc>::from_timestamp(seconds, nanos)?;
    let earlier = time.checked_sub_signed(chrono::TimeDelta::try_seconds(span)?)?;
    Some((earlier.timestamp(), earlier.timestamp_subsec_nanos()))
}

/// A point in time of the universal calendar, written in a given format; none where the
/// calendar does not hold it or the format cannot be used.
pub uninterp spec fn written(seconds: i64, nanos: u32, format: Seq<char>) -> Option<Seq<char>>;

/// `chrono::DateTime::format` in universal time: a point in time written in a given format.
#[verifier::external_body]
pub(crate) fn write_time(seconds: i64, nanos: u32, format: &str) -> (r: Option<String>)
    ensures
        match r {
            Some(s) => written(seconds, nanos, format@) == Some(s@),
            None => written(seconds, nanos, format@) is None,
        },
{
    let time = chrono::DateTime::<chrono::Utc>::from_timestamp(seconds, nanos)?;
    let mut out = String::new();
    write!(out, "{}", time.format(format)).ok()?;
    Some(out)
}

/// The whole seconds of a point in time.
pub open spec fn seconds_of(time: i128) -> int {
    time as int / 1_000_000_000
}

/// The nanoseconds beyond the whole seconds of a point in time.
pub open spec fn nanos_of(time: i128) -> int {
    time as int % 1_000_000_000
}

/// The whole seconds of a point in time, and the nanoseconds beyond them.
pub fn split_time(time: i128) -> (r: (i128, u32))
    ensures
        r.0 == seconds_of(time),
        r.1 == nanos_of(time),
        r.1 < 1_000_000_000,
{
    let quotient: i128 = time / NANOS;
    let rest: i128 = time % NANOS;
    if rest < 0 {
        (quotient - 1, (rest + NANOS) as u32)
    } else {
        (quotient, rest as u32)
    }
}

/// A point in time as it is shown in a format; none where it cannot be shown.
pub open spec fn shown(time: i128, format: Seq<char>) -> Option<Seq<char>> {
    if i64::MIN <= seconds_of(time) <= i64::MAX {
        written(seconds_of(time) as i64, nanos_of(time) as u32, format)
    } else {
        None
    }
}

/// A point in time as it is shown in a format.
pub fn show(time: i128, format: &str) -> (r: Option<String>)
    ensures
        match r {
            Some(s) => shown(time, format@) == Some(s@),
            None => shown(time, format@) is None,
        },
{
    let (seconds, nanos) = split_time(time);
    if seconds < i64::MIN as i128 || seconds > i64::MAX as i128 {
        None
    } else {
        write_time(seconds as i64, nanos, format)
    }
}

/// A point in time as it is shown in a format, or other words where it cannot be shown.
pub open spec fn shown_or(time: Option<i128>, format: Seq<char>, other: Seq<char>) -> Seq<char> {
    match time {
        None => other,
        Some(t) => match shown(t, format) {
            Some(s) => s,
            None => other,
        },
    }
}

/// A point in time as it is shown in a format, or other words where it cannot be shown.
pub fn show_or(time: Option<i128>, format: &str, other: &str) -> (r: String)
    ensures
        r@ == shown_or(time, format@, other@),
{
    match time {
        None => other.to_owned(),
        Some(t) => match show(t, format) {
            Some(s) => s,
            None => other.to_owned(),
        },
    }
}

/// The point in time that a text names in the form of RFC 3339: the seconds since 1970, and the
/// nanoseconds beyond them; none where it names none.
pub uninterp spec fn named_instant(text: Seq<char>) -> Option<(i64, u32)>;

/// `chrono::DateTime::parse_from_rfc3339`: the point in time that a text names. Which texts name
/// one is left to the crate.
#[verifier::external_body]
pub(crate) fn parse_instant(text: &str) -> (r: Option<(i64, u32)>)
    ensures
        r == named_instant(text@),
{
    chrono::DateTime::parse_from_rfc3339(text).ok().map(
        |time| (time.timestamp(), time.timestamp_subsec_nanos()),
    )
}

/// A point in time of the universal calendar in the form of RFC 3339, with `Z` for the zone
/// where `use_z` says so; none where the calendar does not hold it.
pub uninterp spec fn rfc3339(seconds: i64, nanos: u32, use_z: bool) -> Option<Seq<char>>;

/// `chrono::DateTime::to_rfc3339_opts` in universal time, with as many digits behind the second
/// as it takes: a point in time in the form of RFC 3339.
#[verifier::external_body]
pub(crate) fn write_stamp(seconds: i64, nanos: u32, use_z: bool) -> (r: Option<String>)
    ensures
        match r {
            Some(s) => rfc3339(seconds, nanos, use_z) == Some(s@),
            None => rfc3339(seconds, nanos, use_z) is None,
        },
{
    let time = chrono::DateTime::<chrono::Utc>::from_timestamp(seconds, nanos)?;
    Some(time.to_rfc3339_opts(chrono::SecondsFormat::AutoSi, use_z))
}

/// A point in time in the form of RFC 3339; none where it has none.
pub open spec fn stamped(time: i128, use_z: bool) -> Option<Seq<char>> {
    if i64::MIN <= seconds_of(time) <= i64::MAX {
        rfc3339(seconds_of(time) as i64, nanos_of(time) as u32, use_z)
    } else {
        None
    }
}

/// A point in time in the form of RFC 3339.
pub fn stamp(time: i128, use_z: bool) -> (r: Option<String>)
    ensures
        match r {
            Some(s) => stamped(time, use_z) == Some(s@),
            None => stamped(time, use_z) is None,
        },
{
    let (seconds, nanos) = split_time(time);
    if seconds < i64::MIN as i128 || seconds > i64::MAX as i128 {
        None
    } else {
        write_stamp(seconds as i64, nanos, use_z)
    }
}

/// A point in time in the form of RFC 3339, where there is one.
pub open spec fn stamped_if(time: Option<i128>, use_z: bool) -> Option<Seq<char>> {
    match time {
        Some(t) => stamped(t, use_z),
        None => None,
    }
}

/// A point in time in the form of RFC 3339, where there is one.
pub fn stamp_if(time: Option<i128>, use_z: bool) -> (r: Option<String>)
    ensures
        match r {
            Some(s) => stamped_if(time, use_z) == Some(s@),
            None => stamped_if(time, use_z) is None,
        },
{
    match time {
        Some(t) => stamp(t, use_z),
        None => None,
    }
}

// ---------------------------------------------------------------------------
// Seconds and their parts
// ---------------------------------------------------------------------------

/// A time is its whole seconds and the parts of a second that are left, fewer than a thousand
/// million and never negative, also before the beginning of the count.
pub proof fn times_are_seconds_and_parts(time: i128)
    ensures
        seconds_of(time) * 1_000_000_000 + nanos_of(time) == time,
        0 <= nanos_of(time) < 1_000_000_000,
{
}

} // verus!
