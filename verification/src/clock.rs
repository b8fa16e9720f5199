//! Wall-clock questions the bus pages ask of `chrono`.
use vstd::prelude::*;

verus! {

/// The seconds in a day.
pub open spec fn day_seconds() -> int {
    86_400
}

/// The earliest timestamp `chrono` can place on its UTC time line: the first second
/// of January 1 of the year -262143, its earliest date.
pub open spec fn chrono_min_second() -> int {
    -8_334_601_228_800
}

/// The latest timestamp `chrono` can place on its UTC time line: the last second of
/// December 31 of the year 262142, its latest date.
pub open spec fn chrono_max_second() -> int {
    8_210_266_876_799
}

/// The time of day, in seconds after midnight, that the UTC timestamp `ts` shows on a
/// clock `offset` seconds ahead of UTC.
pub open spec fn seconds_into_local_day(ts: int, offset: int) -> int {
    (ts + offset) % day_seconds()
}

/// How `chrono` reads the text as a time of day in the format `%H:%M:%S`: the
/// seconds after midnight, or `None` when it does not read it.
pub uninterp spec fn chrono_clock_seconds(text: Seq<char>) -> Option<u32>;

/// Reads a GTFS schedule time such as `"14:05:00"` as seconds after midnight.
///
/// Calls `chrono::NaiveTime::parse_from_str(text, "%H:%M:%S")` and, when it succeeds,
/// takes `num_seconds_from_midnight()` of the time. The result is named
/// `chrono_clock_seconds` of the text; `chrono` documents it as the non-leap seconds
/// past midnight, so it is below a day.
#[verifier::external_body]
pub fn parse_clock_time(text: &str) -> (r: Option<u32>)
    ensures
        r == chrono_clock_seconds(text@),
        r matches Some(s) ==> s < day_seconds(),
{
    match chrono::NaiveTime::parse_from_str(text, "%H:%M:%S") {
        Ok(t) => Some(chrono::Timelike::num_seconds_from_midnight(&t)),
        Err(_) => None,
    }
}

/// The Unix timestamp of today's local time `secs` seconds after midnight, in the
/// machine's time zone.
///
/// Calls `chrono::NaiveTime::from_num_seconds_from_midnight_opt(secs, 0)`, joins the
/// time with `chrono::Local::now().date_naive()`, maps it with
/// `chrono::Local.from_local_datetime(..).single()` and takes `timestamp()`. `chrono`
/// subtracts the zone's offset from the local time, and an offset lies strictly
/// within a day of UTC: so a returned timestamp shows `secs` on a clock some such
/// offset ahead of UTC, and lies within `chrono`'s range. Since the offset may be
/// anything strictly within a day, every timestamp in range meets the time-of-day
/// clause: it records what `chrono` computes, not a bound. Which date and offset
/// apply, and when the result is `None` (a local time that a zone change skips or
/// repeats), depend on the clock and the zone and are not stated.
#[verifier::external_body]
pub fn local_timestamp_today(secs: u32) -> (r: Option<i64>)
    requires
        secs < day_seconds(),
    ensures
        r matches Some(x) ==> chrono_min_second() <= x <= chrono_max_second() && exists|offset: int|
            -day_seconds() < offset < day_seconds() && #[trigger] seconds_into_local_day(x as int, offset)
                == secs,
{
    let t = match chrono::NaiveTime::from_num_seconds_from_midnight_opt(secs, 0) {
        Some(t) => t,
        None => return None,
    };
    let local = chrono::Local::now().date_naive().and_time(t);
    match chrono::TimeZone::from_local_datetime(&chrono::Local, &local).single() {
        Some(d) => Some(d.timestamp()),
        None => None,
    }
}

/// The UTC instant `ts` seconds after the epoch, read back as a timestamp.
///
/// Calls `chrono::Utc.timestamp_opt(ts, 0).single()` and takes `timestamp()`.
/// `chrono` places exactly the seconds of its date range (January 1 of the year
/// -262143 to December 31 of the year 262142) and then gives `ts` back.
#[verifier::external_body]
pub fn utc_timestamp(ts: i64) -> (r: Option<i64>)
    ensures
        r is Some == (chrono_min_second() <= ts <= chrono_max_second()),
        r matches Some(x) ==> x == ts,
{
    match chrono::TimeZone::timestamp_opt(&chrono::Utc, ts, 0).single() {
        Some(d) => Some(d.timestamp()),
        None => None,
    }
}

} // verus!
