//! Showing a timestamp as a date at a given offset from UTC.
//!
//! The offset that a place has at a point in time is for the caller to find:
//! it lies in the zone data of the machine.

use chrono::{FixedOffset, TimeZone};
use vstd::prelude::*;

verus! {

/// The first second of the year 0, counted as timestamps are.
pub const FIRST_DATE: i64 = -62_167_219_200;

/// The last second of the year 9999, counted as timestamps are.
pub const LAST_DATE: i64 = 253_402_300_799;

/// Whether a timestamp can be shown as a date at an offset of so many
/// seconds east of UTC: the offset is less than a day, and the year of the
/// local time has four digits at most and no sign.
pub open spec fn has_date(timestamp: i64, offset: i32) -> bool {
    &&& -86_400 < offset < 86_400
    &&& FIRST_DATE <= timestamp + offset <= LAST_DATE
}

/// The date and time of a timestamp at an offset of so many seconds east of
/// UTC, as chrono writes it in the form of RFC 2822:
/// `Tue, 1 Jul 2003 10:52:37 +0200`.
pub uninterp spec fn rfc2822_text(timestamp: i64, offset: i32) -> Seq<char>;

/// Calls chrono: `FixedOffset::east_opt(offset)`, on the offset in it
/// `timestamp_opt(timestamp, 0)`, and `to_rfc2822` on the single date that
/// this gives. The first gives an offset for every number of seconds under a
/// day, the second a single date for every timestamp that chrono can hold,
/// and the last writes every date whose year in local time has no more than
/// four digits and no sign. The text is a function of the timestamp and the
/// offset alone, and goes by the name `rfc2822_text`.
#[verifier::external_body]
fn date_text(timestamp: i64, offset: i32) -> (date: String)
    requires
        has_date(timestamp, offset),
    ensures
        date@ == rfc2822_text(timestamp, offset),
{
    FixedOffset::east_opt(offset).unwrap().timestamp_opt(timestamp, 0).unwrap().to_rfc2822()
}

/// The date and time of a timestamp at an offset of so many seconds east of
/// UTC. There is none where `has_date` says so.
pub fn date_line(timestamp: i64, offset: i32) -> (date: Option<String>)
    ensures
        date is Some <==> has_date(timestamp, offset),
        date is Some ==> date->0@ == rfc2822_text(timestamp, offset),
{
    let local: i128 = timestamp as i128 + offset as i128;
    if -86_400 < offset && offset < 86_400 && FIRST_DATE as i128 <= local && local
        <= LAST_DATE as i128 {
        Some(date_text(timestamp, offset))
    } else {
        None
    }
}

} // verus!
