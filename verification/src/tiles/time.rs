//! The time tile: the local time in the configured formats.
use vstd::prelude::*;

use std::fmt::Write;

use crate::config::{Interval, TimeConfig};
use crate::tile::{opt_text, Block};

verus! {

broadcast use vstd::string::group_string_axioms;

/// A reading of the local clock: the local date and time of day, and the
/// offset of the local time zone from UTC in seconds.
#[derive(Clone, Copy, Debug, PartialEq, Eq, Structural)]
pub struct LocalTime {
    pub year: i32,
    pub month: u32,
    pub day: u32,
    pub hour: u32,
    pub minute: u32,
    pub second: u32,
    pub nanosecond: u32,
    pub offset_secs: i32,
}

/// The text that chrono writes for the given local date, time and offset in the
/// `strftime`-like `format`, or `None` where the values make no date and time
/// or the format cannot be written.
pub uninterp spec fn strftime(
    year: int,
    month: nat,
    day: nat,
    hour: nat,
    minute: nat,
    second: nat,
    nanosecond: nat,
    offset_secs: int,
    format: Seq<char>,
) -> Option<Seq<char>>;

/// The text that `format` gives for the time `t`.
pub open spec fn format_of(t: LocalTime, format: Seq<char>) -> Option<Seq<char>> {
    strftime(
        t.year as int,
        t.month as nat,
        t.day as nat,
        t.hour as nat,
        t.minute as nat,
        t.second as nat,
        t.nanosecond as nat,
        t.offset_secs as int,
        format,
    )
}

/// chrono's `DateTime::format(format)`, written out, for the time `t` taken at
/// its offset (`FixedOffset::east_opt`, `NaiveDate::from_ymd_opt`,
/// `and_hms_nano_opt`, `from_local_datetime`). The contract claims only that
/// the text depends on the time and the format alone, named `strftime`; `None`
/// stands for values that make no time and for a format chrono cannot write.
#[verifier::external_body]
fn format_local(t: &LocalTime, format: &str) -> (r: Option<String>)
    ensures
        opt_text(r) == strftime(
            t.year as int,
            t.month as nat,
            t.day as nat,
            t.hour as nat,
            t.minute as nat,
            t.second as nat,
            t.nanosecond as nat,
            t.offset_secs as int,
            format@,
        ),
{
    let offset = chrono::FixedOffset::east_opt(t.offset_secs)?;
    let date = chrono::NaiveDate::from_ymd_opt(t.year, t.month, t.day)?;
    let local = date.and_hms_nano_opt(t.hour, t.minute, t.second, t.nanosecond)?;
    let time = chrono::TimeZone::from_local_datetime(&offset, &local).single()?;
    let mut text = String::new();
    write!(text, "{}", time.format(format)).ok()?;
    Some(text)
}

/// The time block for the local time written in the long and the short format.
pub fn time_block(full: String, short: String) -> (b: Block)
    ensures
        b.shows(full@, Some(short@), "time"@),
{
    Block::with_text(full, Some(short), "time".to_string())
}

/// The time block for the clock reading `t`: the time in the configured format,
/// and in the short format where space is scarce; `None` where either format
/// cannot be written for it.
pub fn time_tile(t: &LocalTime, config: &TimeConfig) -> (r: Option<Block>)
    ensures
        match (format_of(*t, config.format@), format_of(*t, config.short_format@)) {
            (Some(f), Some(s)) => r matches Some(b) && b.shows(f, Some(s), "time"@),
            _ => r is None,
        },
{
    let full = match format_local(t, config.format.as_str()) {
        Some(f) => f,
        None => return None,
    };
    let short = match format_local(t, config.short_format.as_str()) {
        Some(s) => s,
        None => return None,
    };
    Some(time_block(full, short))
}

/// How long the time tile waits after showing a time whose fraction of a
/// second is `subsec_nanos`: until the next whole second.
pub open spec fn pause_after(subsec_nanos: u32) -> Interval {
    if subsec_nanos == 0 {
        Interval { secs: 1, nanos: 0 }
    } else {
        Interval { secs: 0, nanos: (1_000_000_000 - subsec_nanos) as u32 }
    }
}

/// The wait until the next whole second, from a time `subsec_nanos` into the
/// current one; the wait and the fraction already gone make exactly a second.
pub fn pause_until_next_second(subsec_nanos: u32) -> (p: Interval)
    requires
        subsec_nanos < 1_000_000_000,
    ensures
        p == pause_after(subsec_nanos),
        p.secs * 1_000_000_000 + p.nanos + subsec_nanos == 1_000_000_000,
        p.nanos < 1_000_000_000,
{
    if subsec_nanos == 0 {
        Interval { secs: 1, nanos: 0 }
    } else {
        Interval { secs: 0, nanos: 1_000_000_000 - subsec_nanos }
    }
}

} // verus!
