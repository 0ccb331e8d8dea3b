//! Points in time as plain values, and their rendering by `chrono`.
use vstd::prelude::*;
use crate::text::opt_text;

verus! {

/// A point in time with the offset of the zone it is to be shown in:
/// `seconds` and `nanos` count from 1970-01-01 00:00:00 UTC, `offset` is the
/// zone's local time minus UTC, in seconds.
#[derive(Clone, Copy, Debug, PartialEq, Eq)]
pub struct Moment {
    pub seconds: i64,
    pub nanos: u32,
    pub offset: i32,
}

/// The text that `chrono` renders a moment to under a `strftime` format, or
/// `None` where `chrono` cannot represent the moment or rejects the format.
pub uninterp spec fn formatted_moment(
    seconds: int,
    nanos: int,
    offset: int,
    format: Seq<char>,
) -> Option<Seq<char>>;

/// Trusted: reads the clock with `chrono::Local::now` and hands the instant
/// back with the local offset that `chrono` found for it. Nothing is claimed
/// of the value: it depends on the clock and on the machine's time zone.
#[verifier::external_body]
pub(crate) fn local_now() -> (r: Moment) {
    let now = chrono::Local::now();
    Moment {
        seconds: now.timestamp(),
        nanos: now.timestamp_subsec_nanos(),
        offset: now.offset().local_minus_utc(),
    }
}

/// Trusted: builds the `chrono::DateTime` that the moment stands for
/// (`DateTime::from_timestamp`, `FixedOffset::east_opt`,
/// `DateTime::with_timezone`) and renders it with `DateTime::format`, writing
/// through `DelayedFormat::write_to` so that a format that `chrono` rejects
/// gives `None` instead of a panic. The result depends on the four values
/// alone and is only named.
#[verifier::external_body]
pub(crate) fn format_moment(moment: Moment, format: &str) -> (r: Option<String>)
    ensures
        opt_text(r) == formatted_moment(
            moment.seconds as int,
            moment.nanos as int,
            moment.offset as int,
            format@,
        ),
{
    let utc = chrono::DateTime::from_timestamp(moment.seconds, moment.nanos)?;
    let zone = chrono::FixedOffset::east_opt(moment.offset)?;
    let mut out = String::new();
    match utc.with_timezone(&zone).format(format).write_to(&mut out) {
        Ok(()) => Some(out),
        Err(_) => None,
    }
}

} // verus!
