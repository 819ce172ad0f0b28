use vstd::prelude::*;

use chrono::Timelike;

use crate::error::DataError;

verus! {

pub const SECONDS_PER_DAY: u32 = 86_400;

pub const NANOS_PER_SECOND: u32 = 1_000_000_000;

/// A time of day: the time elapsed since midnight UTC, below 24 hours.
#[derive(Clone, Copy, Debug, PartialEq, Eq, Structural)]
pub struct DurationWrapper {
    pub seconds: u32,
    pub nanos: u32,
}

impl DurationWrapper {
    /// The offset lies in `[0, 24h)`.
    pub open spec fn wf(self) -> bool {
        self.seconds < SECONDS_PER_DAY && self.nanos < NANOS_PER_SECOND
    }

    /// The offset in nanoseconds.
    pub open spec fn total_nanos(self) -> int {
        self.seconds * NANOS_PER_SECOND + self.nanos
    }

    /// Whether two offsets are the same instant of the day.
    pub fn same(&self, other: &Self) -> (r: bool)
        ensures
            r == (*self == *other),
    {
        self.seconds == other.seconds && self.nanos == other.nanos
    }
}

/// The UTC time of day of an RFC 3339 timestamp, as chrono reads it: seconds
/// since midnight and nanoseconds within the second.
pub uninterp spec fn rfc3339_utc_clock(s: Seq<char>) -> Option<(u32, u32)>;

/// Relies on chrono's `DateTime::parse_from_rfc3339`, then `with_timezone(&Utc)`
/// and the `Timelike` reads `num_seconds_from_midnight` (0 to 86399) and
/// `nanosecond` (below 2e9, the upper half marking a leap second). `None` where
/// chrono refuses the text.
#[verifier::external_body]
fn utc_clock(s: &str) -> (r: Option<(u32, u32)>)
    ensures
        r == rfc3339_utc_clock(s@),
        r matches Some((sec, ns)) ==> sec < SECONDS_PER_DAY && ns < 2 * NANOS_PER_SECOND,
{
    match chrono::DateTime::parse_from_rfc3339(s) {
        Ok(d) => {
            let t = d.with_timezone(&chrono::Utc).time();
            Some((t.num_seconds_from_midnight(), t.nanosecond()))
        },
        Err(_) => None,
    }
}

/// The offset named by a UTC clock reading; a leap second, which would reach
/// past 24 hours, is refused.
pub open spec fn offset_of_clock(clock: Option<(u32, u32)>) -> Result<DurationWrapper, DataError> {
    match clock {
        Some((sec, ns)) => if sec < SECONDS_PER_DAY && ns < NANOS_PER_SECOND {
            Ok(DurationWrapper { seconds: sec, nanos: ns })
        } else {
            Err(DataError::MalformedTimestamp)
        },
        None => Err(DataError::MalformedTimestamp),
    }
}

/// The time-of-day offset of a timestamp, in the terms of the chrono reading.
pub open spec fn time_offset(s: Seq<char>) -> Result<DurationWrapper, DataError> {
    offset_of_clock(rfc3339_utc_clock(s))
}

/// A timestamp whose UTC clock reads `sec` seconds and `ns` nanoseconds past
/// midnight, short of a leap second, gives exactly that offset: re-reading a
/// normalised UTC timestamp yields its own time of day.
pub proof fn lemma_clock_offset_exact(s: Seq<char>, sec: u32, ns: u32)
    requires
        rfc3339_utc_clock(s) == Some((sec, ns)),
        sec < SECONDS_PER_DAY,
        ns < NANOS_PER_SECOND,
    ensures
        time_offset(s) == Ok::<DurationWrapper, DataError>(DurationWrapper { seconds: sec, nanos: ns }),
        time_offset(s)->Ok_0.total_nanos() == sec * NANOS_PER_SECOND + ns,
{
}

/// Turns a UTC clock reading (or its absence) into a time-of-day offset.
pub fn offset_from_clock(clock: Option<(u32, u32)>) -> (r: Result<DurationWrapper, DataError>)
    ensures
        r == offset_of_clock(clock),
        r matches Ok(d) ==> d.wf(),
{
    match clock {
        Some((sec, ns)) => if sec < SECONDS_PER_DAY && ns < NANOS_PER_SECOND {
            Ok(DurationWrapper { seconds: sec, nanos: ns })
        } else {
            Err(DataError::MalformedTimestamp)
        },
        None => Err(DataError::MalformedTimestamp),
    }
}

/// Parses an RFC 3339 timestamp into the time elapsed since midnight UTC of
/// its day. Fails with `MalformedTimestamp` on text that is not RFC 3339.
pub fn parse_time(datetime: &String) -> (r: Result<DurationWrapper, DataError>)
    ensures
        r == time_offset(datetime@),
        r matches Ok(d) ==> d.wf(),
        rfc3339_utc_clock(datetime@) is None ==> r == Err::<DurationWrapper, DataError>(
            DataError::MalformedTimestamp,
        ),
{
    offset_from_clock(utc_clock(datetime.as_str()))
}

} // verus!
