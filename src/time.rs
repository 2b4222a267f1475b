//! Time primitives: every time value is an integer number of nanoseconds.
use vstd::prelude::*;

verus! {

/// A time or duration in nanoseconds (one billionth of a second).
pub type Nanos = i64;

/// Nanoseconds in one second.
pub const NANOS_PER_SECOND: i64 = 1_000_000_000;

/// The tolerance used for every boundary comparison: one nanosecond.
pub const EPS: i64 = 1;

/// The clamped length of a duration: negative durations count as zero.
pub open spec fn pos(d: i64) -> int {
    if d > 0 { d as int } else { 0 }
}

/// `max(d, 0)`.
pub fn clamp_nonneg(d: i64) -> (r: i64)
    ensures
        r == pos(d),
{
    if d > 0 { d } else { 0 }
}

/// A point in time with its frame rate. The rate is carried, never computed
/// with; it is stored in billionths of a frame per second.
#[derive(Debug, Clone, PartialEq)]
pub struct RationalTime {
    pub otio_schema: String,
    pub rate: i64,
    pub value: Nanos,
}

/// A start time and a duration.
#[derive(Debug, Clone, PartialEq)]
pub struct TimeRange {
    pub otio_schema: String,
    pub duration: RationalTime,
    pub start_time: RationalTime,
}

pub fn default_rational_time_schema() -> (r: String)
    ensures
        r@ == "RationalTime.1"@,
{
    "RationalTime.1".to_string()
}

pub fn default_time_range_schema() -> (r: String)
    ensures
        r@ == "TimeRange.1"@,
{
    "TimeRange.1".to_string()
}

impl RationalTime {
    /// A copy equal to `self`.
    pub fn duplicate(&self) -> (r: RationalTime)
        ensures
            r == *self,
    {
        RationalTime { otio_schema: self.otio_schema.clone(), rate: self.rate, value: self.value }
    }

    /// A time at one frame per second.
    pub fn from_value(value: Nanos) -> (r: RationalTime)
        ensures
            r.value == value,
            r.rate == NANOS_PER_SECOND,
    {
        RationalTime { otio_schema: default_rational_time_schema(), rate: NANOS_PER_SECOND, value }
    }
}

impl TimeRange {
    /// A copy equal to `self`.
    pub fn duplicate(&self) -> (r: TimeRange)
        ensures
            r == *self,
    {
        TimeRange {
            otio_schema: self.otio_schema.clone(),
            duration: self.duration.duplicate(),
            start_time: self.start_time.duplicate(),
        }
    }

    pub fn new(duration: Nanos, start_time: Nanos) -> (r: TimeRange)
        ensures
            r.duration.value == duration,
            r.start_time.value == start_time,
    {
        TimeRange {
            otio_schema: default_time_range_schema(),
            duration: RationalTime::from_value(duration),
            start_time: RationalTime::from_value(start_time),
        }
    }

    pub fn get_duration(&self) -> (r: Nanos)
        ensures
            r == self.duration.value,
    {
        self.duration.value
    }

    pub fn get_start_time(&self) -> (r: Nanos)
        ensures
            r == self.start_time.value,
    {
        self.start_time.value
    }

    pub fn set_duration(&mut self, duration: Nanos)
        ensures
            final(self).duration.value == duration,
            final(self).duration.rate == old(self).duration.rate,
            final(self).duration.otio_schema == old(self).duration.otio_schema,
            final(self).start_time == old(self).start_time,
            final(self).otio_schema == old(self).otio_schema,
    {
        self.duration.value = duration;
    }

    pub fn set_start_time(&mut self, start_time: Nanos)
        ensures
            final(self).start_time.value == start_time,
            final(self).start_time.rate == old(self).start_time.rate,
            final(self).start_time.otio_schema == old(self).start_time.otio_schema,
            final(self).duration == old(self).duration,
            final(self).otio_schema == old(self).otio_schema,
    {
        self.start_time.value = start_time;
    }
}

} // verus!
