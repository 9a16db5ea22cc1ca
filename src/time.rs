//! Points in time as the profile records them, and the clamped nanosecond
//! counts that the `pprof` format wants.
use vstd::prelude::*;

verus! {

pub const NANOS_PER_SECOND: u32 = 1_000_000_000;

/// A point in time: seconds and nanoseconds since the Unix epoch; before the
/// epoch where the seconds are negative.
#[derive(Clone, Copy, Debug, PartialEq, Eq, Structural)]
pub struct Timespec {
    pub seconds: i64,
    pub nanoseconds: u32,
}

/// The wall clock as read: its distance from the Unix epoch in whole seconds
/// and the nanoseconds below a second, after or before the epoch.
pub enum ClockReading {
    AfterEpoch { seconds: u64, nanoseconds: u32 },
    BeforeEpoch { seconds: u64, nanoseconds: u32 },
}

#[verifier::external_type_specification]
#[verifier::external_body]
pub struct ExSystemTime(std::time::SystemTime);

/// Relies on `std::time::SystemTime::now`: the wall clock's current time,
/// of which nothing is known beforehand.
#[verifier::external_body]
fn system_now() -> (r: std::time::SystemTime) {
    std::time::SystemTime::now()
}

/// Relies on `SystemTime::duration_since` measured from `UNIX_EPOCH`: the
/// distance of `t` from the epoch, after or before it; the nanoseconds below
/// a second are less than a second.
#[verifier::external_body]
fn since_epoch(t: std::time::SystemTime) -> (r: ClockReading)
    ensures
        match r {
            ClockReading::AfterEpoch { nanoseconds, .. } => nanoseconds < NANOS_PER_SECOND,
            ClockReading::BeforeEpoch { nanoseconds, .. } => nanoseconds < NANOS_PER_SECOND,
        },
{
    match t.duration_since(std::time::UNIX_EPOCH) {
        Ok(d) => ClockReading::AfterEpoch { seconds: d.as_secs(), nanoseconds: d.subsec_nanos() },
        Err(e) => ClockReading::BeforeEpoch {
            seconds: e.duration().as_secs(),
            nanoseconds: e.duration().subsec_nanos(),
        },
    }
}

/// Nanoseconds since the epoch; negative before it.
pub open spec fn epoch_nanos(t: Timespec) -> int {
    t.seconds * NANOS_PER_SECOND + t.nanoseconds
}

/// `n` clamped to `[0, i64::MAX]`.
pub open spec fn clamp_nanos(n: int) -> i64 {
    if n < 0 {
        0
    } else if n > i64::MAX {
        i64::MAX
    } else {
        n as i64
    }
}

/// The profile's start as `pprof` has it: nanoseconds since the epoch, zero
/// before it, at most `i64::MAX`.
pub open spec fn time_nanos(start: Timespec) -> i64 {
    clamp_nanos(epoch_nanos(start))
}

/// The profile's duration: the one given, else from start to end; zero where
/// the end comes first, at most `i64::MAX`.
pub open spec fn duration_nanos(start: Timespec, end: Timespec, duration: Option<u64>) -> i64 {
    match duration {
        Some(d) => clamp_nanos(d as int),
        None => clamp_nanos(epoch_nanos(end) - epoch_nanos(start)),
    }
}

/// Both readings keep their nanoseconds below a second.
pub open spec fn clock_reading_valid(r: ClockReading) -> bool {
    match r {
        ClockReading::AfterEpoch { nanoseconds, .. } => nanoseconds < NANOS_PER_SECOND,
        ClockReading::BeforeEpoch { nanoseconds, .. } => nanoseconds < NANOS_PER_SECOND,
    }
}

/// The point in time of a clock reading. A time after the epoch beyond
/// `i64::MAX` seconds is the last representable one; a time before the epoch
/// borrows a second for its nanoseconds, and one at or beyond `i64::MAX`
/// seconds before the epoch is `i64::MIN` seconds.
pub open spec fn clock_timespec(r: ClockReading) -> Timespec {
    match r {
        ClockReading::AfterEpoch { seconds, nanoseconds } => if seconds > i64::MAX {
            Timespec { seconds: i64::MAX, nanoseconds: (NANOS_PER_SECOND - 1) as u32 }
        } else {
            Timespec { seconds: seconds as i64, nanoseconds }
        },
        ClockReading::BeforeEpoch { seconds, nanoseconds } => if seconds >= i64::MAX {
            Timespec { seconds: i64::MIN, nanoseconds: 0 }
        } else if nanoseconds == 0 {
            Timespec { seconds: (-seconds) as i64, nanoseconds: 0 }
        } else {
            Timespec {
                seconds: (-seconds - 1) as i64,
                nanoseconds: (NANOS_PER_SECOND - nanoseconds) as u32,
            }
        },
    }
}

/// The point in time of a clock reading; see `clock_timespec`.
pub fn from_clock_reading(r: ClockReading) -> (t: Timespec)
    requires
        clock_reading_valid(r),
    ensures
        t == clock_timespec(r),
        t.nanoseconds < NANOS_PER_SECOND,
{
    match r {
        ClockReading::AfterEpoch { seconds, nanoseconds } => {
            if seconds > i64::MAX as u64 {
                Timespec { seconds: i64::MAX, nanoseconds: NANOS_PER_SECOND - 1 }
            } else {
                Timespec { seconds: seconds as i64, nanoseconds }
            }
        },
        ClockReading::BeforeEpoch { seconds, nanoseconds } => {
            if seconds >= i64::MAX as u64 {
                Timespec { seconds: i64::MIN, nanoseconds: 0 }
            } else if nanoseconds == 0 {
                Timespec { seconds: -(seconds as i64), nanoseconds: 0 }
            } else {
                Timespec {
                    seconds: -(seconds as i64) - 1,
                    nanoseconds: NANOS_PER_SECOND - nanoseconds,
                }
            }
        },
    }
}

impl Timespec {
    /// The current time of the wall clock: `clock_timespec` of a reading,
    /// which the clock alone decides.
    pub fn now() -> (r: Timespec)
        ensures
            r.nanoseconds < NANOS_PER_SECOND,
            exists|c: ClockReading| clock_reading_valid(c) && r == clock_timespec(c),
    {
        let reading = since_epoch(system_now());
        let r = from_clock_reading(reading);
        assert(clock_reading_valid(reading) && r == clock_timespec(reading));
        r
    }

    fn nanos_i128(&self) -> (r: i128)
        ensures
            r == epoch_nanos(*self),
    {
        assert(-9_223_372_036_854_775_808 * 1_000_000_000 <= self.seconds * 1_000_000_000
            <= 9_223_372_036_854_775_807 * 1_000_000_000) by (nonlinear_arith)
            requires
                i64::MIN <= self.seconds <= i64::MAX,
        ;
        self.seconds as i128 * NANOS_PER_SECOND as i128 + self.nanoseconds as i128
    }
}

fn clamp(n: i128) -> (r: i64)
    ensures
        r == clamp_nanos(n as int),
{
    if n < 0 {
        0
    } else if n > i64::MAX as i128 {
        i64::MAX
    } else {
        n as i64
    }
}

/// Computes `time_nanos` of `start`.
pub fn start_nanos(start: Timespec) -> (r: i64)
    ensures
        r == time_nanos(start),
{
    clamp(start.nanos_i128())
}

/// Computes `duration_nanos`.
pub fn profile_duration(start: Timespec, end: Timespec, duration: Option<u64>) -> (r: i64)
    ensures
        r == duration_nanos(start, end, duration),
        0 <= r <= i64::MAX,
{
    match duration {
        Some(d) => clamp(d as i128),
        None => clamp(end.nanos_i128() - start.nanos_i128()),
    }
}

} // verus!
