//! The two clocks of the library: the monotonic one that the cache stamps
//! its entries with, and the wall clock that ages are measured against.

use std::time::{Duration, Instant, SystemTime, UNIX_EPOCH};
use vstd::prelude::*;

verus! {

/// std's `Instant`: a reading of the monotonic clock. Nothing is known of a
/// value of it but that it can be carried around.
#[verifier::external_type_specification]
#[verifier::external_body]
pub struct ExInstant(Instant);

/// std's `SystemTime`: a reading of the wall clock. Nothing is known of a
/// value of it but that it can be carried around.
#[verifier::external_type_specification]
#[verifier::external_body]
pub struct ExSystemTime(SystemTime);

/// std's `Instant::now`: the present reading of the monotonic clock. Nothing
/// is claimed of the reading.
pub assume_specification[ Instant::now ]() -> (now: Instant)
;

/// std's `Instant::elapsed`: the time that has passed since the reading was
/// taken. Nothing is claimed of its length.
pub assume_specification[ Instant::elapsed ](since: &Instant) -> (elapsed: Duration)
;

/// std's `SystemTime::now`: the present reading of the wall clock. Nothing is
/// claimed of the reading.
pub assume_specification[ SystemTime::now ]() -> (now: SystemTime)
;

/// std's `Duration::as_secs`: the whole seconds that a duration holds.
/// Nothing is claimed of their number.
pub assume_specification[ Duration::as_secs ](duration: &Duration) -> (seconds: u64)
;

/// std's `SystemTime::duration_since`, taken from `UNIX_EPOCH`: the time from
/// the epoch to the reading, or `None` for a reading that lies before the
/// epoch. Nothing is claimed of its length.
#[verifier::external_body]
fn since_epoch(reading: &SystemTime) -> (elapsed: Option<Duration>) {
    reading.duration_since(UNIX_EPOCH).ok()
}

/// Counts the seconds since it was started. One second is one tick, and the
/// ticks that are read never go back: a reading that lies before the latest
/// tick is taken for that tick.
#[derive(Clone, Copy)]
pub(crate) struct Clock {
    started: Instant,
    /// The latest tick that was read.
    latest: u64,
}

impl Clock {
    /// The latest tick that was read.
    pub(crate) closed spec fn latest(&self) -> nat {
        self.latest as nat
    }

    /// A clock that stands at tick 0.
    pub(crate) fn start() -> (clock: Clock)
        ensures
            clock.latest() == 0,
    {
        Clock { started: Instant::now(), latest: 0 }
    }

    /// The whole seconds since the clock was started, or the latest tick
    /// that was read, whichever is the later; this is then the latest tick.
    pub(crate) fn now(&mut self) -> (tick: u64)
        ensures
            tick >= old(self).latest(),
            final(self).latest() == tick,
    {
        let reading = self.started.elapsed().as_secs();
        if reading > self.latest {
            self.latest = reading;
        }
        self.latest
    }
}

/// The seconds since the Unix epoch for what the wall clock gave: the whole
/// seconds of the reading, as far as they can be counted, and 0 for a clock
/// that stands before the epoch.
pub open spec fn seconds_of(reading: Option<u64>) -> int {
    match reading {
        Some(seconds) => if seconds > i64::MAX {
            i64::MAX as int
        } else {
            seconds as int
        },
        None => 0,
    }
}

/// The seconds since the Unix epoch for a reading of the wall clock, given
/// as the whole seconds from the epoch to the reading, or `None` where the
/// reading lies before the epoch.
pub fn epoch_seconds(reading: Option<u64>) -> (seconds: i64)
    ensures
        seconds == seconds_of(reading),
{
    match reading {
        Some(seconds) => if seconds > i64::MAX as u64 {
            i64::MAX
        } else {
            seconds as i64
        },
        None => 0,
    }
}

/// The present time in whole seconds since the Unix epoch, as the wall clock
/// gives it. A clock that stands before the epoch is read as the epoch.
pub(crate) fn unix_now() -> (seconds: i64)
    ensures
        seconds >= 0,
{
    let reading = SystemTime::now();
    let elapsed = match since_epoch(&reading) {
        Some(elapsed) => Some(elapsed.as_secs()),
        None => None,
    };
    epoch_seconds(elapsed)
}

} // verus!
