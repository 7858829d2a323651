//! The day clock: timestamps in seconds on one side, day indices on the other.

use crate::calendar::wall_clock_seconds;
use crate::error::Error;
use vstd::prelude::*;

verus! {

/// The instant day 0 begins: midnight UTC on 1 January 2015, in seconds since
/// the Unix epoch.
pub const EPOCH_OFFSET: i64 = 1_420_070_400;

/// The width of a bucket in seconds.
pub const SECONDS_PER_DAY: i64 = 86_400;

/// The last day index that has a calendar date.
pub const MAX_DAY: u64 = 95_009_800;

/// A day index: the number of whole days since [`EPOCH_OFFSET`].
#[derive(Clone, Copy, Debug, PartialEq, Eq, Structural)]
pub struct Days(pub u64);

/// The day index that holds the timestamp `t`, for `t` at or after the epoch.
pub open spec fn day_of(t: int) -> int {
    (t - EPOCH_OFFSET) / (SECONDS_PER_DAY as int)
}

/// The timestamp at which day `d` begins.
pub open spec fn midnight_of(d: int) -> int {
    d * SECONDS_PER_DAY + EPOCH_OFFSET
}

impl Days {
    /// Whether this day has a calendar date.
    pub open spec fn is_valid(self) -> bool {
        self.0 <= MAX_DAY
    }

    /// The day that holds `timestamp`, or `InvalidTimestamp` for one before
    /// the epoch.
    pub fn from_timestamp(timestamp: i64) -> (r: Result<Days, Error>)
        ensures
            timestamp < EPOCH_OFFSET ==> r == Err::<Days, Error>(Error::InvalidTimestamp),
            timestamp >= EPOCH_OFFSET ==> r == Ok::<Days, Error>(Days(day_of(timestamp as int) as u64)),
            timestamp >= EPOCH_OFFSET ==> 0 <= day_of(timestamp as int) <= u64::MAX,
    {
        if timestamp < EPOCH_OFFSET {
            Err(Error::InvalidTimestamp)
        } else {
            let elapsed: i64 = timestamp - EPOCH_OFFSET;
            let day: i64 = elapsed / SECONDS_PER_DAY;
            Ok(Days(day as u64))
        }
    }

    /// The timestamp of midnight UTC at the start of this day.
    pub fn to_timestamp(self) -> (r: i64)
        requires
            self.is_valid(),
        ensures
            r == midnight_of(self.0 as int),
    {
        let day: i64 = self.0 as i64;
        day * SECONDS_PER_DAY + EPOCH_OFFSET
    }

    /// The day the wall clock is in: what [`Days::from_timestamp`] makes of
    /// the clock's reading, whatever that reading is at the time of the call.
    pub fn now() -> (r: Result<Days, Error>)
        ensures
            exists|reading: i64| r == #[trigger] day_result(reading as int),
            r is Err ==> r == Err::<Days, Error>(Error::InvalidTimestamp),
    {
        let reading: i64 = wall_clock_seconds();
        let r = Days::from_timestamp(reading);
        assert(r == day_result(reading as int));
        r
    }
}

/// What a reading of the clock comes to: the day that holds it, or
/// `InvalidTimestamp` for a reading before the epoch.
pub open spec fn day_result(timestamp: int) -> Result<Days, Error> {
    if timestamp < EPOCH_OFFSET {
        Err(Error::InvalidTimestamp)
    } else {
        Ok(Days(day_of(timestamp) as u64))
    }
}

/// Going from a day to its midnight and back gives the same day.
pub proof fn lemma_round_trip(d: Days)
    requires
        d.is_valid(),
    ensures
        midnight_of(d.0 as int) >= EPOCH_OFFSET,
        day_of(midnight_of(d.0 as int)) == d.0,
{
    let x: int = d.0 as int;
    assert((x * 86_400) / 86_400 == x) by (nonlinear_arith);
}

/// A later timestamp never falls on an earlier day.
pub proof fn lemma_day_monotonic(t1: int, t2: int)
    requires
        EPOCH_OFFSET <= t1 < t2,
    ensures
        day_of(t1) <= day_of(t2),
{
    let a: int = t1 - EPOCH_OFFSET;
    let b: int = t2 - EPOCH_OFFSET;
    assert(0 <= a <= b ==> a / 86_400 <= b / 86_400) by (nonlinear_arith);
}

} // verus!
