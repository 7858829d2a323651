use vstd::prelude::*;

verus! {

/// Why an aggregation request fails.
#[derive(Clone, Copy, Debug, PartialEq, Eq, Structural)]
pub enum Error {
    /// A timestamp lies before the first day the clock knows.
    InvalidTimestamp,
    /// The source of a stream reported a failure while fetching.
    StreamTransport,
    /// A day lies at or beyond the histogram's horizon.
    HistogramBounds,
}

} // verus!
