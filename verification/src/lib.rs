//! Day-bucketed event histograms and the labelled series derived from them.
//!
//! Events carry a timestamp in seconds. Each countable event is binned into the
//! day it falls on, counted from the first day of 2015; the finished histogram
//! is cut to a window of days and emitted as one point per day, either as plain
//! counts or as a running total, each point with the axis label its day earns
//! under the chosen period.

pub mod calendar;
pub mod clock;
pub mod error;
pub mod histogram;
pub mod ingest;
pub mod period;
pub mod series;
