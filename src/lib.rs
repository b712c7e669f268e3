//! Per-channel message counters kept in fixed-width time buckets, the
//! aggregation of those buckets to coarser display resolutions, and the
//! layout of the histogram that shows them.

pub mod clock;
pub mod time_period;
pub mod log;
pub mod store;
pub mod graph;
