//! An in-process metrics aggregator: callers record named timing samples
//! (elapsed times in nanoseconds), and a report operation summarizes every
//! key's pending samples as total, average, max, min and count, then resets
//! the window so the next report covers only newer samples.

pub mod entry;
pub mod inner;
pub mod metric;
pub mod stats;
