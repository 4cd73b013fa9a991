//! Matching of synchronous call spans in an ordered list of trace records,
//! and the aggregation of measured values.
pub mod span;
pub mod trace;
pub mod utils;
