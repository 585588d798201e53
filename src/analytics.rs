//! Aggregation of parsed log records: query statistics and timing patterns.

pub mod queries;
pub mod ranking;
pub mod shape;
pub mod timing;
