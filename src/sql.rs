//! SQL statements as the logs carry them: classification and literal normalization.

pub mod query;

pub use query::{Query, QueryType};
