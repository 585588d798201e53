//! Parsers for PostgreSQL log formats.

pub mod stderr;


