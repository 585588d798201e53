//! Settings of the text and JSON renderers of an analysis.

pub mod json;
pub mod text;

pub use json::JsonFormatter;
pub use text::TextFormatter;
