//! Settings of the JSON renderer: pretty printing and the metadata it reports.

use vstd::prelude::*;

verus! {

/// The version reported in the metadata unless another is set.
pub const TOOL_VERSION: &'static str = "0.1.0";

/// Settings of the JSON renderer.
#[derive(Clone, Debug)]
pub struct JsonFormatter {
    pub pretty: bool,
    pub tool_version: String,
    pub log_files_processed: Vec<String>,
    pub total_log_entries: usize,
}

impl JsonFormatter {
    /// Compact output, this library's version, no files and no entries.
    pub fn new() -> (r: JsonFormatter)
        ensures
            !r.pretty,
            r.tool_version@ == TOOL_VERSION@,
            r.log_files_processed@.len() == 0,
            r.total_log_entries == 0,
    {
        JsonFormatter {
            pretty: false,
            tool_version: String::from_str(TOOL_VERSION),
            log_files_processed: Vec::new(),
            total_log_entries: 0,
        }
    }

    pub fn with_pretty(self, pretty: bool) -> (r: JsonFormatter)
        ensures
            r.pretty == pretty,
            r.tool_version == self.tool_version,
            r.log_files_processed == self.log_files_processed,
            r.total_log_entries == self.total_log_entries,
    {
        JsonFormatter { pretty, ..self }
    }

    pub fn with_metadata(
        self,
        tool_version: &str,
        log_files_processed: Vec<String>,
        total_log_entries: usize,
    ) -> (r: JsonFormatter)
        ensures
            r.pretty == self.pretty,
            r.tool_version@ == tool_version@,
            r.log_files_processed == log_files_processed,
            r.total_log_entries == total_log_entries,
    {
        JsonFormatter {
            pretty: self.pretty,
            tool_version: String::from_str(tool_version),
            log_files_processed,
            total_log_entries,
        }
    }
}

impl Default for JsonFormatter {
    fn default() -> (r: JsonFormatter)
        ensures
            !r.pretty,
            r.tool_version@ == TOOL_VERSION@,
            r.log_files_processed@.len() == 0,
            r.total_log_entries == 0,
    {
        JsonFormatter::new()
    }
}

} // verus!
