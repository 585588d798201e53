//! PostgreSQL log analysis: a stateful parser for stderr-format server logs,
//! SQL literal normalization and query classification, and the analytics
//! that aggregate parsed records into counts, rankings and percentiles.
//!
//! Durations are held as whole microseconds and instants as [`Timestamp`]s,
//! so that every computation of the library is exact integer arithmetic.

use vstd::prelude::*;

pub mod analytics;
pub mod output;
pub mod parsers;
pub mod sql;
pub mod text;
pub mod timestamp;

pub use analytics::queries::QueryAnalyzer;
pub use analytics::timing::{TimingAnalysis, TimingAnalyzer};
pub use output::{JsonFormatter, TextFormatter};
pub use parsers::stderr::StderrParser;
pub use sql::{Query, QueryType};
pub use timestamp::Timestamp;
use analytics::queries::{classify, classify_sql, QueryTypeCounts};
use analytics::ranking::{is_percentile, percentile_of, sort_ascending};
use text::{chars_of, lower_of, string_of, to_lower, to_upper, trim_chars, trimmed, upper_of};

verus! {

/// Errors of the library.
#[derive(Clone, Debug)]
pub enum PgLoggrepError {
    /// A log line, a batch of lines or an SQL text could not be parsed.
    Parse { message: String, line_number: Option<usize>, line_content: Option<String> },
    /// A header line carried a timestamp in no supported form.
    TimestampParse { message: String, timestamp_string: String },
    /// Invalid settings, rejected before any record is processed.
    Configuration { message: String, field: Option<String> },
    /// An analysis could not be computed from its input.
    Analytics { message: String, operation: String },
    /// Lines of a batch that failed, each with its 1-based number and its text.
    Lines { failures: Vec<(usize, String)> },
    /// A condition that the library does not expect.
    Unexpected { message: String, context: Option<String> },
}

/// The library's error type under its other name.
pub type PgLogstatsError = PgLoggrepError;

/// Builds a parse error.
pub fn parse_error(message: &str, line_number: Option<usize>, line_content: Option<&str>) -> (r:
    PgLoggrepError)
    ensures
        r matches PgLoggrepError::Parse { message: m, line_number: n, line_content: c } && m@
            == message@ && n == line_number && (match line_content {
            Some(l) => c is Some && c->0@ == l@,
            None => c is None,
        }),
{
    let content = match line_content {
        Some(l) => Some(String::from_str(l)),
        None => None,
    };
    PgLoggrepError::Parse {
        message: String::from_str(message),
        line_number,
        line_content: content,
    }
}

/// Builds a timestamp error.
pub fn timestamp_error(message: &str, timestamp_string: &str) -> (r: PgLoggrepError)
    ensures
        r matches PgLoggrepError::TimestampParse { message: m, timestamp_string: t } && m@
            == message@ && t@ == timestamp_string@,
{
    PgLoggrepError::TimestampParse {
        message: String::from_str(message),
        timestamp_string: String::from_str(timestamp_string),
    }
}

/// Builds a configuration error.
pub fn config_error(message: &str, field: Option<&str>) -> (r: PgLoggrepError)
    ensures
        r matches PgLoggrepError::Configuration { message: m, field: f } && m@ == message@ && (
        match field {
            Some(x) => f is Some && f->0@ == x@,
            None => f is None,
        }),
{
    let f = match field {
        Some(x) => Some(String::from_str(x)),
        None => None,
    };
    PgLoggrepError::Configuration { message: String::from_str(message), field: f }
}

/// Builds an analytics error.
pub fn analytics_error(message: &str, operation: &str) -> (r: PgLoggrepError)
    ensures
        r matches PgLoggrepError::Analytics { message: m, operation: o } && m@ == message@ && o@
            == operation@,
{
    PgLoggrepError::Analytics {
        message: String::from_str(message),
        operation: String::from_str(operation),
    }
}

/// The level, or the kind derived from the message, of a log record.
#[derive(Clone, Debug, PartialEq, Eq, Hash)]
pub enum LogLevel {
    Error,
    Warning,
    Info,
    Debug,
    Notice,
    Log,
    Statement,
    Duration,
    Fatal,
    Panic,
    /// A level name outside the list above, as it was written.
    Unknown(String),
}

/// The level that an upper-cased level name stands for, if it is a known one.
pub open spec fn known_level(name: Seq<char>) -> Option<LogLevel> {
    if name == "ERROR"@ {
        Some(LogLevel::Error)
    } else if name == "WARNING"@ {
        Some(LogLevel::Warning)
    } else if name == "INFO"@ {
        Some(LogLevel::Info)
    } else if name == "DEBUG"@ {
        Some(LogLevel::Debug)
    } else if name == "NOTICE"@ {
        Some(LogLevel::Notice)
    } else if name == "LOG"@ {
        Some(LogLevel::Log)
    } else if name == "STATEMENT"@ {
        Some(LogLevel::Statement)
    } else if name == "DURATION"@ {
        Some(LogLevel::Duration)
    } else if name == "FATAL"@ {
        Some(LogLevel::Fatal)
    } else if name == "PANIC"@ {
        Some(LogLevel::Panic)
    } else {
        None
    }
}

/// The level that a level name, in any case, stands for.
pub open spec fn level_named(level: LogLevel, name: Seq<char>) -> bool {
    match known_level(upper_of(name)) {
        Some(l) => level == l,
        None => level matches LogLevel::Unknown(raw) && raw@ == name,
    }
}

/// Whether two character sequences are equal.
pub fn same_chars(a: &Vec<char>, b: &Vec<char>) -> (r: bool)
    ensures
        r == (a@ == b@),
{
    if a.len() != b.len() {
        return false;
    }
    let mut i: usize = 0;
    while i < a.len()
        invariant
            a@.len() == b@.len(),
            i <= a@.len(),
            forall|k: int| 0 <= k < i ==> a@[k] == b@[k],
        decreases a@.len() - i,
    {
        if a[i] != b[i] {
            return false;
        }
        i = i + 1;
    }
    assert(a@ =~= b@);
    true
}

/// Whether two strings hold the same characters.
pub fn same_text(a: &str, b: &str) -> (r: bool)
    ensures
        r == (a@ == b@),
{
    same_chars(&chars_of(a), &chars_of(b))
}

impl LogLevel {
    /// The level that `name` stands for, compared without regard to case;
    /// `Unknown(name)` where it is none of the known names.
    pub fn from_name(name: &str) -> (r: LogLevel)
        ensures
            level_named(r, name@),
    {
        let up = to_upper(name);
        LogLevel::from_upper_name(up.as_str(), name)
    }

    /// The level that the upper-cased name `upper` stands for;
    /// `Unknown(name)` where it is none of the known names.
    pub fn from_upper_name(upper: &str, name: &str) -> (r: LogLevel)
        ensures
            match known_level(upper@) {
                Some(l) => r == l,
                None => r matches LogLevel::Unknown(raw) && raw@ == name@,
            },
    {
        let u = upper;
        if same_text(u, "ERROR") {
            LogLevel::Error
        } else if same_text(u, "WARNING") {
            LogLevel::Warning
        } else if same_text(u, "INFO") {
            LogLevel::Info
        } else if same_text(u, "DEBUG") {
            LogLevel::Debug
        } else if same_text(u, "NOTICE") {
            LogLevel::Notice
        } else if same_text(u, "LOG") {
            LogLevel::Log
        } else if same_text(u, "STATEMENT") {
            LogLevel::Statement
        } else if same_text(u, "DURATION") {
            LogLevel::Duration
        } else if same_text(u, "FATAL") {
            LogLevel::Fatal
        } else if same_text(u, "PANIC") {
            LogLevel::Panic
        } else {
            LogLevel::Unknown(String::from_str(name))
        }
    }

    /// The level's display name: the upper-case name of a known level, and an
    /// unknown level's text upper-cased.
    pub fn to_string(&self) -> (r: String)
        ensures
            match self {
                LogLevel::Unknown(raw) => r@ == upper_of(raw@),
                LogLevel::Error => r@ == "ERROR"@,
                LogLevel::Warning => r@ == "WARNING"@,
                LogLevel::Info => r@ == "INFO"@,
                LogLevel::Debug => r@ == "DEBUG"@,
                LogLevel::Notice => r@ == "NOTICE"@,
                LogLevel::Log => r@ == "LOG"@,
                LogLevel::Statement => r@ == "STATEMENT"@,
                LogLevel::Duration => r@ == "DURATION"@,
                LogLevel::Fatal => r@ == "FATAL"@,
                LogLevel::Panic => r@ == "PANIC"@,
            },
    {
        match self {
            LogLevel::Error => String::from_str("ERROR"),
            LogLevel::Warning => String::from_str("WARNING"),
            LogLevel::Info => String::from_str("INFO"),
            LogLevel::Debug => String::from_str("DEBUG"),
            LogLevel::Notice => String::from_str("NOTICE"),
            LogLevel::Log => String::from_str("LOG"),
            LogLevel::Statement => String::from_str("STATEMENT"),
            LogLevel::Duration => String::from_str("DURATION"),
            LogLevel::Fatal => String::from_str("FATAL"),
            LogLevel::Panic => String::from_str("PANIC"),
            LogLevel::Unknown(raw) => to_upper(raw.as_str()),
        }
    }
}

/// The texts of `parts` joined with `sep` between each two.
pub open spec fn join_texts(parts: Seq<Seq<char>>, sep: Seq<char>) -> Seq<char>
    decreases parts.len(),
{
    if parts.len() == 0 {
        Seq::empty()
    } else if parts.len() == 1 {
        parts[0]
    } else {
        join_texts(parts.drop_last(), sep) + sep + parts.last()
    }
}

/// Appends the characters of `s` to `out`.
pub fn push_text(out: &mut Vec<char>, s: &str)
    ensures
        final(out)@ == old(out)@ + s@,
{
    let c = chars_of(s);
    let mut i: usize = 0;
    let ghost start = out@;
    while i < c.len()
        invariant
            c@ == s@,
            i <= c@.len(),
            out@ == start + c@.take(i as int),
        decreases c@.len() - i,
    {
        out.push(c[i]);
        i = i + 1;
        assert(out@ =~= start + c@.take(i as int));
    }
    assert(c@.take(c@.len() as int) =~= c@);
}

/// The normalized texts of the queries, in order.
pub open spec fn normalized_texts(qs: Seq<Query>) -> Seq<Seq<char>> {
    qs.map_values(|q: Query| q.normalized_query@)
}

/// The normalized texts of `queries` joined with `"; "`.
pub fn join_normalized(queries: &Vec<Query>) -> (r: String)
    ensures
        r@ == join_texts(normalized_texts(queries@), "; "@),
{
    let mut out: Vec<char> = Vec::new();
    let mut i: usize = 0;
    while i < queries.len()
        invariant
            i <= queries@.len(),
            out@ == join_texts(normalized_texts(queries@.take(i as int)), "; "@),
        decreases queries@.len() - i,
    {
        let ghost before = normalized_texts(queries@.take(i as int));
        if i > 0 {
            push_text(&mut out, "; ");
        }
        push_text(&mut out, queries[i].normalized_query.as_str());
        i = i + 1;
        proof {
            let now = normalized_texts(queries@.take(i as int));
            assert(now.drop_last() =~= before);
            assert(now.last() == queries@[i - 1].normalized_query@);
            if i == 1 {
                assert(before.len() == 0);
            }
        }
    }
    assert(queries@.take(queries@.len() as int) =~= queries@);
    string_of(out.as_slice())
}

/// One parsed log record.
#[derive(Clone, Debug)]
pub struct LogEntry {
    pub timestamp: Timestamp,
    pub process_id: String,
    pub user: Option<String>,
    pub database: Option<String>,
    pub client_host: Option<String>,
    pub application_name: Option<String>,
    pub message_type: LogLevel,
    /// The message after the log-line prefix.
    pub message: String,
    /// For a statement record, its statements, one per semicolon-separated part.
    pub queries: Option<Vec<Query>>,
    /// For a duration record, the duration in whole microseconds.
    pub duration_us: Option<u64>,
}

/// A copy of an optional string.
pub fn copy_text(o: &Option<String>) -> (r: Option<String>)
    ensures
        r == *o,
{
    match o {
        Some(s) => Some(s.clone()),
        None => None,
    }
}

impl LogLevel {
    /// A copy of the level.
    pub fn duplicate(&self) -> (r: LogLevel)
        ensures
            r == *self,
    {
        match self {
            LogLevel::Error => LogLevel::Error,
            LogLevel::Warning => LogLevel::Warning,
            LogLevel::Info => LogLevel::Info,
            LogLevel::Debug => LogLevel::Debug,
            LogLevel::Notice => LogLevel::Notice,
            LogLevel::Log => LogLevel::Log,
            LogLevel::Statement => LogLevel::Statement,
            LogLevel::Duration => LogLevel::Duration,
            LogLevel::Fatal => LogLevel::Fatal,
            LogLevel::Panic => LogLevel::Panic,
            LogLevel::Unknown(s) => LogLevel::Unknown(s.clone()),
        }
    }
}

/// A copy of the queries.
pub fn copy_queries(v: &Vec<Query>) -> (r: Vec<Query>)
    ensures
        r@ == v@,
{
    let mut out: Vec<Query> = Vec::new();
    let mut i: usize = 0;
    while i < v.len()
        invariant
            i <= v@.len(),
            out@ == v@.take(i as int),
        decreases v@.len() - i,
    {
        let q = &v[i];
        out.push(Query { sql: q.sql.clone(), query_type: q.query_type, normalized_query: q.normalized_query.clone() });
        i = i + 1;
        assert(out@ =~= v@.take(i as int));
    }
    assert(v@.take(v@.len() as int) =~= v@);
    out
}

/// Whether two records hold the same values.
pub open spec fn same_entry(a: LogEntry, b: LogEntry) -> bool {
    &&& a.timestamp == b.timestamp
    &&& a.process_id == b.process_id
    &&& a.user == b.user
    &&& a.database == b.database
    &&& a.client_host == b.client_host
    &&& a.application_name == b.application_name
    &&& a.message_type == b.message_type
    &&& a.message == b.message
    &&& match (a.queries, b.queries) {
        (Some(x), Some(y)) => x@ == y@,
        (None, None) => true,
        _ => false,
    }
    &&& a.duration_us == b.duration_us
}

impl LogEntry {
    /// A copy of the record.
    pub fn duplicate(&self) -> (r: LogEntry)
        ensures
            same_entry(r, *self),
    {
        LogEntry {
            timestamp: self.timestamp,
            process_id: self.process_id.clone(),
            user: copy_text(&self.user),
            database: copy_text(&self.database),
            client_host: copy_text(&self.client_host),
            application_name: copy_text(&self.application_name),
            message_type: self.message_type.duplicate(),
            message: self.message.clone(),
            queries: match &self.queries {
                Some(qs) => Some(copy_queries(qs)),
                None => None,
            },
            duration_us: self.duration_us,
        }
    }

    /// A record with the given fields and no session metadata, queries or duration.
    pub fn new(timestamp: Timestamp, process_id: String, message_type: LogLevel, message: String) -> (r:
        LogEntry)
        ensures
            r.timestamp == timestamp,
            r.process_id == process_id,
            r.message_type == message_type,
            r.message == message,
            r.user is None && r.database is None && r.client_host is None,
            r.application_name is None && r.queries is None && r.duration_us is None,
    {
        LogEntry {
            timestamp,
            process_id,
            user: None,
            database: None,
            client_host: None,
            application_name: None,
            message_type,
            message,
            queries: None,
            duration_us: None,
        }
    }

    pub fn is_query(&self) -> (r: bool)
        ensures
            r == (self.message_type is Statement),
    {
        matches!(self.message_type, LogLevel::Statement)
    }

    pub fn is_duration(&self) -> (r: bool)
        ensures
            r == (self.message_type is Duration),
    {
        matches!(self.message_type, LogLevel::Duration)
    }

    pub fn is_error(&self) -> (r: bool)
        ensures
            r == (self.message_type is Error),
    {
        matches!(self.message_type, LogLevel::Error)
    }

    /// The record's statements as one text: their normalized forms joined
    /// with `"; "`; `None` for a record without statements.
    pub fn statement_text(&self) -> (r: Option<String>)
        ensures
            match self.queries {
                Some(qs) => r is Some && r->0@ == join_texts(normalized_texts(qs@), "; "@),
                None => r is None,
            },
    {
        match &self.queries {
            Some(qs) => Some(join_normalized(qs)),
            None => None,
        }
    }

    /// The statement text trimmed and lower-cased, for deduplication.
    pub fn normalized_query(&self) -> (r: Option<String>)
        ensures
            match self.queries {
                Some(qs) => r is Some && r->0@ == lower_of(
                    trimmed(join_texts(normalized_texts(qs@), "; "@)),
                ),
                None => r is None,
            },
    {
        match self.statement_text() {
            Some(t) => {
                let tc = trim_chars(t.as_str());
                let ts = string_of(tc.as_slice());
                Some(to_lower(ts.as_str()))
            },
            None => None,
        }
    }
}

/// The aggregate of an analysis. Durations are in whole microseconds.
#[derive(Clone, Debug)]
pub struct AnalysisResult {
    pub total_queries: u64,
    pub total_duration_us: u128,
    pub query_types: QueryTypeCounts,
    /// Statement shapes with their durations, slowest first.
    pub slowest_queries: Vec<(String, u64)>,
    /// Statement shapes with their counts, most frequent first.
    pub most_frequent_queries: Vec<(String, u64)>,
    pub error_count: u64,
    pub connection_count: u64,
    /// The total divided by the count, rounded down; 0 without queries.
    pub average_duration_us: u64,
    pub p95_duration_us: u64,
    pub p99_duration_us: u64,
    /// Query figures of each hour of the day that has statements, in
    /// ascending order of hour.
    pub hourly_buckets: Vec<analytics::timing::HourlyMetrics>,
}

impl AnalysisResult {
    /// An analysis of nothing.
    pub fn new() -> (r: AnalysisResult)
        ensures
            r.total_queries == 0 && r.total_duration_us == 0 && r.error_count == 0,
            r.connection_count == 0 && r.average_duration_us == 0,
            r.p95_duration_us == 0 && r.p99_duration_us == 0,
            forall|t: QueryType| r.query_types.count_of(t) == 0,
            r.slowest_queries@.len() == 0 && r.most_frequent_queries@.len() == 0,
    {
        AnalysisResult {
            total_queries: 0,
            total_duration_us: 0,
            query_types: QueryTypeCounts::new(),
            slowest_queries: Vec::new(),
            most_frequent_queries: Vec::new(),
            error_count: 0,
            connection_count: 0,
            average_duration_us: 0,
            p95_duration_us: 0,
            p99_duration_us: 0,
            hourly_buckets: Vec::new(),
        }
    }

    /// Counts one query of the given text and duration, and updates the average.
    pub fn add_query(&mut self, query: &str, duration_us: u64)
        requires
            old(self).total_queries < u64::MAX,
            old(self).total_duration_us + duration_us <= u128::MAX,
            old(self).query_types.count_of(classify(query@)) < u64::MAX,
        ensures
            final(self).total_queries == old(self).total_queries + 1,
            final(self).total_duration_us == old(self).total_duration_us + duration_us,
            forall|t: QueryType| #[trigger] final(self).query_types.count_of(t)
                == old(self).query_types.count_of(t) + if t == classify(query@) {
                1int
            } else {
                0int
            },
            final(self).average_duration_us
                == (if final(self).total_duration_us / final(self).total_queries as u128 > u64::MAX {
                u64::MAX as u128
            } else {
                final(self).total_duration_us / final(self).total_queries as u128
            }),
            final(self).error_count == old(self).error_count,
            final(self).connection_count == old(self).connection_count,
            final(self).p95_duration_us == old(self).p95_duration_us,
            final(self).p99_duration_us == old(self).p99_duration_us,
    {
        self.total_queries = self.total_queries + 1;
        self.total_duration_us = self.total_duration_us + duration_us as u128;
        let t = classify_sql(query);
        self.query_types.add_one(t);
        let avg = self.total_duration_us / self.total_queries as u128;
        self.average_duration_us = if avg > u64::MAX as u128 {
            u64::MAX
        } else {
            avg as u64
        };
    }

    pub fn add_error(&mut self)
        requires
            old(self).error_count < u64::MAX,
        ensures
            final(self).error_count == old(self).error_count + 1,
            final(self).total_queries == old(self).total_queries,
            final(self).connection_count == old(self).connection_count,
    {
        self.error_count = self.error_count + 1;
    }

    pub fn add_connection(&mut self)
        requires
            old(self).connection_count < u64::MAX,
        ensures
            final(self).connection_count == old(self).connection_count + 1,
            final(self).total_queries == old(self).total_queries,
            final(self).error_count == old(self).error_count,
    {
        self.connection_count = self.connection_count + 1;
    }

    /// Sets the 95th and 99th nearest-rank percentiles of the durations;
    /// without durations nothing changes.
    pub fn calculate_percentiles(&mut self, durations: &[u64])
        ensures
            durations@.len() == 0 ==> final(self).p95_duration_us == old(self).p95_duration_us
                && final(self).p99_duration_us == old(self).p99_duration_us,
            durations@.len() > 0 ==> is_percentile(durations@, 9500, final(self).p95_duration_us)
                && is_percentile(durations@, 9900, final(self).p99_duration_us),
            final(self).total_queries == old(self).total_queries,
            final(self).total_duration_us == old(self).total_duration_us,
    {
        if durations.len() == 0 {
            return;
        }
        let mut sorted: Vec<u64> = Vec::new();
        let mut i: usize = 0;
        while i < durations.len()
            invariant
                i <= durations@.len(),
                sorted@ == durations@.take(i as int),
            decreases durations@.len() - i,
        {
            sorted.push(durations[i]);
            i = i + 1;
            assert(sorted@ =~= durations@.take(i as int));
        }
        assert(durations@.take(durations@.len() as int) =~= durations@);
        let ghost samples = sorted@;
        sort_ascending(&mut sorted);
        proof {
            vstd::seq_lib::to_multiset_len(sorted@);
            vstd::seq_lib::to_multiset_len(samples);
        }
        self.p95_duration_us = percentile_of(&sorted, 9500);
        self.p99_duration_us = percentile_of(&sorted, 9900);
        assert(sorted_witness(sorted@, durations@));
    }
}

/// Whether `s` is `d` sorted.
pub open spec fn sorted_witness(s: Seq<u64>, d: Seq<u64>) -> bool {
    analytics::ranking::sorted_ascending(s) && s.to_multiset() == d.to_multiset()
}

impl Default for AnalysisResult {
    /// An analysis of nothing.
    fn default() -> (r: AnalysisResult)
        ensures
            r.total_queries == 0 && r.total_duration_us == 0 && r.error_count == 0,
            r.connection_count == 0 && r.average_duration_us == 0,
            r.p95_duration_us == 0 && r.p99_duration_us == 0,
            forall|t: QueryType| r.query_types.count_of(t) == 0,
            r.slowest_queries@.len() == 0 && r.most_frequent_queries@.len() == 0,
    {
        AnalysisResult::new()
    }
}

} // verus!
