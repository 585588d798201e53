//! Query classification and the aggregation of statement records.

use vstd::prelude::*;
use crate::analytics::ranking::{
    is_percentile, lemma_top_sorted, pairs_view, percentile_of, rank_desc, rank_index, sort_ascending,
    sorted_ascending, sorted_desc, stable_desc, tally, tally_texts, texts_view, top,
};
use crate::analytics::shape::{shape_of, text_shape};
pub use crate::sql::QueryType;
pub use crate::analytics::timing::HourlyMetrics as HourlyStats;
use crate::text::{chars_of, lower_of, string_of, to_lower, to_upper, trim_chars, trimmed, upper_of};
use crate::{join_texts, normalized_texts, AnalysisResult, LogEntry, PgLoggrepError};
use crate::parsers::stderr::matches_at;

verus! {

pub open spec fn starts_with(s: Seq<char>, p: Seq<char>) -> bool {
    p.len() <= s.len() && s.take(p.len() as int) == p
}

/// The query type of SQL text, by its leading keyword: the text is trimmed and
/// upper-cased, and the first of these prefixes that it starts with decides.
pub open spec fn classify(sql: Seq<char>) -> QueryType {
    classify_upper_text(upper_of(trimmed(sql)))
}

/// The query type of upper-cased SQL text: the first of these prefixes that
/// it starts with decides.
pub open spec fn classify_upper_text(u: Seq<char>) -> QueryType {
    if starts_with(u, "SELECT"@) {
        QueryType::Select
    } else if starts_with(u, "INSERT"@) {
        QueryType::Insert
    } else if starts_with(u, "UPDATE"@) {
        QueryType::Update
    } else if starts_with(u, "DELETE"@) {
        QueryType::Delete
    } else if starts_with(u, "CREATE"@) || starts_with(u, "DROP"@) || starts_with(u, "ALTER"@)
        || starts_with(u, "TRUNCATE"@) || starts_with(u, "GRANT"@) || starts_with(u, "REVOKE"@) {
        QueryType::DDL
    } else {
        QueryType::Other
    }
}

/// Whether `v` starts with the characters of `p`.
pub fn has_prefix(v: &Vec<char>, p: &str) -> (r: bool)
    ensures
        r == starts_with(v@, p@),
{
    let pc = chars_of(p);
    if pc.len() > v.len() {
        return false;
    }
    let mut i: usize = 0;
    while i < pc.len()
        invariant
            pc@ == p@,
            pc@.len() <= v@.len(),
            i <= pc@.len(),
            forall|k: int| 0 <= k < i ==> v@[k] == pc@[k],
        decreases pc@.len() - i,
    {
        if v[i] != pc[i] {
            assert(v@.take(pc@.len() as int)[i as int] != pc@[i as int]);
            return false;
        }
        i = i + 1;
    }
    assert(v@.take(pc@.len() as int) =~= pc@);
    true
}

/// The query type of SQL text, by its leading keyword, case-insensitively.
pub fn classify_sql(sql: &str) -> (r: QueryType)
    ensures
        r == classify(sql@),
{
    let t = trim_chars(sql);
    let ts = string_of(t.as_slice());
    let up = to_upper(ts.as_str());
    classify_upper(up.as_str())
}

/// The query type of SQL text that is already trimmed and upper-cased.
pub fn classify_upper(upper: &str) -> (r: QueryType)
    ensures
        r == classify_upper_text(upper@),
{
    let u = chars_of(upper);
    if has_prefix(&u, "SELECT") {
        QueryType::Select
    } else if has_prefix(&u, "INSERT") {
        QueryType::Insert
    } else if has_prefix(&u, "UPDATE") {
        QueryType::Update
    } else if has_prefix(&u, "DELETE") {
        QueryType::Delete
    } else if has_prefix(&u, "CREATE") || has_prefix(&u, "DROP") || has_prefix(&u, "ALTER")
        || has_prefix(&u, "TRUNCATE") || has_prefix(&u, "GRANT") || has_prefix(&u, "REVOKE") {
        QueryType::DDL
    } else {
        QueryType::Other
    }
}

/// The statement text of a record: its statements' normalized forms joined
/// with `"; "`, empty where it has none.
pub open spec fn statement_text_of(e: LogEntry) -> Seq<char> {
    match e.queries {
        Some(qs) => join_texts(normalized_texts(qs@), "; "@),
        None => Seq::empty(),
    }
}

pub open spec fn contains_text(s: Seq<char>, p: Seq<char>) -> bool {
    exists|i: int| 0 <= i && i + p.len() <= s.len() && #[trigger] s.subrange(i, i + p.len()) == p
}

pub open spec fn duration_or_zero(e: LogEntry) -> int {
    match e.duration_us {
        Some(d) => d as int,
        None => 0,
    }
}

/// The quantities that the analysis sums over records.
pub enum Measure {
    /// Statement records.
    Statements,
    /// Durations of statement records, 0 where absent.
    Duration,
    /// Error records.
    Errors,
    /// Records whose message mentions "connection", in any case.
    Connections,
    /// Statement records whose text is of the given type.
    Typed(QueryType),
    /// Statement records in the given hour of the day.
    HourStatements(int),
    /// Durations of statement records in the given hour of the day.
    HourDuration(int),
}

pub open spec fn measure(e: LogEntry, m: Measure) -> int {
    let stmt = e.message_type is Statement;
    match m {
        Measure::Statements => if stmt { 1 } else { 0 },
        Measure::Duration => if stmt { duration_or_zero(e) } else { 0 },
        Measure::Errors => if e.message_type is Error { 1 } else { 0 },
        Measure::Connections => if contains_text(lower_of(e.message@), "connection"@) { 1 } else { 0 },
        Measure::Typed(t) => if stmt && classify(statement_text_of(e)) == t { 1 } else { 0 },
        Measure::HourStatements(h) => if stmt
            && crate::timestamp::hour_of(e.timestamp.seconds as int) == h { 1 } else { 0 },
        Measure::HourDuration(h) => if stmt
            && crate::timestamp::hour_of(e.timestamp.seconds as int)
                == h { duration_or_zero(e) } else { 0 },
    }
}

/// The sum of a measure over records.
pub open spec fn sum_measure(es: Seq<LogEntry>, m: Measure) -> int
    decreases es.len(),
{
    if es.len() == 0 {
        0
    } else {
        sum_measure(es.drop_last(), m) + measure(es.last(), m)
    }
}

pub proof fn lemma_sum_step(es: Seq<LogEntry>, i: int, m: Measure)
    requires
        0 <= i < es.len(),
    ensures
        sum_measure(es.take(i + 1), m) == sum_measure(es.take(i), m) + measure(es[i], m),
{
    assert(es.take(i + 1).drop_last() =~= es.take(i));
}

/// The durations of the statement records, in order, 0 where absent.
pub open spec fn statement_durations(es: Seq<LogEntry>) -> Seq<u64>
    decreases es.len(),
{
    if es.len() == 0 {
        Seq::empty()
    } else if es.last().message_type is Statement {
        statement_durations(es.drop_last()).push(duration_or_zero(es.last()) as u64)
    } else {
        statement_durations(es.drop_last())
    }
}

/// The shapes of the statement records' texts, in order.
pub open spec fn statement_shapes(es: Seq<LogEntry>) -> Seq<Seq<char>>
    decreases es.len(),
{
    if es.len() == 0 {
        Seq::empty()
    } else if es.last().message_type is Statement {
        statement_shapes(es.drop_last()).push(text_shape(statement_text_of(es.last())))
    } else {
        statement_shapes(es.drop_last())
    }
}

/// The statement records slower than `threshold`, as shape and duration, in order.
pub open spec fn slow_candidates(es: Seq<LogEntry>, threshold: int) -> Seq<(Seq<char>, int)>
    decreases es.len(),
{
    if es.len() == 0 {
        Seq::empty()
    } else if es.last().message_type is Statement && duration_or_zero(es.last()) > threshold {
        slow_candidates(es.drop_last(), threshold).push(
            (text_shape(statement_text_of(es.last())), duration_or_zero(es.last())),
        )
    } else {
        slow_candidates(es.drop_last(), threshold)
    }
}

/// The query type whose display name is `name`.
pub open spec fn type_named(name: Seq<char>) -> Option<QueryType> {
    if name == "SELECT"@ {
        Some(QueryType::Select)
    } else if name == "INSERT"@ {
        Some(QueryType::Insert)
    } else if name == "UPDATE"@ {
        Some(QueryType::Update)
    } else if name == "DELETE"@ {
        Some(QueryType::Delete)
    } else if name == "DDL"@ {
        Some(QueryType::DDL)
    } else if name == "OTHER"@ {
        Some(QueryType::Other)
    } else {
        None
    }
}

/// Counts of statement records by query type.
#[derive(Clone, Copy, Debug, PartialEq, Eq, Structural)]
pub struct QueryTypeCounts {
    pub select: u64,
    pub insert: u64,
    pub update: u64,
    pub delete: u64,
    pub ddl: u64,
    pub other: u64,
}

impl QueryTypeCounts {
    pub open spec fn count_of(&self, t: QueryType) -> u64 {
        match t {
            QueryType::Select => self.select,
            QueryType::Insert => self.insert,
            QueryType::Update => self.update,
            QueryType::Delete => self.delete,
            QueryType::DDL => self.ddl,
            QueryType::Other => self.other,
        }
    }

    pub fn new() -> (r: QueryTypeCounts)
        ensures
            forall|t: QueryType| r.count_of(t) == 0,
    {
        QueryTypeCounts { select: 0, insert: 0, update: 0, delete: 0, ddl: 0, other: 0 }
    }

    /// The count of a type.
    pub fn count(&self, t: QueryType) -> (r: u64)
        ensures
            r == self.count_of(t),
    {
        match t {
            QueryType::Select => self.select,
            QueryType::Insert => self.insert,
            QueryType::Update => self.update,
            QueryType::Delete => self.delete,
            QueryType::DDL => self.ddl,
            QueryType::Other => self.other,
        }
    }

    pub fn add_one(&mut self, t: QueryType)
        requires
            old(self).count_of(t) < u64::MAX,
        ensures
            forall|u: QueryType| #[trigger] final(self).count_of(u) == old(self).count_of(u) + if u
                == t {
                1int
            } else {
                0int
            },
    {
        match t {
            QueryType::Select => self.select = self.select + 1,
            QueryType::Insert => self.insert = self.insert + 1,
            QueryType::Update => self.update = self.update + 1,
            QueryType::Delete => self.delete = self.delete + 1,
            QueryType::DDL => self.ddl = self.ddl + 1,
            QueryType::Other => self.other = self.other + 1,
        }
    }

    /// Whether no type has a count.
    pub fn is_empty(&self) -> (r: bool)
        ensures
            r == forall|t: QueryType| self.count_of(t) == 0,
    {
        let r = self.select == 0 && self.insert == 0 && self.update == 0 && self.delete == 0
            && self.ddl == 0 && self.other == 0;
        assert(r ==> forall|t: QueryType| self.count_of(t) == 0);
        assert(!r ==> !(forall|t: QueryType| self.count_of(t) == 0)) by {
            if !r {
                if self.select != 0 {
                    assert(self.count_of(QueryType::Select) != 0);
                } else if self.insert != 0 {
                    assert(self.count_of(QueryType::Insert) != 0);
                } else if self.update != 0 {
                    assert(self.count_of(QueryType::Update) != 0);
                } else if self.delete != 0 {
                    assert(self.count_of(QueryType::Delete) != 0);
                } else if self.ddl != 0 {
                    assert(self.count_of(QueryType::DDL) != 0);
                } else {
                    assert(self.count_of(QueryType::Other) != 0);
                }
            }
        }
        r
    }

    /// The count of a type, where it is above 0.
    pub fn of_type(&self, t: &QueryType) -> (r: Option<&u64>)
        ensures
            self.count_of(*t) > 0 ==> r == Some(&self.count_of(*t)),
            self.count_of(*t) == 0 ==> r is None,
    {
        let c = match t {
            QueryType::Select => &self.select,
            QueryType::Insert => &self.insert,
            QueryType::Update => &self.update,
            QueryType::Delete => &self.delete,
            QueryType::DDL => &self.ddl,
            QueryType::Other => &self.other,
        };
        if *c > 0 {
            Some(c)
        } else {
            None
        }
    }

    /// The count of the type with the given display name, where it is above 0.
    pub fn get(&self, name: &str) -> (r: Option<&u64>)
        ensures
            match type_named(name@) {
                Some(t) => if self.count_of(t) > 0 {
                    r == Some(&self.count_of(t))
                } else {
                    r is None
                },
                None => r is None,
            },
    {
        let t = if crate::same_text(name, "SELECT") {
            QueryType::Select
        } else if crate::same_text(name, "INSERT") {
            QueryType::Insert
        } else if crate::same_text(name, "UPDATE") {
            QueryType::Update
        } else if crate::same_text(name, "DELETE") {
            QueryType::Delete
        } else if crate::same_text(name, "DDL") {
            QueryType::DDL
        } else if crate::same_text(name, "OTHER") {
            QueryType::Other
        } else {
            return None;
        };
        let c = match t {
            QueryType::Select => &self.select,
            QueryType::Insert => &self.insert,
            QueryType::Update => &self.update,
            QueryType::Delete => &self.delete,
            QueryType::DDL => &self.ddl,
            QueryType::Other => &self.other,
        };
        if *c > 0 {
            Some(c)
        } else {
            None
        }
    }
}

/// Whether the message mentions "connection", in any case.
pub fn mentions_connection(message: &str) -> (r: bool)
    ensures
        r == contains_text(lower_of(message@), "connection"@),
{
    let low = to_lower(message);
    mentions_connection_in_lowered(low.as_str())
}

/// Whether lower-cased text holds "connection".
pub fn mentions_connection_in_lowered(lowered: &str) -> (r: bool)
    ensures
        r == contains_text(lowered@, "connection"@),
{
    let v = chars_of(lowered);
    let p = chars_of("connection");
    let mut i: usize = 0;
    while i < v.len()
        invariant
            v@ == lowered@,
            p@ == "connection"@,
            i <= v@.len(),
            forall|k: int|
                0 <= k < i && k + p@.len() <= v@.len() ==> #[trigger] v@.subrange(k, k + p@.len())
                    != p@,
        decreases v@.len() - i,
    {
        if matches_at(&v, i, &p) {
            return true;
        }
        i = i + 1;
    }
    assert forall|k: int| 0 <= k && k + p@.len() <= v@.len() implies #[trigger] v@.subrange(
        k,
        k + p@.len(),
    ) != p@ by {
        if k >= i {
            assert(p@.len() > 0) by {
                reveal_strlit("connection");
            }
        }
    }
    false
}

/// Performance figures over a set of durations, in microseconds.
#[derive(Clone, Copy, Debug, PartialEq, Eq, Structural)]
pub struct QueryMetrics {
    pub min_duration_us: u64,
    pub max_duration_us: u64,
    pub average_duration_us: u64,
    pub p95_duration_us: u64,
    pub p99_duration_us: u64,
    pub total_queries: u64,
    pub total_duration_us: u128,
}

impl QueryMetrics {
    /// Every figure 0.
    pub fn zero() -> (r: QueryMetrics)
        ensures
            r.min_duration_us == 0 && r.max_duration_us == 0 && r.average_duration_us == 0,
            r.p95_duration_us == 0 && r.p99_duration_us == 0,
            r.total_queries == 0 && r.total_duration_us == 0,
    {
        QueryMetrics {
            min_duration_us: 0,
            max_duration_us: 0,
            average_duration_us: 0,
            p95_duration_us: 0,
            p99_duration_us: 0,
            total_queries: 0,
            total_duration_us: 0,
        }
    }
}

impl Default for QueryMetrics {
    fn default() -> (r: QueryMetrics)
        ensures
            r == QueryMetrics::zero_spec(),
    {
        QueryMetrics::zero()
    }
}

impl QueryMetrics {
    pub open spec fn zero_spec() -> QueryMetrics {
        QueryMetrics {
            min_duration_us: 0,
            max_duration_us: 0,
            average_duration_us: 0,
            p95_duration_us: 0,
            p99_duration_us: 0,
            total_queries: 0,
            total_duration_us: 0,
        }
    }
}

/// The sum of the samples.
pub open spec fn sample_sum(d: Seq<u64>) -> int
    decreases d.len(),
{
    if d.len() == 0 {
        0
    } else {
        sample_sum(d.drop_last()) + d.last()
    }
}

/// Whether `m` holds the figures of the samples `d`: all 0 without samples;
/// else the count, the sum, the average rounded down, and the least, the
/// greatest and the nearest-rank 95th and 99th percentile of them.
pub open spec fn metrics_of(d: Seq<u64>, m: QueryMetrics) -> bool {
    if d.len() == 0 {
        m == QueryMetrics::zero_spec()
    } else {
        &&& m.total_queries == d.len()
        &&& m.total_duration_us == sample_sum(d)
        &&& m.average_duration_us == sample_sum(d) / (d.len() as int)
        &&& exists|s: Seq<u64>|
            sorted_ascending(s) && s.to_multiset() == d.to_multiset() && m.min_duration_us == s[0]
                && m.max_duration_us == s[d.len() - 1] && m.p95_duration_us == s[rank_index(
                d.len() as int,
                9500,
            )] && m.p99_duration_us == s[rank_index(d.len() as int, 9900)]
    }
}

/// Analyzer for the SQL statements found in PostgreSQL logs.
#[derive(Clone, Copy, Debug)]
pub struct QueryAnalyzer {
    /// Durations above this, in microseconds, make a statement slow.
    pub slow_query_threshold_us: u64,
    pub max_slow_queries: usize,
    pub max_frequent_queries: usize,
}

/// Whether `a` is the analysis of the records `es` with the given settings.
pub open spec fn analysis_of(
    es: Seq<LogEntry>,
    threshold: int,
    max_slow: int,
    max_frequent: int,
    a: AnalysisResult,
) -> bool {
    &&& a.total_queries == sum_measure(es, Measure::Statements)
    &&& a.total_duration_us == sum_measure(es, Measure::Duration)
    &&& a.error_count == sum_measure(es, Measure::Errors)
    &&& a.connection_count == sum_measure(es, Measure::Connections)
    &&& forall|t: QueryType| #[trigger] a.query_types.count_of(t) == sum_measure(es, Measure::Typed(t))
    &&& a.average_duration_us == (if a.total_queries == 0 {
        0
    } else {
        a.total_duration_us / a.total_queries as u128
    })
    &&& is_percentile(statement_durations(es), 9500, a.p95_duration_us)
    &&& is_percentile(statement_durations(es), 9900, a.p99_duration_us)
    &&& pairs_view(a.slowest_queries@) == top(slow_candidates(es, threshold), max_slow)
    &&& pairs_view(a.most_frequent_queries@) == top(tally(statement_shapes(es)), max_frequent)
    &&& crate::analytics::timing::hourly_list(es, a.hourly_buckets@)
}

impl QueryAnalyzer {
    /// A slow-query threshold of one second, 10 slow queries and 20 frequent ones.
    pub fn new() -> (r: QueryAnalyzer)
        ensures
            r.slow_query_threshold_us == 1_000_000,
            r.max_slow_queries == 10,
            r.max_frequent_queries == 20,
    {
        QueryAnalyzer {
            slow_query_threshold_us: 1_000_000,
            max_slow_queries: 10,
            max_frequent_queries: 20,
        }
    }

    pub fn with_settings(
        slow_query_threshold_us: u64,
        max_slow_queries: usize,
        max_frequent_queries: usize,
    ) -> (r: QueryAnalyzer)
        ensures
            r.slow_query_threshold_us == slow_query_threshold_us,
            r.max_slow_queries == max_slow_queries,
            r.max_frequent_queries == max_frequent_queries,
    {
        QueryAnalyzer { slow_query_threshold_us, max_slow_queries, max_frequent_queries }
    }

    pub fn slow_query_threshold_us(&self) -> (r: u64)
        ensures
            r == self.slow_query_threshold_us,
    {
        self.slow_query_threshold_us
    }

    pub fn max_slow_queries(&self) -> (r: usize)
        ensures
            r == self.max_slow_queries,
    {
        self.max_slow_queries
    }

    pub fn max_frequent_queries(&self) -> (r: usize)
        ensures
            r == self.max_frequent_queries,
    {
        self.max_frequent_queries
    }

    /// The shape of SQL text: every literal (positional parameter, number,
    /// single-quoted string) replaced by the placeholder `?`, and whitespace
    /// collapsed.
    pub fn normalize_query(&self, sql: &str) -> (r: String)
        ensures
            r@ == text_shape(sql@),
    {
        shape_of(sql)
    }

    /// The query type of SQL text, by its leading keyword.
    pub fn classify_query(&self, sql: &str) -> (r: QueryType)
        ensures
            r == classify(sql@),
    {
        classify_sql(sql)
    }

    /// Aggregates the records in one pass: counts, total and average
    /// duration, nearest-rank percentiles, query types, and the slowest and
    /// most frequent statement shapes, each ranking in stable descending
    /// order and cut to its maximum. A threshold of 0 is rejected.
    pub fn analyze(&self, entries: &[LogEntry]) -> (r: Result<AnalysisResult, PgLoggrepError>)
        ensures
            self.slow_query_threshold_us == 0 <==> r matches Err(PgLoggrepError::Configuration { .. }),
            self.slow_query_threshold_us > 0 ==> r is Ok && analysis_of(
                entries@,
                self.slow_query_threshold_us as int,
                self.max_slow_queries as int,
                self.max_frequent_queries as int,
                r->Ok_0,
            ),
    {
        if self.slow_query_threshold_us == 0 {
            return Err(
                crate::config_error(
                    "Slow query threshold must be positive",
                    Some("slow_query_threshold"),
                ),
            );
        }
        let ghost es = entries@;
        let threshold = self.slow_query_threshold_us;
        let mut count: u64 = 0;
        let mut total: u128 = 0;
        let mut errors: u64 = 0;
        let mut connections: u64 = 0;
        let mut types = QueryTypeCounts::new();
        let mut durations: Vec<u64> = Vec::new();
        let mut shapes: Vec<String> = Vec::new();
        let mut slow: Vec<(String, u64)> = Vec::new();
        let mut i: usize = 0;
        assert(es.take(0) =~= Seq::<LogEntry>::empty());
        assert(pairs_view(slow@) =~= Seq::<(Seq<char>, int)>::empty());
        assert(texts_view(shapes@) =~= Seq::<Seq<char>>::empty());
        while i < entries.len()
            invariant
                es == entries@,
                i <= es.len(),
                count <= i && errors <= i && connections <= i,
                total <= i * 18446744073709551615,
                total <= count * 18446744073709551615,
                count == sum_measure(es.take(i as int), Measure::Statements),
                total == sum_measure(es.take(i as int), Measure::Duration),
                errors == sum_measure(es.take(i as int), Measure::Errors),
                connections == sum_measure(es.take(i as int), Measure::Connections),
                forall|t: QueryType| #[trigger] types.count_of(t) <= i
                    && types.count_of(t) == sum_measure(es.take(i as int), Measure::Typed(t)),
                durations@ == statement_durations(es.take(i as int)),
                texts_view(shapes@) == statement_shapes(es.take(i as int)),
                pairs_view(slow@) == slow_candidates(es.take(i as int), threshold as int),
            decreases es.len() - i,
        {
            let e = &entries[i];
            let ghost before = es.take(i as int);
            assert(es.take(i + 1).drop_last() =~= before);
            assert(es.take(i + 1).last() == *e);
            proof {
                lemma_sum_step(es, i as int, Measure::Statements);
                lemma_sum_step(es, i as int, Measure::Duration);
                lemma_sum_step(es, i as int, Measure::Errors);
                lemma_sum_step(es, i as int, Measure::Connections);
                assert forall|t: QueryType| sum_measure(es.take(i + 1), Measure::Typed(t))
                    == sum_measure(before, Measure::Typed(t)) + measure(*e, Measure::Typed(t)) by {
                    lemma_sum_step(es, i as int, Measure::Typed(t));
                }
            }
            if e.is_query() {
                let text = match e.statement_text() {
                    Some(t) => t,
                    None => String::new(),
                };
                assert(text@ == statement_text_of(*e));
                let shape = shape_of(text.as_str());
                let t = classify_sql(text.as_str());
                let d: u64 = match e.duration_us {
                    Some(d) => d,
                    None => 0,
                };
                count = count + 1;
                total = total + d as u128;
                types.add_one(t);
                durations.push(d);
                shapes.push(shape.clone());
                assert(texts_view(shapes@) =~= texts_view(shapes@.drop_last()).push(shape@));
                if d > threshold {
                    slow.push((shape, d));
                    assert(pairs_view(slow@) =~= pairs_view(slow@.drop_last()).push((shape@, d as int)));
                }
            }
            if e.is_error() {
                errors = errors + 1;
            }
            if mentions_connection(e.message.as_str()) {
                connections = connections + 1;
            }
            i = i + 1;
        }
        assert(es.take(es.len() as int) =~= es);
        let frequent = rank_desc(tally_texts(&shapes), self.max_frequent_queries);
        let slowest = rank_desc(slow, self.max_slow_queries);
        let ghost samples = durations@;
        sort_ascending(&mut durations);
        let (p95, p99) = if durations.len() == 0 {
            (0, 0)
        } else {
            (percentile_of(&durations, 9500), percentile_of(&durations, 9900))
        };
        assert(durations@.len() == samples.len()) by {
            vstd::seq_lib::to_multiset_len(durations@);
            vstd::seq_lib::to_multiset_len(samples);
        }
        let average: u64 = if count == 0 {
            0
        } else {
            assert(total / count as u128 <= 18446744073709551615) by (nonlinear_arith)
                requires
                    total <= count * 18446744073709551615,
                    count > 0,
            {
            }
            (total / count as u128) as u64
        };
        let hourly = match crate::analytics::timing::TimingAnalyzer::new().analyze_hourly_distribution(
            entries,
        ) {
            Ok(h) => h,
            Err(_) => Vec::new(),
        };
        let result = AnalysisResult {
            total_queries: count,
            total_duration_us: total,
            query_types: types,
            slowest_queries: slowest,
            most_frequent_queries: frequent,
            error_count: errors,
            connection_count: connections,
            average_duration_us: average,
            p95_duration_us: p95,
            p99_duration_us: p99,
            hourly_buckets: hourly,
        };
        Ok(result)
    }
}

proof fn lemma_sum_remove(b: Seq<LogEntry>, j: int, m: Measure)
    requires
        0 <= j < b.len(),
    ensures
        sum_measure(b, m) == sum_measure(b.remove(j), m) + measure(b[j], m),
    decreases b.len(),
{
    if j == b.len() - 1 {
        assert(b.remove(j) =~= b.drop_last());
    } else {
        lemma_sum_remove(b.drop_last(), j, m);
        assert(b.remove(j).drop_last() =~= b.drop_last().remove(j));
        assert(b.remove(j).last() == b.last());
    }
}

/// A summed measure does not depend on the order of the records.
pub proof fn lemma_sum_measure_permutation(a: Seq<LogEntry>, b: Seq<LogEntry>, m: Measure)
    requires
        a.to_multiset() == b.to_multiset(),
    ensures
        sum_measure(a, m) == sum_measure(b, m),
    decreases a.len(),
{
    broadcast use vstd::seq_lib::group_to_multiset_ensures;
    broadcast use vstd::multiset::group_multiset_axioms;

    if a.len() == 0 {
        vstd::seq_lib::to_multiset_len(b);
        vstd::seq_lib::to_multiset_len(a);
        assert(b.len() == 0);
    } else {
        let x = a.last();
        let a1 = a.drop_last();
        assert(a1.push(x) =~= a);
        vstd::seq_lib::to_multiset_build(a1, x);
        assert(b.to_multiset().count(x) > 0);
        vstd::seq_lib::to_multiset_contains(b, x);
        let j = choose|j: int| 0 <= j < b.len() && b[j] == x;
        vstd::seq_lib::to_multiset_remove(b, j);
        assert(b.remove(j).to_multiset() =~= a1.to_multiset());
        lemma_sum_measure_permutation(a1, b.remove(j), m);
        lemma_sum_remove(b, j, m);
    }
}

/// Reordering the records changes none of the totals of an analysis: the
/// number of queries, the total duration, the error and connection counts and
/// the counts by query type.
pub proof fn analysis_order_independent(
    a: Seq<LogEntry>,
    b: Seq<LogEntry>,
    threshold: int,
    max_slow: int,
    max_frequent: int,
    ra: AnalysisResult,
    rb: AnalysisResult,
)
    requires
        a.to_multiset() == b.to_multiset(),
        analysis_of(a, threshold, max_slow, max_frequent, ra),
        analysis_of(b, threshold, max_slow, max_frequent, rb),
    ensures
        ra.total_queries == rb.total_queries,
        ra.total_duration_us == rb.total_duration_us,
        ra.error_count == rb.error_count,
        ra.connection_count == rb.connection_count,
        ra.query_types == rb.query_types,
{
    lemma_sum_measure_permutation(a, b, Measure::Statements);
    lemma_sum_measure_permutation(a, b, Measure::Duration);
    lemma_sum_measure_permutation(a, b, Measure::Errors);
    lemma_sum_measure_permutation(a, b, Measure::Connections);
    assert forall|t: QueryType| ra.query_types.count_of(t) == rb.query_types.count_of(t) by {
        lemma_sum_measure_permutation(a, b, Measure::Typed(t));
    }
    assert(ra.query_types.count_of(QueryType::Select) == rb.query_types.count_of(QueryType::Select));
    assert(ra.query_types.count_of(QueryType::Insert) == rb.query_types.count_of(QueryType::Insert));
    assert(ra.query_types.count_of(QueryType::Update) == rb.query_types.count_of(QueryType::Update));
    assert(ra.query_types.count_of(QueryType::Delete) == rb.query_types.count_of(QueryType::Delete));
    assert(ra.query_types.count_of(QueryType::DDL) == rb.query_types.count_of(QueryType::DDL));
    assert(ra.query_types.count_of(QueryType::Other) == rb.query_types.count_of(QueryType::Other));
}

/// The analysis of no records has no queries, no duration, percentiles and
/// average of 0, no query types and empty rankings.
pub proof fn analysis_of_no_records(
    threshold: int,
    max_slow: int,
    max_frequent: int,
    r: AnalysisResult,
)
    requires
        0 <= max_slow,
        0 <= max_frequent,
        analysis_of(Seq::empty(), threshold, max_slow, max_frequent, r),
    ensures
        r.total_queries == 0,
        r.total_duration_us == 0,
        r.average_duration_us == 0,
        r.p95_duration_us == 0,
        r.p99_duration_us == 0,
        r.error_count == 0,
        r.connection_count == 0,
        forall|t: QueryType| r.query_types.count_of(t) == 0,
        r.slowest_queries@.len() == 0,
        r.most_frequent_queries@.len() == 0,
        r.hourly_buckets@.len() == 0,
{
    crate::analytics::timing::lemma_no_busy_hours(24);
    assert(statement_durations(Seq::<LogEntry>::empty()).len() == 0);
    let none = Seq::<(Seq<char>, int)>::empty();
    assert(slow_candidates(Seq::<LogEntry>::empty(), threshold) == none);
    assert(statement_shapes(Seq::<LogEntry>::empty()) == Seq::<Seq<char>>::empty());
    assert(tally(Seq::<Seq<char>>::empty()) == none);
    assert(stable_desc(none) == none);
    assert(top(none, max_slow) == none);
    assert(top(none, max_frequent) == none);
    assert(pairs_view(r.slowest_queries@).len() == 0);
    assert(pairs_view(r.most_frequent_queries@).len() == 0);
}

/// The statement records slower than `threshold`, in order.
pub open spec fn slow_entries(es: Seq<LogEntry>, threshold: int) -> Seq<LogEntry>
    decreases es.len(),
{
    if es.len() == 0 {
        Seq::empty()
    } else if es.last().message_type is Statement && duration_or_zero(es.last()) > threshold {
        slow_entries(es.drop_last(), threshold).push(es.last())
    } else {
        slow_entries(es.drop_last(), threshold)
    }
}

impl QueryAnalyzer {
    /// The figures of a set of durations.
    pub fn calculate_metrics(&self, durations: &[u64]) -> (r: QueryMetrics)
        ensures
            metrics_of(durations@, r),
    {
        let n = durations.len();
        if n == 0 {
            return QueryMetrics::zero();
        }
        let mut total: u128 = 0;
        let mut sorted: Vec<u64> = Vec::new();
        let mut i: usize = 0;
        while i < n
            invariant
                n == durations@.len(),
                i <= n,
                total == sample_sum(durations@.take(i as int)),
                total <= i * 18446744073709551615,
                sorted@ == durations@.take(i as int),
            decreases n - i,
        {
            assert(durations@.take(i + 1).drop_last() =~= durations@.take(i as int));
            total = total + durations[i] as u128;
            sorted.push(durations[i]);
            i = i + 1;
            assert(sorted@ =~= durations@.take(i as int));
        }
        assert(durations@.take(n as int) =~= durations@);
        let ghost samples = sorted@;
        sort_ascending(&mut sorted);
        proof {
            vstd::seq_lib::to_multiset_len(sorted@);
            vstd::seq_lib::to_multiset_len(samples);
        }
        assert(total / n as u128 <= 18446744073709551615) by (nonlinear_arith)
            requires
                total <= n * 18446744073709551615,
                n > 0,
        {
        }
        let m = QueryMetrics {
            min_duration_us: sorted[0],
            max_duration_us: sorted[n - 1],
            average_duration_us: (total / n as u128) as u64,
            p95_duration_us: percentile_of(&sorted, 9500),
            p99_duration_us: percentile_of(&sorted, 9900),
            total_queries: n as u64,
            total_duration_us: total,
        };
        assert(sorted_ascending(sorted@) && sorted@.to_multiset() == durations@.to_multiset());
        m
    }

    /// The statement records slower than `threshold_us`, in order.
    pub fn find_slow_queries(&self, entries: &[LogEntry], threshold_us: u64) -> (r: Result<
        Vec<LogEntry>,
        PgLoggrepError,
    >)
        ensures
            r is Ok,
            r->Ok_0@.len() == slow_entries(entries@, threshold_us as int).len(),
            forall|k: int| 0 <= k < r->Ok_0@.len()
                ==> crate::same_entry(#[trigger] r->Ok_0@[k], slow_entries(entries@, threshold_us as int)[k]),
    {
        let ghost es = entries@;
        let mut out: Vec<LogEntry> = Vec::new();
        let mut i: usize = 0;
        assert(es.take(0) =~= Seq::<LogEntry>::empty());
        while i < entries.len()
            invariant
                es == entries@,
                i <= entries@.len(),
                out@.len() == slow_entries(es.take(i as int), threshold_us as int).len(),
                forall|k: int| 0 <= k < out@.len()
                    ==> crate::same_entry(#[trigger] out@[k], slow_entries(es.take(i as int), threshold_us as int)[k]),
            decreases entries@.len() - i,
        {
            let e = &entries[i];
            assert(entries@.take(i + 1).drop_last() =~= entries@.take(i as int));
            let d: u64 = match e.duration_us {
                Some(d) => d,
                None => 0,
            };
            assert(es.take(i + 1).last() == *e);
            if e.is_query() && d > threshold_us {
                let ghost before = out@;
                out.push(e.duplicate());
                assert forall|k: int| 0 <= k < before.len() implies out@[k] == before[k] by {}
            }
            i = i + 1;
        }
        assert(es.take(es.len() as int) =~= es);
        Ok(out)
    }

    /// The counts of statement records by the type of their text.
    pub fn get_query_type_distribution(&self, entries: &[LogEntry]) -> (r: QueryTypeCounts)
        ensures
            forall|t: QueryType| #[trigger] r.count_of(t) == sum_measure(entries@, Measure::Typed(t)),
    {
        let ghost es = entries@;
        let mut types = QueryTypeCounts::new();
        let mut i: usize = 0;
        assert(es.take(0) =~= Seq::<LogEntry>::empty());
        while i < entries.len()
            invariant
                es == entries@,
                i <= es.len(),
                forall|t: QueryType| #[trigger] types.count_of(t) <= i
                    && types.count_of(t) == sum_measure(es.take(i as int), Measure::Typed(t)),
            decreases es.len() - i,
        {
            let e = &entries[i];
            assert(es.take(i + 1).drop_last() =~= es.take(i as int));
            assert(es.take(i + 1).last() == *e);
            proof {
                assert forall|t: QueryType| sum_measure(es.take(i + 1), Measure::Typed(t))
                    == sum_measure(es.take(i as int), Measure::Typed(t))
                        + measure(*e, Measure::Typed(t)) by {
                    lemma_sum_step(es, i as int, Measure::Typed(t));
                }
            }
            if e.is_query() {
                let text = match e.statement_text() {
                    Some(t) => t,
                    None => String::new(),
                };
                types.add_one(classify_sql(text.as_str()));
            }
            i = i + 1;
        }
        assert(es.take(es.len() as int) =~= es);
        types
    }

    /// The error records and all records, as the numerator and denominator
    /// of the error rate.
    pub fn calculate_error_rate(&self, entries: &[LogEntry]) -> (r: (u64, u64))
        ensures
            r.0 == sum_measure(entries@, Measure::Errors),
            r.1 == entries@.len(),
    {
        let ghost es = entries@;
        let mut errors: u64 = 0;
        let mut i: usize = 0;
        assert(es.take(0) =~= Seq::<LogEntry>::empty());
        while i < entries.len()
            invariant
                es == entries@,
                i <= es.len(),
                errors <= i,
                errors == sum_measure(es.take(i as int), Measure::Errors),
            decreases es.len() - i,
        {
            proof {
                lemma_sum_step(es, i as int, Measure::Errors);
            }
            if entries[i].is_error() {
                errors = errors + 1;
            }
            i = i + 1;
        }
        assert(es.take(es.len() as int) =~= es);
        (errors, entries.len() as u64)
    }
}

/// The rankings of an analysis come slowest first and most frequent first.
pub proof fn rankings_sorted_descending(
    es: Seq<LogEntry>,
    threshold: int,
    max_slow: int,
    max_frequent: int,
    a: AnalysisResult,
)
    requires
        0 <= max_slow,
        0 <= max_frequent,
        analysis_of(es, threshold, max_slow, max_frequent, a),
    ensures
        sorted_desc(pairs_view(a.slowest_queries@)),
        sorted_desc(pairs_view(a.most_frequent_queries@)),
{
    lemma_top_sorted(slow_candidates(es, threshold), max_slow);
    lemma_top_sorted(tally(statement_shapes(es)), max_frequent);
}

impl Default for QueryAnalyzer {
    fn default() -> (r: QueryAnalyzer)
        ensures
            r.slow_query_threshold_us == 1_000_000,
            r.max_slow_queries == 10,
            r.max_frequent_queries == 20,
    {
        QueryAnalyzer::new()
    }
}

} // verus!
