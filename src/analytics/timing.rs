//! Timing patterns of log records: response-time percentiles, durations and
//! connection mentions by hour of day and day of week, and peak hours.

use vstd::prelude::*;
use crate::analytics::queries::{
    contains_text, duration_or_zero, measure, mentions_connection, sum_measure, Measure,
};
use crate::analytics::ranking::{
    is_percentile, percentile_of, rank_index, sort_ascending, sorted_ascending,
};
use crate::text::lower_of;
use crate::timestamp::{hour_of, not_after, weekday_of, whole_seconds_between, Timestamp};
use crate::{LogEntry, PgLoggrepError};

verus! {

/// Settings of the timing analysis.
#[derive(Clone, Copy, Debug, PartialEq, Eq, Structural)]
pub struct TimingAnalyzerConfig {
    /// Minutes per time bucket.
    pub time_bucket_size: u32,
    pub include_connections: bool,
    pub include_peak_analysis: bool,
}

impl TimingAnalyzerConfig {
    pub open spec fn default_spec() -> TimingAnalyzerConfig {
        TimingAnalyzerConfig {
            time_bucket_size: 60,
            include_connections: true,
            include_peak_analysis: true,
        }
    }
}

impl Default for TimingAnalyzerConfig {
    /// Hourly buckets, with connection and peak analysis.
    fn default() -> (r: TimingAnalyzerConfig)
        ensures
            r == TimingAnalyzerConfig::default_spec(),
    {
        TimingAnalyzerConfig {
            time_bucket_size: 60,
            include_connections: true,
            include_peak_analysis: true,
        }
    }
}

/// Analyzer of timing patterns.
#[derive(Clone, Copy, Debug)]
pub struct TimingAnalyzer {
    pub config: TimingAnalyzerConfig,
}

/// The quantities that the timing analysis sums over records.
pub enum TimingMeasure {
    /// Records with a duration.
    Timed,
    /// Their durations.
    TimedDuration,
    /// Records with a duration in the given hour of the day.
    HourCount(int),
    /// Their durations.
    HourDuration(int),
    /// Records with a duration on the given day of the week.
    DayCount(int),
    /// Their durations.
    DayDuration(int),
    /// Records in the given hour whose message mentions "connection".
    HourConnections(int),
    /// Records on the given day of the week whose message mentions "connection".
    DayConnections(int),
    /// Records whose message mentions "connection".
    Mentions,
    /// Error records whose message mentions "connection".
    MentionErrors,
}

/// Whether the record's message mentions "connection", in any case.
pub open spec fn mentions(e: LogEntry) -> bool {
    contains_text(lower_of(e.message@), "connection"@)
}

pub open spec fn timing_measure(e: LogEntry, m: TimingMeasure) -> int {
    let h = hour_of(e.timestamp.seconds as int);
    let d = weekday_of(e.timestamp.seconds as int);
    let dur = match e.duration_us {
        Some(x) => x as int,
        None => 0,
    };
    let timed = e.duration_us is Some;
    match m {
        TimingMeasure::Timed => if timed { 1 } else { 0 },
        TimingMeasure::TimedDuration => dur,
        TimingMeasure::HourCount(x) => if timed && h == x { 1 } else { 0 },
        TimingMeasure::HourDuration(x) => if h == x { dur } else { 0 },
        TimingMeasure::DayCount(x) => if timed && d == x { 1 } else { 0 },
        TimingMeasure::DayDuration(x) => if d == x { dur } else { 0 },
        TimingMeasure::HourConnections(x) => if h == x && mentions(e) { 1 } else { 0 },
        TimingMeasure::DayConnections(x) => if d == x && mentions(e) { 1 } else { 0 },
        TimingMeasure::Mentions => if mentions(e) { 1 } else { 0 },
        TimingMeasure::MentionErrors => if mentions(e) && e.message_type is Error { 1 } else { 0 },
    }
}

pub open spec fn timing_sum(es: Seq<LogEntry>, m: TimingMeasure) -> int
    decreases es.len(),
{
    if es.len() == 0 {
        0
    } else {
        timing_sum(es.drop_last(), m) + timing_measure(es.last(), m)
    }
}

proof fn lemma_timing_step(es: Seq<LogEntry>, i: int, m: TimingMeasure)
    requires
        0 <= i < es.len(),
    ensures
        timing_sum(es.take(i + 1), m) == timing_sum(es.take(i), m) + timing_measure(es[i], m),
{
    assert(es.take(i + 1).drop_last() =~= es.take(i));
}

/// The durations of the records that have one, in order.
pub open spec fn timed_durations(es: Seq<LogEntry>) -> Seq<u64>
    decreases es.len(),
{
    if es.len() == 0 {
        Seq::empty()
    } else if es.last().duration_us is Some {
        timed_durations(es.drop_last()).push(es.last().duration_us->0)
    } else {
        timed_durations(es.drop_last())
    }
}

pub open spec fn count_measure(daily: bool, x: int) -> TimingMeasure {
    if daily {
        TimingMeasure::DayCount(x)
    } else {
        TimingMeasure::HourCount(x)
    }
}

pub open spec fn duration_measure(daily: bool, x: int) -> TimingMeasure {
    if daily {
        TimingMeasure::DayDuration(x)
    } else {
        TimingMeasure::HourDuration(x)
    }
}

/// The buckets below `n` (hours of the day, or days of the week where
/// `daily`) that hold a record with a duration, in ascending order, each with
/// the sum of those durations.
pub open spec fn value_buckets(es: Seq<LogEntry>, n: int, daily: bool) -> Seq<(u32, int)>
    decreases n,
{
    if n <= 0 {
        Seq::empty()
    } else if timing_sum(es, count_measure(daily, n - 1)) > 0 {
        value_buckets(es, n - 1, daily).push(
            ((n - 1) as u32, timing_sum(es, duration_measure(daily, n - 1))),
        )
    } else {
        value_buckets(es, n - 1, daily)
    }
}

pub open spec fn mention_measure(daily: bool, x: int) -> TimingMeasure {
    if daily {
        TimingMeasure::DayConnections(x)
    } else {
        TimingMeasure::HourConnections(x)
    }
}

/// The buckets below `n` (hours, or days of the week where `daily`) with
/// connection mentions, with their counts.
pub open spec fn mention_buckets(es: Seq<LogEntry>, n: int, daily: bool) -> Seq<(u32, int)>
    decreases n,
{
    if n <= 0 {
        Seq::empty()
    } else if timing_sum(es, mention_measure(daily, n - 1)) > 0 {
        mention_buckets(es, n - 1, daily).push(
            ((n - 1) as u32, timing_sum(es, mention_measure(daily, n - 1))),
        )
    } else {
        mention_buckets(es, n - 1, daily)
    }
}

/// The sum of the buckets' values.
pub open spec fn bucket_total(b: Seq<(u32, int)>) -> int
    decreases b.len(),
{
    if b.len() == 0 {
        0
    } else {
        bucket_total(b.drop_last()) + b.last().1
    }
}

/// The buckets among the first `n` whose value is more than one and a half
/// times the average over all buckets `b`: peak hours.
pub open spec fn peaks(b: Seq<(u32, int)>, n: int) -> Seq<u32>
    decreases n,
{
    if n <= 0 {
        Seq::empty()
    } else if b[n - 1].1 * 2 * b.len() > 3 * bucket_total(b) {
        peaks(b, n - 1).push(b[n - 1].0)
    } else {
        peaks(b, n - 1)
    }
}

pub open spec fn buckets_view(v: Seq<(u32, u128)>) -> Seq<(u32, int)> {
    v.map_values(|p: (u32, u128)| (p.0, p.1 as int))
}

pub open spec fn counts_view(v: Seq<(u32, u64)>) -> Seq<(u32, int)> {
    v.map_values(|p: (u32, u64)| (p.0, p.1 as int))
}

/// The result of a timing analysis. Durations are in whole microseconds.
#[derive(Clone, Debug)]
pub struct TimingAnalysis {
    pub average_response_us: u64,
    pub p95_response_us: u64,
    pub p99_response_us: u64,
    /// Total duration by hour of day, for the hours that have any.
    pub hourly_patterns: Vec<(u32, u128)>,
    /// Total duration by day of week (0 for Monday), for the days that have any.
    pub daily_patterns: Vec<(u32, u128)>,
    /// Connection mentions by hour of day, for the hours that have any.
    pub connection_patterns: Vec<(u32, u64)>,
    /// Hours whose total duration is above one and a half times the average hour's.
    pub peak_hours: Vec<u32>,
    pub total_queries: u64,
    pub total_duration_us: u128,
}

/// Whether `a` is the timing analysis of the records `es` under `config`.
pub open spec fn timing_of(es: Seq<LogEntry>, config: TimingAnalyzerConfig, a: TimingAnalysis) -> bool {
    let hours = value_buckets(es, 24, false);
    &&& a.total_queries == timing_sum(es, TimingMeasure::Timed)
    &&& a.total_duration_us == timing_sum(es, TimingMeasure::TimedDuration)
    &&& a.average_response_us == (if a.total_queries == 0 {
        0
    } else {
        a.total_duration_us / a.total_queries as u128
    })
    &&& is_percentile(timed_durations(es), 9500, a.p95_response_us)
    &&& is_percentile(timed_durations(es), 9900, a.p99_response_us)
    &&& buckets_view(a.hourly_patterns@) == hours
    &&& buckets_view(a.daily_patterns@) == value_buckets(es, 7, true)
    &&& counts_view(a.connection_patterns@) == (if config.include_connections {
        mention_buckets(es, 24, false)
    } else {
        Seq::empty()
    })
    &&& a.peak_hours@ == (if config.include_peak_analysis {
        peaks(hours, hours.len() as int)
    } else {
        Seq::empty()
    })
}

/// 2 to the 64th: the base of the two halves of a `u128`.
pub const HALF: u128 = 0x1_0000_0000_0000_0000;

/// Whether `b * u > t * v`, for small factors, without overflow.
pub fn scaled_greater(b: u128, u: u128, t: u128, v: u128) -> (r: bool)
    requires
        u <= 64,
        v <= 64,
    ensures
        r == (b * u > t * v),
{
    let bh = b / HALF;
    let bl = b % HALF;
    let th = t / HALF;
    let tl = t % HALF;
    assert(bh < HALF && th < HALF);
    assert(bl * u <= HALF * 64) by (nonlinear_arith)
        requires
            bl < HALF,
            u <= 64,
    ;
    assert(bh * u <= HALF * 64) by (nonlinear_arith)
        requires
            bh < HALF,
            u <= 64,
    ;
    assert(tl * v <= HALF * 64) by (nonlinear_arith)
        requires
            tl < HALF,
            v <= 64,
    ;
    assert(th * v <= HALF * 64) by (nonlinear_arith)
        requires
            th < HALF,
            v <= 64,
    ;
    let x_lo = bl * u;
    let x_hi = bh * u + x_lo / HALF;
    let x_l = x_lo % HALF;
    let y_lo = tl * v;
    let y_hi = th * v + y_lo / HALF;
    let y_l = y_lo % HALF;
    assert(b * u == x_hi * HALF + x_l) by (nonlinear_arith)
        requires
            b == bh * HALF + bl,
            x_lo == bl * u,
            x_hi == bh * u + x_lo / HALF,
            x_l == x_lo % HALF,
            HALF > 0,
    {
        assert(x_lo == (x_lo / HALF) * HALF + x_lo % HALF);
    }
    assert(t * v == y_hi * HALF + y_l) by (nonlinear_arith)
        requires
            t == th * HALF + tl,
            y_lo == tl * v,
            y_hi == th * v + y_lo / HALF,
            y_l == y_lo % HALF,
            HALF > 0,
    {
        assert(y_lo == (y_lo / HALF) * HALF + y_lo % HALF);
    }
    let r = x_hi > y_hi || (x_hi == y_hi && x_l > y_l);
    assert(r == (x_hi * HALF + x_l > y_hi * HALF + y_l)) by (nonlinear_arith)
        requires
            x_l < HALF,
            y_l < HALF,
            r == (x_hi > y_hi || (x_hi == y_hi && x_l > y_l)),
    {
        if x_hi > y_hi {
            assert(x_hi * HALF >= (y_hi + 1) * HALF);
        } else if x_hi < y_hi {
            assert(y_hi * HALF >= (x_hi + 1) * HALF);
        }
    }
    r
}

fn zeros_u64(n: usize) -> (r: Vec<u64>)
    ensures
        r@.len() == n,
        forall|k: int| 0 <= k < n ==> r@[k] == 0,
{
    let mut v: Vec<u64> = Vec::new();
    while v.len() < n
        invariant
            v@.len() <= n,
            forall|k: int| 0 <= k < v@.len() ==> v@[k] == 0,
        decreases n - v@.len(),
    {
        v.push(0);
    }
    v
}

fn zeros_u128(n: usize) -> (r: Vec<u128>)
    ensures
        r@.len() == n,
        forall|k: int| 0 <= k < n ==> r@[k] == 0,
{
    let mut v: Vec<u128> = Vec::new();
    while v.len() < n
        invariant
            v@.len() <= n,
            forall|k: int| 0 <= k < v@.len() ==> v@[k] == 0,
        decreases n - v@.len(),
    {
        v.push(0);
    }
    v
}

/// The sum of the first `n` values.
pub open spec fn sum_first(v: Seq<u128>, n: int) -> int
    decreases n,
{
    if n <= 0 {
        0
    } else {
        sum_first(v, n - 1) + v[n - 1]
    }
}

proof fn lemma_sum_first_update(v: Seq<u128>, n: int, h: int, x: u128)
    requires
        0 <= h < n <= v.len(),
    ensures
        sum_first(v.update(h, x), n) == sum_first(v, n) - v[h] + x,
    decreases n,
{
    if n - 1 > h {
        lemma_sum_first_update(v, n - 1, h, x);
    } else {
        assert forall|k: int| 0 <= k < h implies v.update(h, x)[k] == v[k] by {}
        lemma_sum_first_same(v, v.update(h, x), h);
    }
}

proof fn lemma_sum_first_same(a: Seq<u128>, b: Seq<u128>, n: int)
    requires
        0 <= n <= a.len(),
        n <= b.len(),
        forall|k: int| 0 <= k < n ==> a[k] == b[k],
    ensures
        sum_first(a, n) == sum_first(b, n),
    decreases n,
{
    if n > 0 {
        lemma_sum_first_same(a, b, n - 1);
    }
}

/// The buckets below `n` whose count is above 0, in ascending order, with their values.
fn present_buckets(
    counts: &Vec<u64>,
    values: &Vec<u128>,
    n: usize,
    Ghost(es): Ghost<Seq<LogEntry>>,
    daily: bool,
) -> (r: Vec<(u32, u128)>)
    requires
        n <= counts@.len(),
        n <= values@.len(),
        n <= 24,
        forall|k: int| 0 <= k < n ==> counts@[k] == timing_sum(es, count_measure(daily, k)),
        forall|k: int| 0 <= k < n ==> values@[k] == timing_sum(es, duration_measure(daily, k)),
        forall|k: int| 0 <= k < n ==> counts@[k] == 0 ==> values@[k] == 0,
    ensures
        buckets_view(r@) == value_buckets(es, n as int, daily),
        bucket_total(buckets_view(r@)) == sum_first(values@, n as int),
{
    let mut out: Vec<(u32, u128)> = Vec::new();
    let mut h: usize = 0;
    assert(buckets_view(out@) =~= Seq::<(u32, int)>::empty());
    while h < n
        invariant
            h <= n,
            n <= counts@.len(),
            n <= values@.len(),
            n <= 24,
            forall|k: int| 0 <= k < n ==> counts@[k] == timing_sum(es, count_measure(daily, k)),
            forall|k: int| 0 <= k < n ==> values@[k] == timing_sum(es, duration_measure(daily, k)),
            forall|k: int| 0 <= k < n ==> counts@[k] == 0 ==> values@[k] == 0,
            buckets_view(out@) == value_buckets(es, h as int, daily),
            bucket_total(buckets_view(out@)) == sum_first(values@, h as int),
        decreases n - h,
    {
        if counts[h] > 0 {
            let ghost before = out@;
            out.push((h as u32, values[h]));
            assert(buckets_view(out@) =~= buckets_view(before).push((h as u32, values@[h as int] as int)));
            assert(buckets_view(out@).drop_last() =~= buckets_view(before));
        }
        h = h + 1;
    }
    out
}

/// The buckets below `n` whose count is above 0, in ascending order, with their counts.
fn present_counts(counts: &Vec<u64>, n: usize, Ghost(es): Ghost<Seq<LogEntry>>, daily: bool) -> (r: Vec<(u32, u64)>)
    requires
        n <= counts@.len(),
        n <= 24,
        forall|k: int| 0 <= k < n ==> counts@[k] == timing_sum(es, mention_measure(daily, k)),
    ensures
        counts_view(r@) == mention_buckets(es, n as int, daily),
{
    let mut out: Vec<(u32, u64)> = Vec::new();
    let mut h: usize = 0;
    assert(counts_view(out@) =~= Seq::<(u32, int)>::empty());
    while h < n
        invariant
            h <= n,
            n <= counts@.len(),
            n <= 24,
            forall|k: int| 0 <= k < n ==> counts@[k] == timing_sum(es, mention_measure(daily, k)),
            counts_view(out@) == mention_buckets(es, h as int, daily),
        decreases n - h,
    {
        if counts[h] > 0 {
            let ghost before = out@;
            out.push((h as u32, counts[h]));
            assert(counts_view(out@) =~= counts_view(before).push((h as u32, counts@[h as int] as int)));
        }
        h = h + 1;
    }
    out
}

proof fn lemma_value_buckets_len(es: Seq<LogEntry>, n: int, daily: bool)
    requires
        0 <= n,
    ensures
        value_buckets(es, n, daily).len() <= n,
    decreases n,
{
    if n > 0 {
        lemma_value_buckets_len(es, n - 1, daily);
    }
}

/// The hours of the buckets whose value is more than one and a half times
/// the average bucket's.
fn peak_hours_of(b: &Vec<(u32, u128)>, total: u128) -> (r: Vec<u32>)
    requires
        b@.len() <= 24,
        total == bucket_total(buckets_view(b@)),
    ensures
        r@ == peaks(buckets_view(b@), b@.len() as int),
{
    let ghost bv = buckets_view(b@);
    let n = b.len() as u128;
    let mut out: Vec<u32> = Vec::new();
    let mut k: usize = 0;
    while k < b.len()
        invariant
            bv == buckets_view(b@),
            n == b@.len(),
            n <= 24,
            total == bucket_total(bv),
            k <= b@.len(),
            out@ == peaks(bv, k as int),
        decreases b@.len() - k,
    {
        let v = b[k].1;
        let big = scaled_greater(v, 2 * n, total, 3);
        assert(bv[k as int].1 == v);
        assert(big == (bv[k as int].1 * 2 * bv.len() > 3 * bucket_total(bv))) by (nonlinear_arith)
            requires
                big == (v * (2 * n) > total * 3),
                bv[k as int].1 == v,
                bv.len() == n,
                total == bucket_total(bv),
        ;
        if big {
            out.push(b[k].0);
        }
        k = k + 1;
    }
    out
}

impl TimingAnalyzer {
    /// An analyzer with the default settings.
    pub fn new() -> (r: TimingAnalyzer)
        ensures
            r.config == TimingAnalyzerConfig::default_spec(),
    {
        TimingAnalyzer { config: TimingAnalyzerConfig::default() }
    }

    pub fn with_config(config: TimingAnalyzerConfig) -> (r: TimingAnalyzer)
        ensures
            r.config == config,
    {
        TimingAnalyzer { config }
    }

    /// An analyzer with the default settings but the bucket size.
    pub fn with_bucket_size(time_bucket_size: u32) -> (r: TimingAnalyzer)
        ensures
            r.config == (TimingAnalyzerConfig { time_bucket_size, ..TimingAnalyzerConfig::default_spec() }),
    {
        TimingAnalyzer {
            config: TimingAnalyzerConfig {
                time_bucket_size,
                include_connections: true,
                include_peak_analysis: true,
            },
        }
    }

    /// Timing patterns of the records that carry a duration: their count,
    /// total, average and nearest-rank percentiles, their durations summed by
    /// hour of day and by day of week, connection mentions by hour, and the
    /// peak hours.
    pub fn analyze_timing(&self, entries: &[LogEntry]) -> (r: Result<TimingAnalysis, PgLoggrepError>)
        ensures
            r is Ok,
            timing_of(entries@, self.config, r->Ok_0),
    {
        let ghost es = entries@;
        let mut count: u64 = 0;
        let mut total: u128 = 0;
        let mut hour_count = zeros_u64(24);
        let mut hour_dur = zeros_u128(24);
        let mut day_count = zeros_u64(7);
        let mut day_dur = zeros_u128(7);
        let mut conn = zeros_u64(24);
        let mut durations: Vec<u64> = Vec::new();
        let mut i: usize = 0;
        assert(es.take(0) =~= Seq::<LogEntry>::empty());
        proof {
            assert(sum_first(hour_dur@, 24) == 0) by {
                reveal_with_fuel(sum_first, 25);
            }
        }
        while i < entries.len()
            invariant
                es == entries@,
                i <= es.len(),
                count <= i,
                total <= count * 18446744073709551615,
                count == timing_sum(es.take(i as int), TimingMeasure::Timed),
                total == timing_sum(es.take(i as int), TimingMeasure::TimedDuration),
                durations@ == timed_durations(es.take(i as int)),
                hour_count@.len() == 24 && hour_dur@.len() == 24 && conn@.len() == 24,
                day_count@.len() == 7 && day_dur@.len() == 7,
                sum_first(hour_dur@, 24) == total,
                forall|x: int| 0 <= x < 24 ==> #[trigger] hour_count@[x] <= i
                    && hour_count@[x] == timing_sum(es.take(i as int), TimingMeasure::HourCount(x)),
                forall|x: int| 0 <= x < 24 ==> #[trigger] hour_dur@[x] <= hour_count@[x] * 18446744073709551615 && hour_dur@[x] == timing_sum(es.take(i as int), TimingMeasure::HourDuration(x)),
                forall|x: int| 0 <= x < 24 ==> #[trigger] conn@[x] <= i
                    && conn@[x] == timing_sum(es.take(i as int), TimingMeasure::HourConnections(x)),
                forall|x: int| 0 <= x < 7 ==> #[trigger] day_count@[x] <= i
                    && day_count@[x] == timing_sum(es.take(i as int), TimingMeasure::DayCount(x)),
                forall|x: int| 0 <= x < 7 ==> #[trigger] day_dur@[x] <= day_count@[x] * 18446744073709551615 && day_dur@[x] == timing_sum(es.take(i as int), TimingMeasure::DayDuration(x)),
            decreases es.len() - i,
        {
            let e = &entries[i];
            assert(es.take(i + 1).drop_last() =~= es.take(i as int));
            assert(es.take(i + 1).last() == *e);
            proof {
                lemma_timing_step(es, i as int, TimingMeasure::Timed);
                lemma_timing_step(es, i as int, TimingMeasure::TimedDuration);
                assert forall|x: int| timing_sum(es.take(i + 1), TimingMeasure::HourCount(x))
                    == timing_sum(es.take(i as int), TimingMeasure::HourCount(x))
                        + timing_measure(*e, TimingMeasure::HourCount(x)) by {
                    lemma_timing_step(es, i as int, TimingMeasure::HourCount(x));
                }
                assert forall|x: int| timing_sum(es.take(i + 1), TimingMeasure::HourDuration(x))
                    == timing_sum(es.take(i as int), TimingMeasure::HourDuration(x))
                        + timing_measure(*e, TimingMeasure::HourDuration(x)) by {
                    lemma_timing_step(es, i as int, TimingMeasure::HourDuration(x));
                }
                assert forall|x: int| timing_sum(es.take(i + 1), TimingMeasure::HourConnections(x))
                    == timing_sum(es.take(i as int), TimingMeasure::HourConnections(x))
                        + timing_measure(*e, TimingMeasure::HourConnections(x)) by {
                    lemma_timing_step(es, i as int, TimingMeasure::HourConnections(x));
                }
                assert forall|x: int| timing_sum(es.take(i + 1), TimingMeasure::DayCount(x))
                    == timing_sum(es.take(i as int), TimingMeasure::DayCount(x))
                        + timing_measure(*e, TimingMeasure::DayCount(x)) by {
                    lemma_timing_step(es, i as int, TimingMeasure::DayCount(x));
                }
                assert forall|x: int| timing_sum(es.take(i + 1), TimingMeasure::DayDuration(x))
                    == timing_sum(es.take(i as int), TimingMeasure::DayDuration(x))
                        + timing_measure(*e, TimingMeasure::DayDuration(x)) by {
                    lemma_timing_step(es, i as int, TimingMeasure::DayDuration(x));
                }
            }
            let h = e.timestamp.hour() as usize;
            let d = e.timestamp.weekday_from_monday() as usize;
            match e.duration_us {
                Some(x) => {
                    let ghost old_hd = hour_dur@;
                    count = count + 1;
                    total = total + x as u128;
                    let hc = hour_count[h];
                    hour_count.set(h, hc + 1);
                    let hd = hour_dur[h];
                    hour_dur.set(h, hd + x as u128);
                    proof {
                        lemma_sum_first_update(old_hd, 24, h as int, (hd + x) as u128);
                    }
                    let dc = day_count[d];
                    day_count.set(d, dc + 1);
                    let dd = day_dur[d];
                    day_dur.set(d, dd + x as u128);
                    durations.push(x);
                },
                None => {},
            }
            if mentions_connection(e.message.as_str()) {
                let c = conn[h];
                conn.set(h, c + 1);
            }
            i = i + 1;
        }
        assert(es.take(es.len() as int) =~= es);
        let hourly = present_buckets(&hour_count, &hour_dur, 24, Ghost(es), false);
        let daily = present_buckets(&day_count, &day_dur, 7, Ghost(es), true);
        let connections = if self.config.include_connections {
            present_counts(&conn, 24, Ghost(es), false)
        } else {
            let none: Vec<(u32, u64)> = Vec::new();
            assert(counts_view(none@) =~= Seq::<(u32, int)>::empty());
            none
        };
        proof {
            lemma_value_buckets_len(es, 24, false);
        }
        let peaks = if self.config.include_peak_analysis {
            peak_hours_of(&hourly, total)
        } else {
            Vec::new()
        };
        let ghost samples = durations@;
        sort_ascending(&mut durations);
        proof {
            vstd::seq_lib::to_multiset_len(durations@);
            vstd::seq_lib::to_multiset_len(samples);
        }
        let (p95, p99) = if durations.len() == 0 {
            (0, 0)
        } else {
            (percentile_of(&durations, 9500), percentile_of(&durations, 9900))
        };
        let average: u64 = if count == 0 {
            0
        } else {
            assert(total / count as u128 <= 18446744073709551615) by (nonlinear_arith)
                requires
                    total <= count * 18446744073709551615,
                    count > 0,
            {
            }
            (total / count as u128) as u64
        };
        Ok(
            TimingAnalysis {
                average_response_us: average,
                p95_response_us: p95,
                p99_response_us: p99,
                hourly_patterns: hourly,
                daily_patterns: daily,
                connection_patterns: connections,
                peak_hours: peaks,
                total_queries: count,
                total_duration_us: total,
            },
        )
    }
}

/// Whether `p` is a percentile in (0, 1], in hundredths of a percent.
pub open spec fn valid_percentile(p: u32) -> bool {
    0 < p <= 10000
}

impl TimingAnalyzer {
    /// The nearest-rank percentiles of the response times, each paired with
    /// its percentile (in hundredths of a percent, 1 to 10000). A percentile
    /// out of range is a configuration error, found before any time is read;
    /// no response times is an analytics error.
    pub fn calculate_percentiles(&self, response_times: &[u64], percentiles: &[u32]) -> (r: Result<
        Vec<(u32, u64)>,
        PgLoggrepError,
    >)
        ensures
            (exists|k: int| 0 <= k < percentiles@.len() && !valid_percentile(#[trigger] percentiles@[k]))
                ==> r matches Err(PgLoggrepError::Configuration { .. }),
            (forall|k: int| 0 <= k < percentiles@.len() ==> valid_percentile(#[trigger] percentiles@[k]))
                && response_times@.len() == 0 ==> r matches Err(PgLoggrepError::Analytics { .. }),
            (forall|k: int| 0 <= k < percentiles@.len() ==> valid_percentile(#[trigger] percentiles@[k]))
                && response_times@.len() > 0 ==> r is Ok && r->Ok_0@.len() == percentiles@.len()
                && exists|s: Seq<u64>|
                sorted_ascending(s) && s.to_multiset() == response_times@.to_multiset() && forall|k: int|
                    0 <= k < percentiles@.len() ==> #[trigger] r->Ok_0@[k]
                        == (percentiles@[k], s[rank_index(
                    response_times@.len() as int,
                    percentiles@[k] as int,
                )]),
    {
        let mut k: usize = 0;
        while k < percentiles.len()
            invariant
                k <= percentiles@.len(),
                forall|j: int| 0 <= j < k ==> valid_percentile(#[trigger] percentiles@[j]),
            decreases percentiles@.len() - k,
        {
            if percentiles[k] == 0 || percentiles[k] > 10000 {
                return Err(crate::config_error("Invalid percentile", Some("percentiles")));
            }
            k = k + 1;
        }
        if response_times.len() == 0 {
            return Err(crate::analytics_error("No response times provided", "calculate_percentiles"));
        }
        let mut sorted: Vec<u64> = Vec::new();
        let mut i: usize = 0;
        while i < response_times.len()
            invariant
                i <= response_times@.len(),
                sorted@ == response_times@.take(i as int),
            decreases response_times@.len() - i,
        {
            sorted.push(response_times[i]);
            i = i + 1;
            assert(sorted@ =~= response_times@.take(i as int));
        }
        assert(response_times@.take(response_times@.len() as int) =~= response_times@);
        let ghost samples = sorted@;
        sort_ascending(&mut sorted);
        proof {
            vstd::seq_lib::to_multiset_len(sorted@);
            vstd::seq_lib::to_multiset_len(samples);
        }
        let mut out: Vec<(u32, u64)> = Vec::new();
        let mut k: usize = 0;
        while k < percentiles.len()
            invariant
                k <= percentiles@.len(),
                sorted@.len() == response_times@.len(),
                sorted@.len() > 0,
                forall|j: int| 0 <= j < percentiles@.len()
                    ==> valid_percentile(#[trigger] percentiles@[j]),
                out@.len() == k,
                forall|j: int| 0 <= j < k ==> #[trigger] out@[j] == (percentiles@[j], sorted@[rank_index(
                    sorted@.len() as int,
                    percentiles@[j] as int,
                )]),
            decreases percentiles@.len() - k,
        {
            let p = percentiles[k];
            assert(valid_percentile(percentiles@[k as int]));
            out.push((p, percentile_of(&sorted, p as u64)));
            k = k + 1;
        }
        assert(sorted_ascending(sorted@) && sorted@.to_multiset() == response_times@.to_multiset());
        Ok(out)
    }
}

/// Connection mentions: their count, those in error records, and their
/// counts by hour of day and by day of week.
#[derive(Clone, Debug)]
pub struct ConnectionAnalysis {
    pub total_connections: u64,
    pub connection_errors: u64,
    pub hourly_connections: Vec<(u32, u64)>,
    pub daily_connections: Vec<(u32, u64)>,
}

impl TimingAnalyzer {
    /// Counts the records whose message mentions "connection", in any case:
    /// all of them, the error records among them, and by hour and by day.
    pub fn analyze_connection_patterns(&self, entries: &[LogEntry]) -> (r: Result<
        ConnectionAnalysis,
        PgLoggrepError,
    >)
        ensures
            r is Ok,
            r->Ok_0.total_connections == timing_sum(entries@, TimingMeasure::Mentions),
            r->Ok_0.connection_errors == timing_sum(entries@, TimingMeasure::MentionErrors),
            counts_view(r->Ok_0.hourly_connections@) == mention_buckets(entries@, 24, false),
            counts_view(r->Ok_0.daily_connections@) == mention_buckets(entries@, 7, true),
    {
        let ghost es = entries@;
        let mut total: u64 = 0;
        let mut errors: u64 = 0;
        let mut hours = zeros_u64(24);
        let mut days = zeros_u64(7);
        let mut i: usize = 0;
        assert(es.take(0) =~= Seq::<LogEntry>::empty());
        while i < entries.len()
            invariant
                es == entries@,
                i <= es.len(),
                total <= i && errors <= i,
                total == timing_sum(es.take(i as int), TimingMeasure::Mentions),
                errors == timing_sum(es.take(i as int), TimingMeasure::MentionErrors),
                hours@.len() == 24 && days@.len() == 7,
                forall|x: int| 0 <= x < 24 ==> #[trigger] hours@[x] <= i
                    && hours@[x] == timing_sum(es.take(i as int), mention_measure(false, x)),
                forall|x: int| 0 <= x < 7 ==> #[trigger] days@[x] <= i
                    && days@[x] == timing_sum(es.take(i as int), mention_measure(true, x)),
            decreases es.len() - i,
        {
            let e = &entries[i];
            assert(es.take(i + 1).drop_last() =~= es.take(i as int));
            assert(es.take(i + 1).last() == *e);
            proof {
                lemma_timing_step(es, i as int, TimingMeasure::Mentions);
                lemma_timing_step(es, i as int, TimingMeasure::MentionErrors);
                assert forall|x: int| timing_sum(es.take(i + 1), mention_measure(false, x))
                    == timing_sum(es.take(i as int), mention_measure(false, x))
                        + timing_measure(*e, mention_measure(false, x)) by {
                    lemma_timing_step(es, i as int, mention_measure(false, x));
                }
                assert forall|x: int| timing_sum(es.take(i + 1), mention_measure(true, x))
                    == timing_sum(es.take(i as int), mention_measure(true, x))
                        + timing_measure(*e, mention_measure(true, x)) by {
                    lemma_timing_step(es, i as int, mention_measure(true, x));
                }
            }
            if mentions_connection(e.message.as_str()) {
                let h = e.timestamp.hour() as usize;
                let d = e.timestamp.weekday_from_monday() as usize;
                total = total + 1;
                if e.is_error() {
                    errors = errors + 1;
                }
                let hc = hours[h];
                hours.set(h, hc + 1);
                let dc = days[d];
                days.set(d, dc + 1);
            }
            i = i + 1;
        }
        assert(es.take(es.len() as int) =~= es);
        Ok(
            ConnectionAnalysis {
                total_connections: total,
                connection_errors: errors,
                hourly_connections: present_counts(&hours, 24, Ghost(es), false),
                daily_connections: present_counts(&days, 7, Ghost(es), true),
            },
        )
    }
}

/// Least and greatest duration, and earliest and latest instant, of the
/// statement records in hour `h`; `None` where there are none.
pub open spec fn hour_extremes(es: Seq<LogEntry>, h: int) -> Option<(int, int, Timestamp, Timestamp)>
    decreases es.len(),
{
    if es.len() == 0 {
        None
    } else {
        let prev = hour_extremes(es.drop_last(), h);
        let e = es.last();
        if e.message_type is Statement && hour_of(e.timestamp.seconds as int) == h {
            let d = duration_or_zero(e);
            let t = e.timestamp;
            match prev {
                None => Some((d, d, t, t)),
                Some((lo, hi, first, last)) => Some(
                    (
                        if d < lo { d } else { lo },
                        if d > hi { d } else { hi },
                        if not_after(first, t) { first } else { t },
                        if not_after(t, last) { last } else { t },
                    ),
                ),
            }
        } else {
            prev
        }
    }
}

/// Query figures of one hour of the day. Durations are in whole microseconds.
#[derive(Clone, Copy, Debug, PartialEq, Eq, Structural)]
pub struct HourlyMetrics {
    pub hour: u32,
    pub query_count: u64,
    pub total_duration_us: u128,
    pub average_duration_us: u64,
    pub min_duration_us: u64,
    pub max_duration_us: u64,
    /// Whole seconds from the hour's first statement to its last, where it
    /// has two or more; the queries per second are the count over this span.
    pub span_seconds: u64,
}

/// Whether `m` holds the figures of hour `h` of the records `es`.
pub open spec fn hour_metrics_of(es: Seq<LogEntry>, h: int, m: HourlyMetrics) -> bool {
    let count = sum_measure(es, Measure::HourStatements(h));
    let total = sum_measure(es, Measure::HourDuration(h));
    let (lo, hi, first, last) = hour_extremes(es, h)->0;
    &&& m.hour == h
    &&& m.query_count == count
    &&& m.total_duration_us == total
    &&& m.average_duration_us == total / count
    &&& m.min_duration_us == lo
    &&& m.max_duration_us == hi
    &&& m.span_seconds == (if count >= 2 { whole_seconds_between(first, last) } else { 0 })
}

/// The hours below `n` that have statement records, in ascending order.
pub open spec fn busy_hours(es: Seq<LogEntry>, n: int) -> Seq<int>
    decreases n,
{
    if n <= 0 {
        Seq::empty()
    } else if sum_measure(es, Measure::HourStatements(n - 1)) > 0 {
        busy_hours(es, n - 1).push(n - 1)
    } else {
        busy_hours(es, n - 1)
    }
}

proof fn lemma_extremes_exist(es: Seq<LogEntry>, h: int)
    ensures
        sum_measure(es, Measure::HourStatements(h)) > 0 <==> hour_extremes(es, h) is Some,
        sum_measure(es, Measure::HourStatements(h)) >= 0,
        hour_extremes(es, h) matches Some((lo, hi, first, last)) ==> 0 <= lo <= hi
            && not_after(first, last),
    decreases es.len(),
{
    if es.len() > 0 {
        lemma_extremes_exist(es.drop_last(), h);
    }
}

impl TimingAnalyzer {
    /// The query figures of each hour of the day that has statement records,
    /// in ascending order of hour.
    pub fn analyze_hourly_distribution(&self, entries: &[LogEntry]) -> (r: Result<
        Vec<HourlyMetrics>,
        PgLoggrepError,
    >)
        ensures
            r is Ok,
            r->Ok_0@.len() == busy_hours(entries@, 24).len(),
            forall|k: int| 0 <= k < r->Ok_0@.len()
                ==> hour_metrics_of(entries@, busy_hours(entries@, 24)[k], #[trigger] r->Ok_0@[k]),
    {
        let ghost es = entries@;
        let mut counts = zeros_u64(24);
        let mut totals = zeros_u128(24);
        let mut ext: Vec<Option<(u64, u64, Timestamp, Timestamp)>> = Vec::new();
        while ext.len() < 24
            invariant
                ext@.len() <= 24,
                forall|x: int| 0 <= x < ext@.len() ==> ext@[x] is None,
            decreases 24 - ext@.len(),
        {
            ext.push(None);
        }
        let mut i: usize = 0;
        assert(es.take(0) =~= Seq::<LogEntry>::empty());
        while i < entries.len()
            invariant
                es == entries@,
                i <= es.len(),
                counts@.len() == 24 && totals@.len() == 24 && ext@.len() == 24,
                forall|x: int| 0 <= x < 24 ==> #[trigger] counts@[x] <= i
                    && counts@[x] == sum_measure(es.take(i as int), Measure::HourStatements(x)),
                forall|x: int| 0 <= x < 24 ==> #[trigger] totals@[x] <= counts@[x] * 18446744073709551615 && totals@[x] == sum_measure(es.take(i as int), Measure::HourDuration(x)),
                forall|x: int| 0 <= x < 24 ==> match (#[trigger] ext@[x], hour_extremes(es.take(i as int), x)) {
                    (Some((a, b, c, d)), Some((a2, b2, c2, d2))) => a == a2 && b == b2 && c == c2
                        && d == d2,
                    (None, None) => true,
                    _ => false,
                },
            decreases es.len() - i,
        {
            let e = &entries[i];
            assert(es.take(i + 1).drop_last() =~= es.take(i as int));
            assert(es.take(i + 1).last() == *e);
            proof {
                assert forall|x: int| sum_measure(es.take(i + 1), Measure::HourStatements(x))
                    == sum_measure(es.take(i as int), Measure::HourStatements(x))
                        + measure(*e, Measure::HourStatements(x)) by {
                    crate::analytics::queries::lemma_sum_step(es, i as int, Measure::HourStatements(x));
                }
                assert forall|x: int| sum_measure(es.take(i + 1), Measure::HourDuration(x))
                    == sum_measure(es.take(i as int), Measure::HourDuration(x))
                        + measure(*e, Measure::HourDuration(x)) by {
                    crate::analytics::queries::lemma_sum_step(es, i as int, Measure::HourDuration(x));
                }
            }
            if e.is_query() {
                let h = e.timestamp.hour() as usize;
                let d: u64 = match e.duration_us {
                    Some(x) => x,
                    None => 0,
                };
                let t = e.timestamp;
                let c = counts[h];
                counts.set(h, c + 1);
                let tt = totals[h];
                totals.set(h, tt + d as u128);
                let next = match ext[h] {
                    None => (d, d, t, t),
                    Some((lo, hi, first, last)) => (
                        if d < lo { d } else { lo },
                        if d > hi { d } else { hi },
                        if first.not_after(&t) { first } else { t },
                        if t.not_after(&last) { last } else { t },
                    ),
                };
                ext.set(h, Some(next));
            }
            i = i + 1;
        }
        assert(es.take(es.len() as int) =~= es);
        let mut out: Vec<HourlyMetrics> = Vec::new();
        let mut h: usize = 0;
        while h < 24
            invariant
                es == entries@,
                h <= 24,
                counts@.len() == 24 && totals@.len() == 24 && ext@.len() == 24,
                forall|x: int| 0 <= x < 24 ==> #[trigger] counts@[x]
                    == sum_measure(es, Measure::HourStatements(x)),
                forall|x: int| 0 <= x < 24 ==> #[trigger] totals@[x] <= counts@[x] * 18446744073709551615 && totals@[x] == sum_measure(es, Measure::HourDuration(x)),
                forall|x: int| 0 <= x < 24 ==> match (#[trigger] ext@[x], hour_extremes(es, x)) {
                    (Some((a, b, c, d)), Some((a2, b2, c2, d2))) => a == a2 && b == b2 && c == c2
                        && d == d2,
                    (None, None) => true,
                    _ => false,
                },
                out@.len() == busy_hours(es, h as int).len(),
                forall|k: int| 0 <= k < out@.len()
                    ==> hour_metrics_of(es, busy_hours(es, h as int)[k], #[trigger] out@[k]),
            decreases 24 - h,
        {
            proof {
                lemma_extremes_exist(es, h as int);
            }
            if counts[h] > 0 {
                let c = counts[h];
                let total = totals[h];
                assert(total / c as u128 <= 18446744073709551615) by (nonlinear_arith)
                    requires
                        total <= c * 18446744073709551615,
                        c > 0,
                {
                }
                let (lo, hi, first, last) = match ext[h] {
                    Some(x) => x,
                    None => (0, 0, Timestamp::new(0, 0), Timestamp::new(0, 0)),
                };
                let span = if c >= 2 {
                    first.whole_seconds_until(&last)
                } else {
                    0
                };
                let m = HourlyMetrics {
                    hour: h as u32,
                    query_count: c,
                    total_duration_us: total,
                    average_duration_us: (total / c as u128) as u64,
                    min_duration_us: lo,
                    max_duration_us: hi,
                    span_seconds: span,
                };
                let ghost before = out@;
                out.push(m);
                assert(busy_hours(es, h + 1) == busy_hours(es, h as int).push(h as int));
                assert forall|k: int| 0 <= k < out@.len() implies hour_metrics_of(es, busy_hours(es, h + 1)[k], #[trigger] out@[k]) by {
                    if k < before.len() {
                        assert(out@[k] == before[k]);
                    }
                }
            }
            h = h + 1;
        }
        Ok(out)
    }
}

/// Whether `hs` is the hourly distribution of the records `es`.
pub open spec fn hourly_list(es: Seq<LogEntry>, hs: Seq<HourlyMetrics>) -> bool {
    hs.len() == busy_hours(es, 24).len() && forall|k: int|
        0 <= k < hs.len() ==> hour_metrics_of(es, busy_hours(es, 24)[k], #[trigger] hs[k])
}

pub open spec fn max_count(hs: Seq<HourlyMetrics>, n: int) -> int
    decreases n,
{
    if n <= 0 {
        0
    } else if hs[n - 1].query_count > max_count(hs, n - 1) {
        hs[n - 1].query_count as int
    } else {
        max_count(hs, n - 1)
    }
}

pub open spec fn max_total(hs: Seq<HourlyMetrics>, n: int) -> int
    decreases n,
{
    if n <= 0 {
        0
    } else if hs[n - 1].total_duration_us > max_total(hs, n - 1) {
        hs[n - 1].total_duration_us as int
    } else {
        max_total(hs, n - 1)
    }
}

pub open spec fn count_sum(hs: Seq<HourlyMetrics>, n: int) -> int
    decreases n,
{
    if n <= 0 {
        0
    } else {
        count_sum(hs, n - 1) + hs[n - 1].query_count
    }
}

/// The hour with the most queries, the latest of those tied.
pub open spec fn busiest(hs: Seq<HourlyMetrics>, n: int) -> Option<u32>
    decreases n,
{
    if n <= 0 {
        None
    } else if hs[n - 1].query_count >= max_count(hs, n - 1) {
        Some(hs[n - 1].hour)
    } else {
        busiest(hs, n - 1)
    }
}

/// The hours with at least 80% of the most queries in an hour, or of the
/// greatest total duration in an hour.
pub open spec fn busy_peaks(hs: Seq<HourlyMetrics>, n: int, mq: int, mt: int) -> Seq<u32>
    decreases n,
{
    if n <= 0 {
        Seq::empty()
    } else if 5 * hs[n - 1].query_count >= 4 * mq || 5 * hs[n - 1].total_duration_us >= 4 * mt {
        busy_peaks(hs, n - 1, mq, mt).push(hs[n - 1].hour)
    } else {
        busy_peaks(hs, n - 1, mq, mt)
    }
}

/// Peak usage by hour of day. Durations are in whole microseconds.
#[derive(Clone, Debug)]
pub struct PeakUsageAnalysis {
    pub peak_hours: Vec<u32>,
    pub busiest_hour: Option<u32>,
    pub max_queries_per_hour: u64,
    pub max_duration_per_hour_us: u128,
    /// Queries per hour that has any, rounded down.
    pub average_queries_per_hour: u64,
}

/// Whether `r` is the peak usage of the hourly distribution `hs`.
pub open spec fn peak_usage_of(hs: Seq<HourlyMetrics>, r: PeakUsageAnalysis) -> bool {
    let n = hs.len() as int;
    if n == 0 {
        r.peak_hours@.len() == 0 && r.busiest_hour is None && r.max_queries_per_hour == 0
            && r.max_duration_per_hour_us == 0 && r.average_queries_per_hour == 0
    } else {
        &&& r.max_queries_per_hour == max_count(hs, n)
        &&& r.max_duration_per_hour_us == max_total(hs, n)
        &&& r.busiest_hour == busiest(hs, n)
        &&& r.peak_hours@ == busy_peaks(hs, n, max_count(hs, n), max_total(hs, n))
        &&& r.average_queries_per_hour == count_sum(hs, n) / n
    }
}

impl TimingAnalyzer {
    /// Peak usage by hour of day, from the hourly distribution.
    pub fn get_peak_usage_analysis(&self, entries: &[LogEntry]) -> (r: Result<
        PeakUsageAnalysis,
        PgLoggrepError,
    >)
        ensures
            r is Ok,
            exists|hs: Seq<HourlyMetrics>| hourly_list(entries@, hs) && peak_usage_of(hs, r->Ok_0),
    {
        let hours = match self.analyze_hourly_distribution(entries) {
            Ok(h) => h,
            Err(e) => {
                return Err(e);
            },
        };
        let ghost hs = hours@;
        assert(hourly_list(entries@, hs));
        let n = hours.len();
        proof {
            lemma_busy_hours_len(entries@, 24);
        }
        if n == 0 {
            let r = PeakUsageAnalysis {
                peak_hours: Vec::new(),
                busiest_hour: None,
                max_queries_per_hour: 0,
                max_duration_per_hour_us: 0,
                average_queries_per_hour: 0,
            };
            assert(peak_usage_of(hs, r));
            return Ok(r);
        }
        let mut mq: u64 = 0;
        let mut mt: u128 = 0;
        let mut sum: u128 = 0;
        let mut best: Option<u32> = None;
        let mut k: usize = 0;
        while k < n
            invariant
                hs == hours@,
                n == hs.len(),
                n <= 24,
                k <= n,
                mq == max_count(hs, k as int),
                mt == max_total(hs, k as int),
                sum == count_sum(hs, k as int),
                sum <= k * 18446744073709551615,
                best == busiest(hs, k as int),
            decreases n - k,
        {
            let m = hours[k];
            if m.query_count >= mq {
                best = Some(m.hour);
            }
            if m.query_count > mq {
                mq = m.query_count;
            }
            if m.total_duration_us > mt {
                mt = m.total_duration_us;
            }
            sum = sum + m.query_count as u128;
            k = k + 1;
        }
        let mut peaks: Vec<u32> = Vec::new();
        let mut k: usize = 0;
        while k < n
            invariant
                hs == hours@,
                n == hs.len(),
                k <= n,
                mq == max_count(hs, n as int),
                mt == max_total(hs, n as int),
                peaks@ == busy_peaks(hs, k as int, mq as int, mt as int),
            decreases n - k,
        {
            let m = hours[k];
            let by_count = 5 * (m.query_count as u128) >= 4 * (mq as u128);
            let by_total = !scaled_greater(mt, 4, m.total_duration_us, 5);
            if by_count || by_total {
                peaks.push(m.hour);
            }
            k = k + 1;
        }
        let r = PeakUsageAnalysis {
            peak_hours: peaks,
            busiest_hour: best,
            max_queries_per_hour: mq,
            max_duration_per_hour_us: mt,
            average_queries_per_hour: (sum / n as u128) as u64,
        };
        assert(sum / (n as u128) <= 18446744073709551615) by (nonlinear_arith)
            requires
                sum <= n * 18446744073709551615,
                n > 0,
        {
        }
        assert(peak_usage_of(hs, r));
        Ok(r)
    }
}

pub proof fn lemma_no_busy_hours(n: int)
    ensures
        busy_hours(Seq::empty(), n).len() == 0,
    decreases n,
{
    if n > 0 {
        lemma_no_busy_hours(n - 1);
    }
}

proof fn lemma_busy_hours_len(es: Seq<LogEntry>, n: int)
    requires
        0 <= n,
    ensures
        busy_hours(es, n).len() <= n,
    decreases n,
{
    if n > 0 {
        lemma_busy_hours_len(es, n - 1);
    }
}

impl Default for TimingAnalyzer {
    fn default() -> (r: TimingAnalyzer)
        ensures
            r.config == TimingAnalyzerConfig::default_spec(),
    {
        TimingAnalyzer::new()
    }
}

impl Default for PeakUsageAnalysis {
    /// No peak hours, no busiest hour and every figure 0.
    fn default() -> (r: PeakUsageAnalysis)
        ensures
            r.peak_hours@.len() == 0 && r.busiest_hour is None && r.max_queries_per_hour == 0,
            r.max_duration_per_hour_us == 0 && r.average_queries_per_hour == 0,
    {
        PeakUsageAnalysis {
            peak_hours: Vec::new(),
            busiest_hour: None,
            max_queries_per_hour: 0,
            max_duration_per_hour_us: 0,
            average_queries_per_hour: 0,
        }
    }
}

impl Default for TimingAnalysis {
    /// The timing analysis of no records.
    fn default() -> (r: TimingAnalysis)
        ensures
            r.average_response_us == 0 && r.p95_response_us == 0 && r.p99_response_us == 0,
            r.hourly_patterns@.len() == 0 && r.daily_patterns@.len() == 0,
            r.connection_patterns@.len() == 0 && r.peak_hours@.len() == 0,
            r.total_queries == 0 && r.total_duration_us == 0,
    {
        TimingAnalysis {
            average_response_us: 0,
            p95_response_us: 0,
            p99_response_us: 0,
            hourly_patterns: Vec::new(),
            daily_patterns: Vec::new(),
            connection_patterns: Vec::new(),
            peak_hours: Vec::new(),
            total_queries: 0,
            total_duration_us: 0,
        }
    }
}

} // verus!
