use chrono::{DateTime, Duration, TimeZone, Timelike, Utc};
use pg_logstats::analytics::queries::{classify_upper, mentions_connection_in_lowered, QueryAnalyzer, QueryMetrics};
use pg_logstats::analytics::timing::TimingAnalyzer;
use pg_logstats::sql::{Query, QueryType};
use pg_logstats::{AnalysisResult, LogEntry, LogLevel, PgLoggrepError, Timestamp};
use std::collections::HashMap;

fn ts(dt: DateTime<Utc>) -> Timestamp {
    Timestamp::new(dt.timestamp(), dt.timestamp_subsec_nanos())
}

fn us(ms: f64) -> u64 {
    (ms * 1000.0).round() as u64
}

fn ms(us: u64) -> f64 {
    us as f64 / 1000.0
}

fn total_ms(r: &AnalysisResult) -> f64 {
    r.total_duration_us as f64 / 1000.0
}

fn average_ms(r: &AnalysisResult) -> f64 {
    if r.total_queries == 0 {
        0.0
    } else {
        total_ms(r) / r.total_queries as f64
    }
}

fn rate(r: (u64, u64)) -> f64 {
    if r.1 == 0 {
        0.0
    } else {
        r.0 as f64 / r.1 as f64
    }
}

fn create_test_entry(
    timestamp: DateTime<Utc>,
    message_type: LogLevel,
    query: Option<String>,
    duration: Option<f64>,
    process_id: Option<&str>,
    user: Option<&str>,
    database: Option<&str>,
) -> LogEntry {
    LogEntry {
        timestamp: ts(timestamp),
        process_id: process_id.unwrap_or("12345").to_string(),
        user: user.map(|u| u.to_string()),
        database: database.map(|d| d.to_string()),
        client_host: None,
        application_name: Some("psql".to_string()),
        message_type,
        message: query
            .as_ref()
            .map_or("test message".to_string(), |q| format!("statement: {}", q)),
        queries: Query::from_sql(query.as_deref().unwrap_or("")).ok(),
        duration_us: duration.map(us),
    }
}

fn simple_entry(timestamp: DateTime<Utc>, message_type: LogLevel, query: Option<String>, duration: Option<f64>) -> LogEntry {
    LogEntry {
        timestamp: ts(timestamp),
        process_id: "12345".to_string(),
        user: Some("test_user".to_string()),
        database: Some("testdb".to_string()),
        client_host: None,
        application_name: Some("psql".to_string()),
        message_type,
        message: query.as_ref().map_or("test message".to_string(), |q| format!("statement: {}", q)),
        queries: query.as_deref().map(|q| Query::from_sql(q).unwrap()),
        duration_us: duration.map(us),
    }
}

fn timing_entry(timestamp: DateTime<Utc>, message_type: LogLevel, duration: Option<f64>, message: &str) -> LogEntry {
    LogEntry {
        timestamp: ts(timestamp),
        process_id: "12345".to_string(),
        user: Some("test_user".to_string()),
        database: Some("testdb".to_string()),
        client_host: None,
        application_name: Some("psql".to_string()),
        message_type,
        message: message.to_string(),
        queries: None,
        duration_us: duration.map(us),
    }
}

fn create_diverse_test_entries() -> Vec<LogEntry> {
    let base_time = Utc.with_ymd_and_hms(2024, 8, 15, 10, 30, 0).unwrap();
    let s = |n: i64| base_time + chrono::Duration::seconds(n);
    vec![
        create_test_entry(s(0), LogLevel::Statement, Some("SELECT * FROM users WHERE active = true".to_string()), Some(50.0), Some("12345"), Some("postgres"), Some("testdb")),
        create_test_entry(s(1), LogLevel::Statement, Some("SELECT COUNT(*) FROM orders".to_string()), Some(25.0), Some("12346"), Some("admin"), Some("analytics")),
        create_test_entry(s(2), LogLevel::Statement, Some("SELECT u.name, u.email FROM users u JOIN profiles p ON u.id = p.user_id".to_string()), Some(150.0), Some("12347"), Some("postgres"), Some("testdb")),
        create_test_entry(s(3), LogLevel::Statement, Some("INSERT INTO users (name, email) VALUES ('John', 'john@example.com')".to_string()), Some(10.0), Some("12348"), Some("app_user"), Some("app_db")),
        create_test_entry(s(4), LogLevel::Statement, Some("INSERT INTO orders (user_id, total) VALUES (1, 99.99)".to_string()), Some(15.0), Some("12349"), Some("app_user"), Some("app_db")),
        create_test_entry(s(5), LogLevel::Statement, Some("UPDATE users SET last_login = NOW() WHERE id = 1".to_string()), Some(30.0), Some("12350"), Some("postgres"), Some("testdb")),
        create_test_entry(s(6), LogLevel::Statement, Some("DELETE FROM sessions WHERE expires_at < NOW()".to_string()), Some(75.0), Some("12351"), Some("cleanup_job"), Some("testdb")),
        create_test_entry(s(7), LogLevel::Statement, Some("CREATE INDEX idx_users_email ON users(email)".to_string()), Some(2000.0), Some("12352"), Some("admin"), Some("testdb")),
        create_test_entry(s(8), LogLevel::Statement, Some("DROP TABLE temp_data".to_string()), Some(100.0), Some("12353"), Some("admin"), Some("testdb")),
        create_test_entry(s(9), LogLevel::Statement, Some("BEGIN".to_string()), Some(1.0), Some("12354"), Some("postgres"), Some("testdb")),
        create_test_entry(s(10), LogLevel::Statement, Some("COMMIT".to_string()), Some(2.0), Some("12354"), Some("postgres"), Some("testdb")),
        create_test_entry(s(11), LogLevel::Error, None, None, Some("12355"), Some("postgres"), Some("testdb")),
        create_test_entry(s(12), LogLevel::Error, None, None, Some("12356"), Some("app_user"), Some("app_db")),
        create_test_entry(s(13), LogLevel::Log, None, None, Some("12357"), Some("postgres"), Some("testdb")),
        create_test_entry(s(14), LogLevel::Statement, Some("SELECT * FROM users WHERE active = true".to_string()), Some(45.0), Some("12358"), Some("postgres"), Some("testdb")),
        create_test_entry(s(15), LogLevel::Statement, Some("SELECT * FROM users WHERE active = true".to_string()), Some(55.0), Some("12359"), Some("postgres"), Some("testdb")),
    ]
}

#[test]
fn test_query_analyzer_new() {
    let analyzer = QueryAnalyzer::new();
    assert_eq!(ms(analyzer.slow_query_threshold_us()), 1000.0);
    assert_eq!(analyzer.max_slow_queries(), 10);
    assert_eq!(analyzer.max_frequent_queries(), 20);
}

#[test]
fn test_query_analyzer_with_settings() {
    let analyzer = QueryAnalyzer::with_settings(us(500.0), 5, 15);
    assert_eq!(ms(analyzer.slow_query_threshold_us()), 500.0);
    assert_eq!(analyzer.max_slow_queries(), 5);
    assert_eq!(analyzer.max_frequent_queries(), 15);
}

#[test]
fn test_classify_query_select() {
    let analyzer = QueryAnalyzer::new();
    for query in [
        "SELECT * FROM users",
        "select id, name from products",
        "  SELECT COUNT(*) FROM orders  ",
        "SELECT u.name FROM users u JOIN profiles p ON u.id = p.user_id",
    ] {
        assert_eq!(analyzer.classify_query(query), QueryType::Select);
    }
}

#[test]
fn test_classify_query_insert() {
    let analyzer = QueryAnalyzer::new();
    for query in [
        "INSERT INTO users (name) VALUES ('John')",
        "insert into products values (1, 'Product')",
        "  INSERT INTO orders SELECT * FROM temp_orders  ",
    ] {
        assert_eq!(analyzer.classify_query(query), QueryType::Insert);
    }
}

#[test]
fn test_classify_query_update() {
    let analyzer = QueryAnalyzer::new();
    for query in [
        "UPDATE users SET name = 'Jane'",
        "update products set price = 99.99",
        "  UPDATE orders SET status = 'completed' WHERE id = 1  ",
    ] {
        assert_eq!(analyzer.classify_query(query), QueryType::Update);
    }
}

#[test]
fn test_classify_query_delete() {
    let analyzer = QueryAnalyzer::new();
    for query in [
        "DELETE FROM users WHERE id = 1",
        "delete from temp_data",
        "  DELETE FROM sessions WHERE expires_at < NOW()  ",
    ] {
        assert_eq!(analyzer.classify_query(query), QueryType::Delete);
    }
}

#[test]
fn test_classify_query_ddl() {
    let analyzer = QueryAnalyzer::new();
    for query in [
        "CREATE TABLE users (id INT)",
        "DROP TABLE temp_data",
        "ALTER TABLE users ADD COLUMN email VARCHAR(255)",
        "TRUNCATE TABLE logs",
        "GRANT SELECT ON users TO readonly_user",
        "REVOKE INSERT ON products FROM app_user",
        "create index idx_users_email on users(email)",
    ] {
        assert_eq!(analyzer.classify_query(query), QueryType::DDL);
    }
}

#[test]
fn test_classify_query_other() {
    let analyzer = QueryAnalyzer::new();
    for query in [
        "BEGIN",
        "COMMIT",
        "ROLLBACK",
        "EXPLAIN SELECT * FROM users",
        "ANALYZE TABLE users",
        "VACUUM users",
    ] {
        assert_eq!(analyzer.classify_query(query), QueryType::Other);
    }
}

#[test]
fn test_normalize_query_parameters() {
    let analyzer = QueryAnalyzer::new();
    for (input, expected) in [
        ("SELECT * FROM users WHERE id = $1", "SELECT * FROM users WHERE id = ?"),
        ("UPDATE users SET name = $1, email = $2 WHERE id = $3", "UPDATE users SET name = ?, email = ? WHERE id = ?"),
        ("INSERT INTO users VALUES ($1, $2, $3)", "INSERT INTO users VALUES (?, ?, ?)"),
    ] {
        assert_eq!(analyzer.normalize_query(input), expected);
    }
}

#[test]
fn test_normalize_query_numeric_literals() {
    let analyzer = QueryAnalyzer::new();
    for (input, expected) in [
        ("SELECT * FROM users WHERE age > 25", "SELECT * FROM users WHERE age > ?"),
        ("UPDATE products SET price = 99.99", "UPDATE products SET price = ?"),
        ("SELECT * FROM orders WHERE total BETWEEN 10.5 AND 100", "SELECT * FROM orders WHERE total BETWEEN ? AND ?"),
    ] {
        assert_eq!(analyzer.normalize_query(input), expected);
    }
}

#[test]
fn test_normalize_query_string_literals() {
    let analyzer = QueryAnalyzer::new();
    for (input, expected) in [
        ("SELECT * FROM users WHERE name = 'John'", "SELECT * FROM users WHERE name = ?"),
        ("INSERT INTO users VALUES ('John', 'john@example.com')", "INSERT INTO users VALUES (?, ?)"),
        ("UPDATE users SET status = 'active' WHERE name LIKE '%admin%'", "UPDATE users SET status = ? WHERE name LIKE ?"),
    ] {
        assert_eq!(analyzer.normalize_query(input), expected);
    }
}

#[test]
fn test_normalize_query_whitespace() {
    let analyzer = QueryAnalyzer::new();
    for (input, expected) in [
        ("SELECT   *   FROM    users", "SELECT * FROM users"),
        ("  UPDATE  users  SET  name='John'  ", "UPDATE users SET name=?"),
        ("SELECT\n*\nFROM\nusers\nWHERE\nid=1", "SELECT * FROM users WHERE id=?"),
    ] {
        assert_eq!(analyzer.normalize_query(input), expected);
    }
}

#[test]
fn test_normalize_query_complex() {
    let analyzer = QueryAnalyzer::new();
    let input = "SELECT u.name, u.email FROM users u WHERE u.age > 25 AND u.status = 'active' AND u.id = $1";
    let expected = "SELECT u.name, u.email FROM users u WHERE u.age > ? AND u.status = ? AND u.id = ?";
    assert_eq!(analyzer.normalize_query(input), expected);
}

#[test]
fn analytics_tests_test_analyze_empty_entries() {
    let analyzer = QueryAnalyzer::new();
    let result = analyzer.analyze(&[]).unwrap();
    assert_eq!(result.total_queries, 0);
    assert_eq!(total_ms(&result), 0.0);
    assert_eq!(average_ms(&result), 0.0);
    assert_eq!(result.error_count, 0);
    assert_eq!(result.connection_count, 0);
    assert!(result.slowest_queries.is_empty());
    assert!(result.most_frequent_queries.is_empty());
    assert!(result.query_types.is_empty());
}

#[test]
fn test_analyze_single_query() {
    let analyzer = QueryAnalyzer::new();
    let entries = vec![create_test_entry(Utc::now(), LogLevel::Statement, Some("SELECT * FROM users".to_string()), Some(100.0), None, None, None)];
    let result = analyzer.analyze(&entries).unwrap();
    assert_eq!(result.total_queries, 1);
    assert_eq!(total_ms(&result), 100.0);
    assert_eq!(average_ms(&result), 100.0);
    assert_eq!(result.error_count, 0);
    assert_eq!(result.connection_count, 0);
    assert_eq!(result.query_types.get("SELECT"), Some(&1));
    assert_eq!(result.most_frequent_queries.len(), 1);
    assert_eq!(result.most_frequent_queries[0].0, "SELECT * FROM users");
    assert_eq!(result.most_frequent_queries[0].1, 1);
}

#[test]
fn test_analyze_diverse_entries() {
    let analyzer = QueryAnalyzer::new();
    let entries = create_diverse_test_entries();
    let result = analyzer.analyze(&entries).unwrap();
    assert_eq!(result.total_queries, 13);
    let expected_total = 50.0 + 25.0 + 150.0 + 10.0 + 15.0 + 30.0 + 75.0 + 2000.0 + 100.0 + 1.0 + 2.0 + 45.0 + 55.0;
    assert_eq!(total_ms(&result), expected_total);
    assert_eq!(average_ms(&result), expected_total / 13.0);
    assert_eq!(result.error_count, 2);
    assert_eq!(result.query_types.get("SELECT"), Some(&5));
    assert_eq!(result.query_types.get("INSERT"), Some(&2));
    assert_eq!(result.query_types.get("UPDATE"), Some(&1));
    assert_eq!(result.query_types.get("DELETE"), Some(&1));
    assert_eq!(result.query_types.get("DDL"), Some(&2));
    assert_eq!(result.query_types.get("OTHER"), Some(&2));
}

#[test]
fn test_analyze_slow_queries() {
    let analyzer = QueryAnalyzer::with_settings(us(100.0), 5, 10);
    let entries = create_diverse_test_entries();
    let result = analyzer.analyze(&entries).unwrap();
    assert!(!result.slowest_queries.is_empty());
    let mut prev_duration = f64::INFINITY;
    for (_, duration) in &result.slowest_queries {
        assert!(ms(*duration) <= prev_duration);
        assert!(ms(*duration) > 100.0);
        prev_duration = ms(*duration);
    }
    assert!(result
        .slowest_queries
        .iter()
        .any(|(query, duration)| query.contains("CREATE INDEX") && ms(*duration) == 2000.0));
}

#[test]
fn test_analyze_frequent_queries() {
    let analyzer = QueryAnalyzer::new();
    let entries = create_diverse_test_entries();
    let result = analyzer.analyze(&entries).unwrap();
    assert!(!result.most_frequent_queries.is_empty());
    let mut prev_count = u64::MAX;
    for (_, count) in &result.most_frequent_queries {
        assert!(*count <= prev_count);
        prev_count = *count;
    }
    let most_frequent = &result.most_frequent_queries[0];
    assert_eq!(most_frequent.1, 3);
    assert!(most_frequent.0.contains("SELECT * FROM users WHERE active = ?"));
}

#[test]
fn test_calculate_metrics() {
    let analyzer = QueryAnalyzer::new();
    let durations: Vec<u64> = [10.0, 20.0, 30.0, 40.0, 50.0, 100.0, 200.0, 500.0, 1000.0, 2000.0].iter().map(|d| us(*d)).collect();
    let metrics = analyzer.calculate_metrics(&durations);
    assert_eq!(metrics.total_queries, 10);
    assert_eq!(metrics.total_duration_us as f64 / 1000.0, 3950.0);
    assert_eq!(ms(metrics.average_duration_us), 395.0);
    assert_eq!(ms(metrics.min_duration_us), 10.0);
    assert_eq!(ms(metrics.max_duration_us), 2000.0);
    assert!(ms(metrics.p95_duration_us) >= 1000.0);
    assert!(ms(metrics.p99_duration_us) >= 1000.0);
}

#[test]
fn test_calculate_metrics_empty() {
    let analyzer = QueryAnalyzer::new();
    let durations: Vec<u64> = vec![];
    let metrics = analyzer.calculate_metrics(&durations);
    assert_eq!(metrics.total_queries, 0);
    assert_eq!(metrics.total_duration_us as f64, 0.0);
    assert_eq!(ms(metrics.average_duration_us), 0.0);
    assert_eq!(ms(metrics.min_duration_us), 0.0);
    assert_eq!(ms(metrics.max_duration_us), 0.0);
    assert_eq!(ms(metrics.p95_duration_us), 0.0);
    assert_eq!(ms(metrics.p99_duration_us), 0.0);
}

#[test]
fn test_find_slow_queries() {
    let analyzer = QueryAnalyzer::new();
    let entries = create_diverse_test_entries();
    let slow_queries = analyzer.find_slow_queries(&entries, us(100.0)).unwrap();
    assert!(!slow_queries.is_empty());
    for entry in slow_queries {
        assert!(ms(entry.duration_us.unwrap_or(0)) > 100.0);
        assert!(entry.is_query());
    }
}

#[test]
fn test_get_query_type_distribution() {
    let analyzer = QueryAnalyzer::new();
    let entries = create_diverse_test_entries();
    let distribution = analyzer.get_query_type_distribution(&entries);
    assert_eq!(distribution.of_type(&QueryType::Select), Some(&5));
    assert_eq!(distribution.of_type(&QueryType::Insert), Some(&2));
    assert_eq!(distribution.of_type(&QueryType::Update), Some(&1));
    assert_eq!(distribution.of_type(&QueryType::Delete), Some(&1));
    assert_eq!(distribution.of_type(&QueryType::DDL), Some(&2));
    assert_eq!(distribution.of_type(&QueryType::Other), Some(&2));
}

#[test]
fn test_calculate_error_rate() {
    let analyzer = QueryAnalyzer::new();
    let entries = create_diverse_test_entries();
    let error_rate = rate(analyzer.calculate_error_rate(&entries));
    assert_eq!(error_rate, 2.0 / 16.0);
}

#[test]
fn test_calculate_error_rate_no_entries() {
    let analyzer = QueryAnalyzer::new();
    let entries = vec![];
    let error_rate = rate(analyzer.calculate_error_rate(&entries));
    assert_eq!(error_rate, 0.0);
}

#[test]
fn test_calculate_error_rate_no_errors() {
    let analyzer = QueryAnalyzer::new();
    let entries = vec![create_test_entry(Utc::now(), LogLevel::Statement, Some("SELECT * FROM users".to_string()), Some(100.0), None, None, None)];
    let error_rate = rate(analyzer.calculate_error_rate(&entries));
    assert_eq!(error_rate, 0.0);
}

#[test]
fn test_hourly_statistics() {
    let analyzer = QueryAnalyzer::new();
    let base_time = Utc.with_ymd_and_hms(2024, 8, 15, 10, 0, 0).unwrap();
    let entries = vec![
        create_test_entry(base_time, LogLevel::Statement, Some("SELECT * FROM users".to_string()), Some(100.0), None, None, None),
        create_test_entry(base_time + chrono::Duration::hours(1), LogLevel::Statement, Some("SELECT * FROM orders".to_string()), Some(200.0), None, None, None),
        create_test_entry(base_time + chrono::Duration::hours(1) + chrono::Duration::minutes(30), LogLevel::Statement, Some("INSERT INTO logs VALUES (1)".to_string()), Some(50.0), None, None, None),
    ];
    let result = analyzer.analyze(&entries).unwrap();
    assert_eq!(result.total_queries, 3);
    assert_eq!(total_ms(&result), 350.0);
}

#[test]
fn analysis_holds_hourly_buckets() {
    let base_time = Utc.with_ymd_and_hms(2024, 8, 15, 10, 0, 0).unwrap();
    let entries = vec![
        create_test_entry(base_time, LogLevel::Statement, Some("SELECT * FROM users".to_string()), Some(100.0), None, None, None),
        create_test_entry(base_time + Duration::hours(1), LogLevel::Statement, Some("SELECT * FROM orders".to_string()), Some(200.0), None, None, None),
        create_test_entry(base_time + Duration::hours(1) + Duration::minutes(30), LogLevel::Statement, Some("INSERT INTO logs VALUES (1)".to_string()), Some(50.0), None, None, None),
    ];
    let result = QueryAnalyzer::new().analyze(&entries).unwrap();
    assert_eq!(result.hourly_buckets.len(), 2);
    assert_eq!((result.hourly_buckets[0].hour, result.hourly_buckets[0].query_count), (10, 1));
    assert_eq!((result.hourly_buckets[1].hour, result.hourly_buckets[1].query_count), (11, 2));
    assert_eq!(result.hourly_buckets[1].total_duration_us, 250_000);
    assert_eq!(result.hourly_buckets[1].span_seconds, 1800);
    let qps = result.hourly_buckets[1].query_count as f64 / result.hourly_buckets[1].span_seconds as f64;
    assert!(qps > 0.0);
}

#[test]
fn test_performance_with_large_dataset() {
    let analyzer = QueryAnalyzer::new();
    let mut entries = Vec::new();
    let base_time = Utc::now();
    for i in 0..1000 {
        entries.push(create_test_entry(
            base_time + chrono::Duration::seconds(i),
            LogLevel::Statement,
            Some(format!("SELECT * FROM table_{}", i % 10)),
            Some((i % 100) as f64),
            Some(&format!("{}", 12345 + i)),
            Some("postgres"),
            Some("testdb"),
        ));
    }
    let start = std::time::Instant::now();
    let result = analyzer.analyze(&entries);
    let duration = start.elapsed();
    assert!(result.is_ok());
    let analysis = result.unwrap();
    assert_eq!(analysis.total_queries, 1000);
    assert!(duration.as_millis() < 1000, "Analysis took too long: {:?}", duration);
}

#[test]
fn test_memory_usage_with_many_unique_queries() {
    let analyzer = QueryAnalyzer::new();
    let mut entries = Vec::new();
    let base_time = Utc::now();
    for i in 0..100 {
        entries.push(create_test_entry(
            base_time + chrono::Duration::seconds(i),
            LogLevel::Statement,
            Some(format!("SELECT * FROM users WHERE id = {}", i)),
            Some(10.0),
            Some(&format!("{}", 12345 + i)),
            Some("postgres"),
            Some("testdb"),
        ));
    }
    let result = analyzer.analyze(&entries).unwrap();
    assert_eq!(result.total_queries, 100);
    assert_eq!(result.most_frequent_queries.len(), 1);
}

#[test]
fn test_query_type_display() {
    assert_eq!(QueryType::Select.to_string(), "SELECT");
    assert_eq!(QueryType::Insert.to_string(), "INSERT");
    assert_eq!(QueryType::Update.to_string(), "UPDATE");
    assert_eq!(QueryType::Delete.to_string(), "DELETE");
    assert_eq!(QueryType::DDL.to_string(), "DDL");
    assert_eq!(QueryType::Other.to_string(), "OTHER");
}

#[test]
fn test_query_type_equality() {
    assert_eq!(QueryType::Select, QueryType::Select);
    assert_ne!(QueryType::Select, QueryType::Insert);
}

#[test]
fn test_query_type_hash() {
    let mut map = HashMap::new();
    map.insert(QueryType::Select, 10);
    map.insert(QueryType::Insert, 5);
    assert_eq!(map.get(&QueryType::Select), Some(&10));
    assert_eq!(map.get(&QueryType::Insert), Some(&5));
    assert_eq!(map.get(&QueryType::Update), None);
}

#[test]
fn test_query_metrics_default() {
    let metrics = QueryMetrics::default();
    assert_eq!(ms(metrics.min_duration_us), 0.0);
    assert_eq!(ms(metrics.max_duration_us), 0.0);
    assert_eq!(ms(metrics.average_duration_us), 0.0);
    assert_eq!(ms(metrics.p95_duration_us), 0.0);
    assert_eq!(ms(metrics.p99_duration_us), 0.0);
    assert_eq!(metrics.total_queries, 0);
    assert_eq!(metrics.total_duration_us as f64, 0.0);
}

#[test]
fn property_analysis_order_independent() {
    let analyzer = QueryAnalyzer::new();
    let mut entries = create_diverse_test_entries();
    let result1 = analyzer.analyze(&entries).unwrap();
    entries.reverse();
    let result2 = analyzer.analyze(&entries).unwrap();
    assert_eq!(result1.total_queries, result2.total_queries);
    assert_eq!(total_ms(&result1), total_ms(&result2));
    assert_eq!(average_ms(&result1), average_ms(&result2));
    assert_eq!(result1.error_count, result2.error_count);
    assert_eq!(result1.query_types, result2.query_types);
}

#[test]
fn property_normalization_reduces_uniqueness() {
    let analyzer = QueryAnalyzer::new();
    let similar_queries = vec![
        "SELECT * FROM users WHERE id = 1",
        "SELECT * FROM users WHERE id = 2",
        "SELECT * FROM users WHERE id = 999",
        "SELECT * FROM users WHERE id = $1",
        "SELECT * FROM users WHERE id = $2",
    ];
    let mut unique_raw = std::collections::HashSet::new();
    let mut unique_normalized = std::collections::HashSet::new();
    for query in similar_queries {
        unique_raw.insert(query.to_string());
        unique_normalized.insert(analyzer.normalize_query(query));
    }
    assert!(unique_normalized.len() < unique_raw.len());
    assert_eq!(unique_normalized.len(), 1);
    assert!(unique_normalized.contains("SELECT * FROM users WHERE id = ?"));
}

#[test]
fn queries_test_normalize_query() {
    let analyzer = QueryAnalyzer::new();
    assert_eq!(analyzer.normalize_query("SELECT * FROM users WHERE id = $1 AND name = $2"), "SELECT * FROM users WHERE id = ? AND name = ?");
    assert_eq!(analyzer.normalize_query("SELECT * FROM users WHERE age > 25 AND score < 100.5"), "SELECT * FROM users WHERE age > ? AND score < ?");
    assert_eq!(analyzer.normalize_query("SELECT * FROM users WHERE name = 'John' AND city = 'New York'"), "SELECT * FROM users WHERE name = ? AND city = ?");
    assert_eq!(analyzer.normalize_query("SELECT   *   FROM    users   WHERE   id=1"), "SELECT * FROM users WHERE id=?");
}

#[test]
fn test_classify_query() {
    let analyzer = QueryAnalyzer::new();
    assert_eq!(analyzer.classify_query("SELECT * FROM users"), QueryType::Select);
    assert_eq!(analyzer.classify_query("INSERT INTO users VALUES (1, 'John')"), QueryType::Insert);
    assert_eq!(analyzer.classify_query("UPDATE users SET name = 'Jane'"), QueryType::Update);
    assert_eq!(analyzer.classify_query("DELETE FROM users WHERE id = 1"), QueryType::Delete);
    assert_eq!(analyzer.classify_query("CREATE TABLE users (id INT)"), QueryType::DDL);
    assert_eq!(analyzer.classify_query("DROP TABLE users"), QueryType::DDL);
    assert_eq!(analyzer.classify_query("BEGIN"), QueryType::Other);
    assert_eq!(analyzer.classify_query("COMMIT"), QueryType::Other);
}

#[test]
fn queries_test_analyze_empty_entries() {
    let analyzer = QueryAnalyzer::new();
    let result = analyzer.analyze(&[]).unwrap();
    assert_eq!(result.total_queries, 0);
    assert_eq!(total_ms(&result), 0.0);
    assert_eq!(result.error_count, 0);
    assert_eq!(result.connection_count, 0);
}

#[test]
fn test_analyze_with_queries() {
    let analyzer = QueryAnalyzer::new();
    let now = Utc::now();
    let entries = vec![
        simple_entry(now, LogLevel::Statement, Some("SELECT * FROM users".to_string()), Some(100.0)),
        simple_entry(now, LogLevel::Statement, Some("SELECT * FROM users".to_string()), Some(200.0)),
        simple_entry(now, LogLevel::Statement, Some("INSERT INTO users VALUES (1)".to_string()), Some(50.0)),
        simple_entry(now, LogLevel::Error, None, None),
    ];
    let result = analyzer.analyze(&entries).unwrap();
    assert_eq!(result.total_queries, 3);
    assert_eq!(total_ms(&result), 350.0);
    assert_eq!(average_ms(&result), 116.66666666666667);
    assert_eq!(result.error_count, 1);
    assert_eq!(result.connection_count, 0);
    assert_eq!(result.query_types.get("SELECT"), Some(&2));
    assert_eq!(result.query_types.get("INSERT"), Some(&1));
}

#[test]
fn test_slow_queries() {
    let analyzer = QueryAnalyzer::with_settings(us(100.0), 5, 5);
    let now = Utc::now();
    let entries = vec![
        simple_entry(now, LogLevel::Statement, Some("SELECT * FROM users".to_string()), Some(50.0)),
        simple_entry(now, LogLevel::Statement, Some("SELECT * FROM posts".to_string()), Some(150.0)),
        simple_entry(now, LogLevel::Statement, Some("SELECT * FROM comments".to_string()), Some(250.0)),
    ];
    let result = analyzer.analyze(&entries).unwrap();
    assert_eq!(result.slowest_queries.len(), 2);
    assert_eq!(ms(result.slowest_queries[0].1), 250.0);
    assert_eq!(ms(result.slowest_queries[1].1), 150.0);
}

#[test]
fn test_error_rate_calculation() {
    let analyzer = QueryAnalyzer::new();
    let now = Utc::now();
    let entries = vec![
        simple_entry(now, LogLevel::Statement, Some("SELECT * FROM users".to_string()), Some(100.0)),
        simple_entry(now, LogLevel::Error, None, None),
        simple_entry(now, LogLevel::Statement, Some("SELECT * FROM posts".to_string()), Some(200.0)),
        simple_entry(now, LogLevel::Error, None, None),
    ];
    let error_rate = rate(analyzer.calculate_error_rate(&entries));
    assert_eq!(error_rate, 0.5);
}

#[test]
fn test_query_type_distribution() {
    let analyzer = QueryAnalyzer::new();
    let now = Utc::now();
    let entries = vec![
        simple_entry(now, LogLevel::Statement, Some("SELECT * FROM users".to_string()), Some(100.0)),
        simple_entry(now, LogLevel::Statement, Some("SELECT * FROM posts".to_string()), Some(200.0)),
        simple_entry(now, LogLevel::Statement, Some("INSERT INTO users VALUES (1)".to_string()), Some(50.0)),
        simple_entry(now, LogLevel::Statement, Some("UPDATE users SET name = 'John'".to_string()), Some(75.0)),
    ];
    let distribution = analyzer.get_query_type_distribution(&entries);
    assert_eq!(distribution.of_type(&QueryType::Select), Some(&2));
    assert_eq!(distribution.of_type(&QueryType::Insert), Some(&1));
    assert_eq!(distribution.of_type(&QueryType::Update), Some(&1));
    assert_eq!(distribution.of_type(&QueryType::Delete), None);
}

#[test]
fn test_analyze_timing_empty_entries() {
    let analyzer = TimingAnalyzer::new();
    let result = analyzer.analyze_timing(&[]).unwrap();
    assert_eq!(result.total_queries, 0);
    assert_eq!(result.total_duration_us as f64, 0.0);
    assert!(result.hourly_patterns.is_empty());
}

#[test]
fn test_analyze_timing_with_entries() {
    let analyzer = TimingAnalyzer::new();
    let now = Utc::now();
    let entries = vec![
        timing_entry(now, LogLevel::Statement, Some(100.0), "statement: SELECT 1"),
        timing_entry(now, LogLevel::Statement, Some(200.0), "statement: SELECT 2"),
        timing_entry(now, LogLevel::Statement, Some(300.0), "statement: SELECT 3"),
    ];
    let result = analyzer.analyze_timing(&entries).unwrap();
    assert_eq!(result.total_queries, 3);
    assert_eq!(result.total_duration_us as f64 / 1000.0, 600.0);
    assert_eq!(result.average_response_us / 1000, 200);
}

#[test]
fn test_calculate_percentiles() {
    let analyzer = TimingAnalyzer::new();
    let response_times: Vec<u64> = [10.0, 20.0, 30.0, 40.0, 50.0, 60.0, 70.0, 80.0, 90.0, 100.0].iter().map(|d| us(*d)).collect();
    let percentiles: Vec<u32> = [0.5, 0.95, 0.99].iter().map(|p: &f64| (p * 10000.0).round() as u32).collect();
    let result = analyzer.calculate_percentiles(&response_times, &percentiles).unwrap();
    let result: Vec<(f64, f64)> = result.iter().map(|(p, v)| (*p as f64 / 10000.0, ms(*v))).collect();
    assert_eq!(result.len(), 3);
    assert_eq!(result[0], (0.5, 60.0));
    assert_eq!(result[1], (0.95, 100.0));
    assert_eq!(result[2], (0.99, 100.0));
}

#[test]
fn test_invalid_percentile() {
    let analyzer = TimingAnalyzer::new();
    let response_times: Vec<u64> = [10.0, 20.0, 30.0].iter().map(|d| us(*d)).collect();
    let percentiles: Vec<u32> = [1.5].iter().map(|p: &f64| (p * 10000.0).round() as u32).collect();
    let result = analyzer.calculate_percentiles(&response_times, &percentiles);
    assert!(result.is_err());
}

#[test]
fn percentile_errors_are_told_apart() {
    let analyzer = TimingAnalyzer::new();
    assert!(matches!(analyzer.calculate_percentiles(&[], &[5000]), Err(PgLoggrepError::Analytics { .. })));
    assert!(matches!(analyzer.calculate_percentiles(&[1], &[0]), Err(PgLoggrepError::Configuration { .. })));
}

#[test]
fn zero_threshold_is_a_configuration_error() {
    let analyzer = QueryAnalyzer::with_settings(0, 5, 5);
    assert!(matches!(analyzer.analyze(&[]), Err(PgLoggrepError::Configuration { .. })));
}

#[test]
fn unparsable_sql_is_a_parse_error() {
    assert!(matches!(Query::from_sql("SELEC nothing FROM"), Err(PgLoggrepError::Parse { .. })));
}

#[test]
fn percentiles_of_ten_samples() {
    let analyzer = QueryAnalyzer::new();
    let base = Utc.with_ymd_and_hms(2024, 8, 15, 10, 0, 0).unwrap();
    let entries: Vec<LogEntry> = (1..=10)
        .map(|k| simple_entry(base, LogLevel::Statement, Some("SELECT 1".to_string()), Some(10.0 * k as f64)))
        .collect();
    let r = analyzer.analyze(&entries).unwrap();
    assert_eq!(ms(r.p95_duration_us), 100.0);
    assert_eq!(ms(r.p99_duration_us), 100.0);
    let metrics = analyzer.calculate_metrics(&entries.iter().map(|e| e.duration_us.unwrap()).collect::<Vec<_>>());
    assert_eq!(ms(metrics.p95_duration_us), 100.0);
    let p50 = TimingAnalyzer::new().calculate_percentiles(&entries.iter().map(|e| e.duration_us.unwrap()).collect::<Vec<_>>(), &[5000]).unwrap();
    assert_eq!(ms(p50[0].1), 60.0);
}

#[test]
fn slowest_are_capped_and_ordered() {
    let analyzer = QueryAnalyzer::with_settings(us(100.0), 10, 10);
    let now = Utc::now();
    let entries = vec![
        simple_entry(now, LogLevel::Statement, Some("SELECT * FROM a".to_string()), Some(50.0)),
        simple_entry(now, LogLevel::Statement, Some("SELECT * FROM b".to_string()), Some(250.0)),
        simple_entry(now, LogLevel::Statement, Some("SELECT * FROM c".to_string()), Some(150.0)),
    ];
    let r = analyzer.analyze(&entries).unwrap();
    assert_eq!(r.slowest_queries, vec![("SELECT * FROM b".to_string(), 250_000), ("SELECT * FROM c".to_string(), 150_000)]);
    let capped = QueryAnalyzer::with_settings(us(100.0), 1, 10).analyze(&entries).unwrap();
    assert_eq!(capped.slowest_queries, vec![("SELECT * FROM b".to_string(), 250_000)]);
}

#[test]
fn ties_keep_encounter_order() {
    let analyzer = QueryAnalyzer::with_settings(1, 10, 10);
    let now = Utc::now();
    let entries = vec![
        simple_entry(now, LogLevel::Statement, Some("SELECT * FROM x".to_string()), Some(5.0)),
        simple_entry(now, LogLevel::Statement, Some("SELECT * FROM y".to_string()), Some(5.0)),
        simple_entry(now, LogLevel::Statement, Some("SELECT * FROM y".to_string()), Some(9.0)),
        simple_entry(now, LogLevel::Statement, Some("SELECT * FROM z".to_string()), Some(5.0)),
    ];
    let r = analyzer.analyze(&entries).unwrap();
    let order: Vec<&str> = r.slowest_queries.iter().map(|(q, _)| q.as_str()).collect();
    assert_eq!(order, vec!["SELECT * FROM y", "SELECT * FROM x", "SELECT * FROM y", "SELECT * FROM z"]);
    let freq: Vec<(&str, u64)> = r.most_frequent_queries.iter().map(|(q, c)| (q.as_str(), *c)).collect();
    assert_eq!(freq, vec![("SELECT * FROM y", 2), ("SELECT * FROM x", 1), ("SELECT * FROM z", 1)]);
}

#[test]
fn empty_analysis_has_zero_percentiles() {
    let r = QueryAnalyzer::new().analyze(&[]).unwrap();
    assert_eq!(r.p95_duration_us, 0);
    assert_eq!(r.p99_duration_us, 0);
    assert_eq!(r.average_duration_us, 0);
}

#[test]
fn connections_are_counted_in_any_case() {
    let now = Utc::now();
    let entries = vec![
        timing_entry(now, LogLevel::Log, None, "Connection received"),
        timing_entry(now, LogLevel::Error, None, "CONNECTION failed"),
        timing_entry(now, LogLevel::Log, None, "checkpoint"),
    ];
    let r = QueryAnalyzer::new().analyze(&entries).unwrap();
    assert_eq!(r.connection_count, 2);
    assert_eq!(r.error_count, 1);
}

#[test]
fn timing_buckets_by_hour_and_day() {
    let base = Utc.with_ymd_and_hms(2024, 8, 15, 10, 0, 0).unwrap();
    let entries = vec![
        timing_entry(base, LogLevel::Duration, Some(100.0), "duration: 100 ms"),
        timing_entry(base + chrono::Duration::hours(1), LogLevel::Duration, Some(10.0), "duration: 10 ms"),
        timing_entry(base + chrono::Duration::hours(1), LogLevel::Log, None, "connection authorized"),
        timing_entry(base + chrono::Duration::days(1), LogLevel::Duration, Some(5.0), "duration: 5 ms"),
    ];
    let r = TimingAnalyzer::new().analyze_timing(&entries).unwrap();
    assert_eq!(r.total_queries, 3);
    assert_eq!(r.hourly_patterns, vec![(10, 105_000), (11, 10_000)]);
    assert_eq!(r.daily_patterns, vec![(3, 110_000), (4, 5_000)]);
    assert_eq!(r.connection_patterns, vec![(11, 1)]);
    assert_eq!(r.peak_hours, vec![10]);
}

#[test]
fn analysis_result_accumulates() {
    let mut r = AnalysisResult::new();
    r.add_query("select 1", 300);
    r.add_query("INSERT INTO t VALUES (1)", 100);
    r.add_error();
    r.add_connection();
    assert_eq!(r.total_queries, 2);
    assert_eq!(r.total_duration_us, 400);
    assert_eq!(r.average_duration_us, 200);
    assert_eq!(r.query_types.get("SELECT"), Some(&1));
    assert_eq!(r.error_count, 1);
    assert_eq!(r.connection_count, 1);
    r.calculate_percentiles(&[30, 10, 20]);
    assert_eq!(r.p95_duration_us, 30);
}

#[test]
fn test_analyze_connection_patterns() {
    let analyzer = TimingAnalyzer::new();
    let now = Utc::now();
    let entries = vec![
        timing_entry(now, LogLevel::Log, None, "connection received"),
        timing_entry(now, LogLevel::Log, None, "connection established"),
        timing_entry(now, LogLevel::Error, None, "connection failed"),
    ];
    let result = analyzer.analyze_connection_patterns(&entries).unwrap();
    assert_eq!(result.total_connections, 3);
    assert_eq!(result.connection_errors, 1);
    let error_rate = result.connection_errors as f64 / result.total_connections as f64;
    assert_eq!(error_rate, 1.0 / 3.0);
}

#[test]
fn test_peak_usage_analysis() {
    let analyzer = TimingAnalyzer::new();
    let now = Utc::now();
    let mut entries = Vec::new();
    for i in 0..5 {
        let timestamp = (now + Duration::hours(10)).with_nanosecond(i * 1_000_000).unwrap();
        entries.push(timing_entry(timestamp, LogLevel::Statement, Some(100.0), "statement: SELECT 1"));
    }
    for i in 0..10 {
        let timestamp = (now + Duration::hours(11)).with_nanosecond(i * 1_000_000).unwrap();
        entries.push(timing_entry(timestamp, LogLevel::Statement, Some(100.0), "statement: SELECT 1"));
    }
    for i in 0..3 {
        let timestamp = (now + Duration::hours(10)).with_nanosecond(i * 1_000_000).unwrap();
        entries.push(timing_entry(timestamp, LogLevel::Statement, Some(100.0), "statement: SELECT 1"));
    }
    let result = analyzer.get_peak_usage_analysis(&entries).unwrap();
    assert_eq!(result.max_queries_per_hour, 10);
    assert!(result.busiest_hour.is_some());
    assert!(result.peak_hours.len() > 0);
}

#[test]
fn hourly_distribution_figures() {
    let base = Utc.with_ymd_and_hms(2024, 8, 15, 10, 0, 0).unwrap();
    let entries = vec![
        timing_entry(base, LogLevel::Statement, Some(30.0), "statement: SELECT 1"),
        timing_entry(base + chrono::Duration::seconds(90), LogLevel::Statement, Some(10.0), "statement: SELECT 1"),
        timing_entry(base + chrono::Duration::hours(2), LogLevel::Statement, None, "statement: SELECT 1"),
        timing_entry(base, LogLevel::Duration, Some(500.0), "duration: 500 ms"),
    ];
    let hours = TimingAnalyzer::new().analyze_hourly_distribution(&entries).unwrap();
    assert_eq!(hours.len(), 2);
    assert_eq!((hours[0].hour, hours[0].query_count, hours[0].total_duration_us), (10, 2, 40_000));
    assert_eq!((hours[0].min_duration_us, hours[0].max_duration_us, hours[0].average_duration_us), (10_000, 30_000, 20_000));
    assert_eq!(hours[0].span_seconds, 90);
    assert_eq!((hours[1].hour, hours[1].query_count, hours[1].span_seconds), (12, 1, 0));
    let peak = TimingAnalyzer::new().get_peak_usage_analysis(&entries).unwrap();
    assert_eq!(peak.busiest_hour, Some(10));
    assert_eq!(peak.max_queries_per_hour, 2);
    assert_eq!(peak.peak_hours, vec![10]);
    assert_eq!(peak.average_queries_per_hour, 1);
}

#[test]
fn every_literal_becomes_one_placeholder() {
    let a = QueryAnalyzer::new();
    let x = a.normalize_query("SELECT * FROM users WHERE age > 25 AND name = 'John'");
    assert_eq!(x, "SELECT * FROM users WHERE age > ? AND name = ?");
    assert_eq!(x, a.normalize_query("SELECT * FROM users WHERE age > $1 AND name = $2"));
}

#[test]
fn classification_and_mentions_on_mapped_text() {
    assert_eq!(classify_upper("TRUNCATE T"), QueryType::DDL);
    assert_eq!(classify_upper("select 1"), QueryType::Other);
    assert!(mentions_connection_in_lowered("a connection b"));
    assert!(!mentions_connection_in_lowered("CONNECTION"));
}
