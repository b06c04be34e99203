use foundry_db::config::{DatabaseConfig, ObservabilityConfig};
use foundry_db::observability::SlowQueryEntry;
use foundry_db::sql_log::{
    rank_slowest_first, sql_observability_snapshot, NPlusOneLog, SlowQueryLog, SqlQueryTrace,
    SqlQueryTraceConfig,
};

fn trace_for(database: Option<DatabaseConfig>, observability: Option<ObservabilityConfig>, path: &str, request_id: &str) -> SqlQueryTrace {
    SqlQueryTrace::new(SqlQueryTraceConfig::from_configs(
        database,
        observability,
        "GET".to_string(),
        path.to_string(),
        Some(request_id.to_string()),
        None,
        None,
    ))
}

#[test]
fn slow_query_retention_redacts_sql_by_default() {
    let mut log = SlowQueryLog::new();
    log.record_query(
        "SELECT * FROM users WHERE token = 'secret-token'",
        900,
        Some("secret.lookup"),
        100,
        true,
        None,
        None,
        "2024-01-01T00:00:00Z".to_string(),
    );

    let queries = log.recent();
    assert_eq!(queries.len(), 1);
    assert!(!queries[0].sql.contains("secret-token"));
    assert_eq!(queries[0].sql, "SELECT * FROM users WHERE token = ?");
}

#[test]
fn sql_observability_snapshot_summarizes_and_ranks_slow_queries() {
    let mut log = SlowQueryLog::new();
    let suspects = NPlusOneLog::new();

    log.record_query("SELECT slow", 750, Some("slow"), 100, true, None, None, "2024-01-01T00:00:00Z".to_string());
    log.record_query("SELECT slower", 1_200, None, 100, true, None, None, "2024-01-01T00:00:01Z".to_string());

    let snapshot = sql_observability_snapshot(&log, &suspects, 500, 100);
    assert_eq!(snapshot.stats.retained_count, 2);
    assert_eq!(snapshot.stats.capacity, 100);
    assert_eq!(snapshot.stats.slow_query_threshold_ms, 500);
    assert_eq!(snapshot.stats.max_duration_ms, Some(1_200));
    assert_eq!(snapshot.stats.avg_duration_ms, Some(975));
    assert!(snapshot.stats.latest_recorded_at.is_some());
    assert_eq!(snapshot.top_slowest[0].sql, "SELECT slower");
    assert_eq!(snapshot.top_slowest[1].sql, "SELECT slow");
}

#[test]
fn sql_observability_snapshot_respects_slow_query_retention() {
    let mut log = SlowQueryLog::new();
    let suspects = NPlusOneLog::new();

    log.record_query("SELECT first", 100, None, 10, true, None, None, "2024-01-01T00:00:00Z".to_string());
    log.record_query("SELECT second", 200, None, 10, true, None, None, "2024-01-01T00:00:01Z".to_string());

    let snapshot = sql_observability_snapshot(&log, &suspects, 500, 1);
    assert_eq!(snapshot.stats.retained_count, 1);
    assert_eq!(snapshot.stats.capacity, 1);
    assert_eq!(snapshot.slow_queries[0].sql, "SELECT second");

    let disabled = sql_observability_snapshot(&log, &suspects, 500, 0);
    assert_eq!(disabled.stats.retained_count, 0);
    assert!(disabled.slow_queries.is_empty());
}

#[test]
fn slow_query_log_keeps_the_newest_entries_within_retention() {
    let mut log = SlowQueryLog::new();
    for (i, sql) in ["SELECT 1", "SELECT 2", "SELECT 3"].iter().enumerate() {
        log.record_query(sql, 10 + i as u64, None, 2, false, None, None, format!("t{i}"));
    }
    let kept = log.recent();
    assert_eq!(kept.len(), 2);
    assert_eq!(kept[0].sql, "SELECT 2");
    assert_eq!(kept[1].sql, "SELECT 3");
    assert_eq!(log.recent_with_retention(1)[0].sql, "SELECT 3");

    log.record_query("SELECT 4", 1, None, 0, false, None, None, "t4".to_string());
    assert_eq!(log.recent().len(), 2);
}

#[test]
fn snapshot_ranks_equally_slow_queries_latest_first() {
    let mut log = SlowQueryLog::new();
    log.record_query("SELECT a", 300, None, 10, false, None, None, "2024-01-01T00:00:00Z".to_string());
    log.record_query("SELECT b", 300, None, 10, false, None, None, "2024-01-01T00:00:05Z".to_string());
    log.record_query("SELECT c", 100, None, 10, false, None, None, "2024-01-01T00:00:09Z".to_string());
    let snapshot = sql_observability_snapshot(&log, &NPlusOneLog::new(), 50, 10);
    let order: Vec<&str> = snapshot.top_slowest.iter().map(|e| e.sql.as_str()).collect();
    assert_eq!(order, vec!["SELECT b", "SELECT a", "SELECT c"]);
    assert_eq!(snapshot.stats.latest_recorded_at.as_deref(), Some("2024-01-01T00:00:09Z"));
    assert_eq!(snapshot.stats.avg_duration_ms, Some(233));
}

#[test]
fn n_plus_one_trace_reports_statements_repeated_to_the_threshold() {
    let config = DatabaseConfig {
        n_plus_one_min_repeats: 3,
        n_plus_one_retention: 5,
        ..DatabaseConfig::default()
    };
    let mut trace = trace_for(Some(config), None, "/users", "req-n-plus-one");
    for i in 0..3 {
        assert!(trace.has_room_for("SELECT * FROM users WHERE email = 'secret@example.com'", 12, 1));
        trace.record(
            "SELECT * FROM users WHERE email = 'secret@example.com'",
            12,
            Some("user.lookup"),
            "query",
            1,
            format!("2024-01-01T00:00:0{i}Z"),
        );
    }
    let mut log = NPlusOneLog::new();
    log.record_suspects(trace.finish(), 5);

    let suspects = log.recent();
    assert_eq!(suspects.len(), 1);
    let suspect = &suspects[0];
    assert_eq!(suspect.method, "GET");
    assert_eq!(suspect.path, "/users");
    assert_eq!(suspect.request_id.as_deref(), Some("req-n-plus-one"));
    assert_eq!(suspect.repeat_count, 3);
    assert_eq!(suspect.total_duration_ms, 36);
    assert_eq!(suspect.max_duration_ms, 12);
    assert_eq!(suspect.avg_duration_ms, 12);
    assert_eq!(suspect.rows_total, 3);
    assert_eq!(suspect.labels, vec!["user.lookup"]);
    assert_eq!(suspect.kinds, vec!["query"]);
    assert_eq!(suspect.fingerprint, "select * from users where email = ?");
    assert_eq!(suspect.sample_sql, "SELECT * FROM users WHERE email = ?");
    assert_eq!(suspect.first_recorded_at, "2024-01-01T00:00:00Z");
    assert_eq!(suspect.latest_recorded_at, "2024-01-01T00:00:02Z");

    assert!(trace.finish().is_empty());
}

#[test]
fn n_plus_one_trace_respects_the_capture_switch_and_threshold() {
    let database = DatabaseConfig {
        n_plus_one_min_repeats: 2,
        n_plus_one_retention: 5,
        ..DatabaseConfig::default()
    };
    let observability = ObservabilityConfig { capture_enabled: false };
    let mut off = trace_for(Some(database.clone()), Some(observability), "/users", "req-off");
    for _ in 0..2 {
        off.record("SELECT * FROM users WHERE id = $1", 12, Some("user.lookup"), "query", 1, "t".to_string());
    }
    assert!(off.finish().is_empty());

    let below = DatabaseConfig { n_plus_one_min_repeats: 4, ..database };
    let mut trace = trace_for(Some(below), None, "/users", "req-below");
    for _ in 0..3 {
        trace.record("SELECT * FROM users WHERE id = $1", 12, None, "query", 1, "t".to_string());
    }
    assert!(trace.finish().is_empty());

    let mut without_database = trace_for(None, None, "/users", "req-none");
    without_database.record("SELECT 1", 1, None, "query", 1, "t".to_string());
    assert!(without_database.finish().is_empty());
}

#[test]
fn n_plus_one_suspects_rank_most_repeated_first_and_merge_labels() {
    let config = DatabaseConfig {
        n_plus_one_min_repeats: 2,
        n_plus_one_retention: 5,
        ..DatabaseConfig::default()
    };
    let mut trace = trace_for(Some(config), None, "/reports", "req-rank");
    for label in [Some("b"), Some("a"), Some("  "), None] {
        trace.record("SELECT * FROM orders WHERE id = $1", 5, label, "query", 2, "t".to_string());
    }
    for _ in 0..2 {
        trace.record("SELECT * FROM users WHERE id = 7", 40, None, "stream", 0, "t".to_string());
    }
    let suspects = trace.finish();
    assert_eq!(suspects.len(), 2);
    assert_eq!(suspects[0].fingerprint, "select * from orders where id = ?");
    assert_eq!(suspects[0].repeat_count, 4);
    assert_eq!(suspects[0].labels, vec!["a", "b"]);
    assert_eq!(suspects[1].fingerprint, "select * from users where id = ?");
    assert_eq!(suspects[1].kinds, vec!["stream"]);
    assert_eq!(suspects[1].avg_duration_ms, 40);
}

#[test]
fn n_plus_one_log_keeps_the_newest_suspects() {
    let config = DatabaseConfig {
        n_plus_one_min_repeats: 1,
        n_plus_one_retention: 2,
        ..DatabaseConfig::default()
    };
    let mut log = NPlusOneLog::new();
    for path in ["/a", "/b", "/c"] {
        let mut trace = trace_for(Some(config.clone()), None, path, "req");
        trace.record("SELECT 1", 1, None, "query", 1, "t".to_string());
        log.record_suspects(trace.finish(), 2);
    }
    let kept = log.recent();
    assert_eq!(kept.len(), 2);
    assert_eq!(kept[0].path, "/b");
    assert_eq!(kept[1].path, "/c");
}

fn entry(sql: &str, duration_ms: u64, recorded_at: &str) -> SlowQueryEntry {
    SlowQueryEntry {
        sql: sql.to_string(),
        duration_ms,
        label: None,
        request_id: None,
        trace_id: None,
        recorded_at: recorded_at.to_string(),
    }
}

#[test]
fn ranking_is_slowest_then_latest_and_keeps_ties_in_order() {
    let ranked = rank_slowest_first(vec![
        entry("first tie", 50, "2026-01-01T00:00:01Z"),
        entry("fast", 10, "2026-01-01T00:00:09Z"),
        entry("slow", 90, "2026-01-01T00:00:00Z"),
        entry("second tie", 50, "2026-01-01T00:00:01Z"),
        entry("later", 50, "2026-01-01T00:00:05Z"),
    ]);
    let order: Vec<&str> = ranked.iter().map(|e| e.sql.as_str()).collect();
    assert_eq!(order, vec!["slow", "later", "first tie", "second tie", "fast"]);
}
