use std::time::Duration;

use foundry_db::config::{DatabaseConfig, ObservabilityConfig};
use foundry_db::observability::{
    format_query_context, label_suffix, normalize_type_name, redact_sql_literals,
    sql_fingerprint, sql_for_observability, unsupported_type_error, QueryExecutionOptions,
    SqlLogConfig, TypeAdapters, database_stream_panic_error, is_statement_timeout,
    operation_error, outer_timeout_error, timeout_millis,
};
use foundry_db::ast::DbType;

#[test]
fn normalize_type_name_maps_array_aliases_to_internal_lookup_keys() {
    assert_eq!(normalize_type_name("_text"), "_text");
    assert_eq!(normalize_type_name("text[]"), "_text");
    assert_eq!(normalize_type_name("TEXT[]"), "_text");
    assert_eq!(normalize_type_name("\"TEXT\"[]"), "_text");
    assert_eq!(normalize_type_name("char[]"), "_char");
    assert_eq!(normalize_type_name("CHAR[]"), "_char");
    assert_eq!(normalize_type_name("\"CHAR\"[]"), "_char");
}

#[test]
fn normalize_type_name_trims_the_element_type() {
    assert_eq!(normalize_type_name("  Numeric  "), "numeric");
    assert_eq!(normalize_type_name("timestamp with time zone []"), "_timestamp with time zone");
}

#[test]
fn sql_fingerprint_normalizes_bindings_literals_and_whitespace() {
    assert_eq!(
        sql_fingerprint(
            r#"SELECT  * FROM "users" WHERE id = $1 AND email = 'USER@example.com' LIMIT 10"#
        ),
        r#"select * from "users" where id = ? and email = ? limit ?"#
    );
    assert_eq!(
        sql_fingerprint("select * from api_v2_users where token = ? and score > 42.5"),
        "select * from api_v2_users where token = ? and score > ?"
    );
}

#[test]
fn sql_fingerprint_handles_escaped_quotes_and_edges() {
    assert_eq!(sql_fingerprint("  x = 'it''s'  "), "x = ?");
    assert_eq!(sql_fingerprint("\n\tSELECT\n1"), "select ?");
    assert_eq!(sql_fingerprint(""), "");
}

#[test]
fn sql_observability_redacts_literals_and_comments() {
    let sql = "SELECT * FROM users WHERE email = 'secret@example.com' AND score > 42 -- api token\n/* password */ AND note = E'quoted'";

    let redacted = redact_sql_literals(sql);

    assert!(!redacted.contains("secret@example.com"));
    assert!(!redacted.contains("api token"));
    assert!(!redacted.contains("password"));
    assert!(!redacted.contains("quoted"));
    assert!(redacted.contains("email = ?"));
    assert!(redacted.contains("score > ?"));
    assert!(redacted.contains("-- redacted"));
    assert!(redacted.contains("/* redacted */"));
    assert_eq!(
        redacted,
        "SELECT * FROM users WHERE email = ? AND score > ? -- redacted\n/* redacted */ AND note = ?"
    );
}

#[test]
fn sql_observability_redacts_dollar_quoted_literals_without_eating_plain_tokens() {
    let sql = "SELECT $$secret$$, $tag$hidden$tag$, price_$suffix FROM plans";

    let redacted = redact_sql_literals(sql);

    assert!(!redacted.contains("secret"));
    assert!(!redacted.contains("hidden"));
    assert!(redacted.contains("?, ?"));
    assert!(redacted.contains("price_$suffix"));
}

#[test]
fn observability_text_is_redacted_only_when_asked() {
    assert_eq!(
        sql_for_observability("SELECT * FROM users WHERE token = 'secret-token'", true),
        "SELECT * FROM users WHERE token = ?"
    );
    assert_eq!(sql_for_observability("SELECT 1", false), "SELECT 1");
}

#[test]
fn redaction_keeps_identifier_digits_and_unterminated_comments() {
    assert_eq!(redact_sql_literals("col1 = 1.5"), "col1 = ?");
    assert_eq!(redact_sql_literals("a /* open"), "a /* redacted */");
    assert_eq!(redact_sql_literals("a -- tail"), "a -- redacted");
    assert_eq!(redact_sql_literals("n'x' e'y' name'z'"), "? ? name?");
}

#[test]
fn query_context_and_type_errors_name_the_query() {
    assert_eq!(
        format_query_context("SELECT 1", Some("users.list")),
        " in `users.list` while running `SELECT 1`"
    );
    assert_eq!(format_query_context("SELECT 1", None), " while running `SELECT 1`");
    assert_eq!(
        unsupported_type_error("geo", "point", "point", "SELECT geo", None).to_text(),
        "unsupported postgres type `point` (normalized lookup `point`) for column `geo` while running `SELECT geo`; register a database type adapter or add first-class support"
    );
}

#[test]
fn log_config_follows_database_and_observability_settings() {
    let config = DatabaseConfig {
        log_queries: true,
        slow_query_threshold_ms: 250,
        slow_query_retention: 7,
        ..DatabaseConfig::default()
    };
    let enabled = SqlLogConfig::from_configs(&config, None);
    assert!(enabled.capture_enabled);
    assert!(enabled.log_queries);
    assert_eq!(enabled.slow_threshold, Some(Duration::from_millis(250)));
    assert_eq!(enabled.slow_query_retention, 7);

    let off = ObservabilityConfig { capture_enabled: false };
    let disabled_capture = SqlLogConfig::from_configs(&config, Some(&off));
    assert!(!disabled_capture.capture_enabled);
    assert_eq!(disabled_capture.slow_threshold, None);

    let disabled = SqlLogConfig::disabled();
    assert!(disabled.redact_sql_literals);
    assert_eq!(disabled.slow_query_retention, 0);
}

#[test]
fn execution_options_builders_and_label_suffix() {
    let options = QueryExecutionOptions::default()
        .with_label("users.list")
        .with_write_pool()
        .with_timeout(Duration::from_secs(2));
    assert_eq!(options.label.as_deref(), Some("users.list"));
    assert!(options.use_write_pool);
    assert_eq!(options.timeout, Some(Duration::from_secs(2)));
    assert_eq!(label_suffix(&options), " for `users.list`");
    assert_eq!(label_suffix(&QueryExecutionOptions::default()), "");
}

#[test]
fn type_adapters_are_found_under_any_spelling_of_the_type() {
    let mut adapters = TypeAdapters::new();
    assert_eq!(adapters.registered_type_adapter("citext"), None);

    adapters.register_type_adapter(" \"CITEXT\" ", DbType::Text);
    adapters.register_type_adapter("ltree[]", DbType::TextArray);
    assert_eq!(adapters.registered_type_adapter("citext"), Some(DbType::Text));
    assert_eq!(adapters.registered_type_adapter("_ltree"), Some(DbType::TextArray));
    assert_eq!(adapters.registered_type_adapter("ltree"), None);

    adapters.register_type_adapter("citext", DbType::Json);
    assert_eq!(adapters.registered_type_adapter("CITEXT"), Some(DbType::Json));
}

#[test]
fn timeout_and_operation_errors_name_the_action_label_and_sql() {
    let labelled = QueryExecutionOptions::default()
        .with_timeout(Duration::from_millis(1500))
        .with_label("users.index");
    assert_eq!(
        outer_timeout_error(&labelled, "query", "SELECT 1").to_text(),
        "database query timed out after 1500ms for `users.index` while running `SELECT 1`"
    );
    assert_eq!(
        outer_timeout_error(&QueryExecutionOptions::default(), "execute", "DELETE FROM t").to_text(),
        "database execute timed out after unknownms while running `DELETE FROM t`"
    );
    assert_eq!(
        operation_error(&labelled, "query", "SELECT 1", true, "canceling statement").to_text(),
        "database query timed out after 1500ms for `users.index` while running `SELECT 1`: canceling statement"
    );
    assert_eq!(
        operation_error(&QueryExecutionOptions::default(), "query", "SELECT 1", true, "x").to_text(),
        "database query timed out after 0ms while running `SELECT 1`: x"
    );
    assert_eq!(
        operation_error(&QueryExecutionOptions::default(), "execute", "SELECT 1", false, "boom").to_text(),
        "database execute failed while running `SELECT 1`: boom"
    );
    assert_eq!(
        database_stream_panic_error("worker died").to_text(),
        "database stream panicked: worker died"
    );
}

#[test]
fn statement_timeouts_are_recognized_by_code_and_message() {
    assert!(is_statement_timeout(
        Some("57014"),
        "canceling statement due to Statement Timeout"
    ));
    assert!(!is_statement_timeout(
        Some("57014"),
        "canceling statement due to user request"
    ));
    assert!(!is_statement_timeout(Some("40001"), "statement timeout"));
    assert!(!is_statement_timeout(None, "statement timeout"));
    assert!(!is_statement_timeout(Some("57014"), "timeout"));
}

#[test]
fn timeouts_print_as_whole_milliseconds() {
    assert_eq!(timeout_millis(&Duration::from_millis(1500)), "1500");
    assert_eq!(timeout_millis(&Duration::from_micros(2999)), "2");
}
