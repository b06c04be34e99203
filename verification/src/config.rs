//! The database settings that the library's logic reads.
use vstd::prelude::*;

use crate::text::owned;

verus! {

/// Database settings: where the migration ledger lives, how long a
/// migration waits for its lock, the default page size and the SQL
/// logging and observability switches.
#[derive(Debug)]
pub struct DatabaseConfig {
    pub schema: String,
    pub migration_table: String,
    pub migration_lock_timeout_ms: u64,
    pub default_per_page: u64,
    pub log_queries: bool,
    pub log_query_bindings: bool,
    pub redact_sql_literals: bool,
    pub slow_query_threshold_ms: u64,
    pub slow_query_retention: usize,
    pub n_plus_one_detection: bool,
    pub n_plus_one_min_repeats: u64,
    pub n_plus_one_retention: usize,
}

impl Clone for DatabaseConfig {
    fn clone(&self) -> (r: Self)
        ensures
            r.schema@ == self.schema@,
            r.migration_table@ == self.migration_table@,
            r.migration_lock_timeout_ms == self.migration_lock_timeout_ms,
            r.default_per_page == self.default_per_page,
            r.log_queries == self.log_queries,
            r.log_query_bindings == self.log_query_bindings,
            r.redact_sql_literals == self.redact_sql_literals,
            r.slow_query_threshold_ms == self.slow_query_threshold_ms,
            r.slow_query_retention == self.slow_query_retention,
            r.n_plus_one_detection == self.n_plus_one_detection,
            r.n_plus_one_min_repeats == self.n_plus_one_min_repeats,
            r.n_plus_one_retention == self.n_plus_one_retention,
    {
        DatabaseConfig {
            schema: self.schema.clone(),
            migration_table: self.migration_table.clone(),
            migration_lock_timeout_ms: self.migration_lock_timeout_ms,
            default_per_page: self.default_per_page,
            log_queries: self.log_queries,
            log_query_bindings: self.log_query_bindings,
            redact_sql_literals: self.redact_sql_literals,
            slow_query_threshold_ms: self.slow_query_threshold_ms,
            slow_query_retention: self.slow_query_retention,
            n_plus_one_detection: self.n_plus_one_detection,
            n_plus_one_min_repeats: self.n_plus_one_min_repeats,
            n_plus_one_retention: self.n_plus_one_retention,
        }
    }
}

impl Default for DatabaseConfig {
    /// The `public` schema with the `foundry_migrations` ledger, pages of 15
    /// rows, redacted SQL in observability output, and no query logging.
    fn default() -> (r: Self)
        ensures
            r.schema@ == "public"@,
            r.migration_table@ == "foundry_migrations"@,
            r.migration_lock_timeout_ms == 30_000,
            r.default_per_page == 15,
            !r.log_queries,
            !r.log_query_bindings,
            r.redact_sql_literals,
            r.slow_query_threshold_ms == 500,
            r.slow_query_retention == 100,
            r.n_plus_one_detection,
            r.n_plus_one_min_repeats == 10,
            r.n_plus_one_retention == 100,
    {
        DatabaseConfig {
            schema: owned("public"),
            migration_table: owned("foundry_migrations"),
            migration_lock_timeout_ms: 30_000,
            default_per_page: 15,
            log_queries: false,
            log_query_bindings: false,
            redact_sql_literals: true,
            slow_query_threshold_ms: 500,
            slow_query_retention: 100,
            n_plus_one_detection: true,
            n_plus_one_min_repeats: 10,
            n_plus_one_retention: 100,
        }
    }
}

/// Observability settings: whether query timings are captured at all.
#[derive(Debug, Clone, Copy)]
pub struct ObservabilityConfig {
    pub capture_enabled: bool,
}

} // verus!
