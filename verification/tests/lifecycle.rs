use std::path::PathBuf;

use foundry_db::config::DatabaseConfig;
use foundry_db::lifecycle::{
    migrate_summary_line, migration_status_lines, rollback_summary_line, seed_summary_line,
    finish_locked_operation, migration_lock_notice_due, migration_lock_step, migration_lock_wait_notice,
    migration_status_report, plan_migrate, plan_rollback, plan_seed, LockWaitStep,
    advisory_lock_key, database_lifecycle_panic_error, ensure_applied_migrations_exist,
    legacy_migration_ledger_adoption_sql, lock_timeout_ms, migration_lock_timeout_error,
    missing_applied_migrations, qualified_migration_table, quote_identifier, quote_literal,
    AppliedMigration, GeneratedDatabasePaths, MigrationRegistryBuilder, MigrationStatus,
    MigrationStatusReport, SeederRegistryBuilder,
    applied_migrations_query, delete_applied_migration_sql, ledger_setup_statements,
    record_applied_migration_sql, ensure_generated_database_is_registered,
    applied_migration_from_record,
};
use foundry_db::ast::DbValue;
use foundry_db::record::DbRecord;

#[test]
fn maps_applied_and_pending_statuses() {
    let applied = AppliedMigration {
        id: "202604090900_init".to_string(),
        batch: 1,
        applied_at: "2026-04-09 09:00:00+00".to_string(),
    };
    let statuses = [
        MigrationStatus {
            id: applied.id.clone(),
            applied: Some(applied.clone()),
        },
        MigrationStatus {
            id: "202604091000_users".to_string(),
            applied: None,
        },
    ];

    assert_eq!(statuses[0].applied.as_ref(), Some(&applied));
    assert!(statuses[1].applied.is_none());
}

fn drifted_report() -> MigrationStatusReport {
    let applied = AppliedMigration {
        id: "202604090900_init".to_string(),
        batch: 1,
        applied_at: "2026-04-09 09:00:00+00".to_string(),
    };
    let missing = AppliedMigration {
        id: "202604090800_removed".to_string(),
        batch: 1,
        applied_at: "2026-04-09 08:00:00+00".to_string(),
    };
    MigrationStatusReport {
        statuses: vec![
            MigrationStatus {
                id: applied.id.clone(),
                applied: Some(applied),
            },
            MigrationStatus {
                id: "202604091000_users".to_string(),
                applied: None,
            },
        ],
        missing_applied: vec![missing],
        latest_batch: Some(1),
    }
}

#[test]
fn migration_status_json_includes_summary_and_missing_applied_rows() {
    let json = drifted_report().to_json();
    assert_eq!(json.summary.registered, 2);
    assert_eq!(json.summary.applied, 1);
    assert_eq!(json.summary.pending, 1);
    assert_eq!(json.summary.missing_applied, 1);
    assert_eq!(json.summary.drifted, true);
    assert_eq!(json.summary.up_to_date, false);
    assert_eq!(json.migrations[0].state, "applied");
    assert_eq!(json.migrations[1].state, "pending");
    assert_eq!(json.missing_applied[0].state, "missing_applied");
}

#[test]
fn migration_status_json_marks_clean_fully_applied_reports_up_to_date() {
    let applied = AppliedMigration {
        id: "202604090900_init".to_string(),
        batch: 1,
        applied_at: "2026-04-09 09:00:00+00".to_string(),
    };
    let report = MigrationStatusReport {
        statuses: vec![MigrationStatus {
            id: applied.id.clone(),
            applied: Some(applied),
        }],
        missing_applied: Vec::new(),
        latest_batch: Some(1),
    };

    let json = report.to_json();
    assert_eq!(json.summary.registered, 1);
    assert_eq!(json.summary.applied, 1);
    assert_eq!(json.summary.pending, 0);
    assert_eq!(json.summary.missing_applied, 0);
    assert_eq!(json.summary.drifted, false);
    assert_eq!(json.summary.up_to_date, true);
}

#[test]
fn migration_status_rows_carry_ledger_data() {
    let json = drifted_report().to_json();
    assert_eq!(json.migrations[0].id, "202604090900_init");
    assert_eq!(json.migrations[0].batch, Some(1));
    assert_eq!(json.migrations[0].applied_at.as_deref(), Some("2026-04-09 09:00:00+00"));
    assert_eq!(json.migrations[1].batch, None);
    assert_eq!(json.missing_applied[0].id, "202604090800_removed");
    assert_eq!(json.summary.latest_batch, Some(1));
}

#[test]
fn detects_missing_applied_migrations() {
    let mut builder = MigrationRegistryBuilder::new();
    builder.register("202604091200_create_users").unwrap();
    let registered = builder.ids();
    let applied = vec![
        AppliedMigration {
            id: "202604091200_create_users".to_string(),
            batch: 1,
            applied_at: "2026-04-09 12:00:00+00".to_string(),
        },
        AppliedMigration {
            id: "202604091300_removed".to_string(),
            batch: 1,
            applied_at: "2026-04-09 13:00:00+00".to_string(),
        },
    ];

    let missing = missing_applied_migrations(&applied, &registered);
    assert_eq!(missing.len(), 1);
    assert_eq!(missing[0].id, "202604091300_removed");

    let error = ensure_applied_migrations_exist(&applied, &registered).unwrap_err();
    assert!(error.to_text().starts_with("applied migration `202604091300_removed` is missing"));
    assert!(ensure_applied_migrations_exist(&applied[..1].to_vec(), &registered).is_ok());
}

#[test]
fn rejects_duplicate_migration_ids() {
    let mut builder = MigrationRegistryBuilder::new();
    builder.register("202604091200_create_users").unwrap();

    let error = builder.register("202604091200_create_users").err().unwrap();
    assert!(error.to_text().contains("already registered"));
    assert_eq!(error.to_text(), "migration `202604091200_create_users` already registered");
}

#[test]
fn migration_ids_are_kept_in_id_order() {
    let mut builder = MigrationRegistryBuilder::new();
    builder.register("202604091300_b").unwrap();
    builder.register("202604091200_a").unwrap();
    builder.register("202604091400_c").unwrap();
    assert_eq!(
        builder.ids(),
        vec!["202604091200_a", "202604091300_b", "202604091400_c"]
    );
}

#[test]
fn rejects_duplicate_seeder_ids() {
    let mut builder = SeederRegistryBuilder::new();
    builder.register("users.seed").unwrap();

    let error = builder.register("users.seed").err().unwrap();
    assert!(error.to_text().contains("already registered"));
}

#[test]
fn preserves_seeder_registration_order() {
    let mut builder = SeederRegistryBuilder::new();
    builder.register("users.seed").unwrap();
    builder.register("users.file").unwrap();

    assert_eq!(builder.ids(), vec!["users.seed".to_string(), "users.file".to_string()]);
}

#[test]
fn migration_lock_timeout_error_names_schema_and_table() {
    let config = DatabaseConfig {
        schema: "foundry_ops".to_string(),
        migration_table: "schema_migrations".to_string(),
        ..DatabaseConfig::default()
    };
    let error = migration_lock_timeout_error(&config, 250);
    assert!(error.to_text().contains("foundry_ops"));
    assert!(error.to_text().contains("schema_migrations"));
    assert!(error.to_text().contains("250ms"));
    assert_eq!(
        migration_lock_timeout_error(&config, 1).to_text(),
        "timed out after 1ms waiting for migration advisory lock for schema `foundry_ops` and migration table `schema_migrations`; another db:migrate or db:rollback process is likely still running"
    );
}

#[test]
fn generated_database_paths_expose_primary_dirs() {
    let paths = GeneratedDatabasePaths::new(
        vec!["/tmp/migrations".into()],
        vec!["/tmp/seeders".into()],
    );
    assert_eq!(
        paths.primary_migration_dir().unwrap(),
        std::path::Path::new("/tmp/migrations")
    );
    assert_eq!(
        paths.primary_seeder_dir().unwrap(),
        std::path::Path::new("/tmp/seeders")
    );
    let empty = GeneratedDatabasePaths::new(Vec::<PathBuf>::new(), Vec::new());
    assert!(empty.primary_migration_dir().is_none());
}

#[test]
fn advisory_lock_key_depends_on_schema_and_table() {
    let public = DatabaseConfig::default();
    let custom = DatabaseConfig {
        schema: "foundry".to_string(),
        migration_table: "custom_migrations".to_string(),
        ..DatabaseConfig::default()
    };

    assert_ne!(advisory_lock_key(&public), advisory_lock_key(&custom));
}

#[test]
fn advisory_lock_key_is_fnv1a_of_the_key_text() {
    let config = DatabaseConfig {
        schema: "s".to_string(),
        migration_table: "t".to_string(),
        ..DatabaseConfig::default()
    };
    let mut hash: u64 = 0xcbf29ce484222325;
    for byte in "foundry:s:t".bytes() {
        hash ^= u64::from(byte);
        hash = hash.wrapping_mul(0x100000001b3);
    }
    assert_eq!(advisory_lock_key(&config), (hash & 0x7fff_ffff_ffff_ffff) as i64);
    assert!(advisory_lock_key(&config) >= 0);
}

#[test]
fn legacy_migration_ledger_adoption_copies_forge_rows_into_foundry_table() {
    let config = DatabaseConfig {
        schema: "public".to_string(),
        migration_table: "foundry_migrations".to_string(),
        ..DatabaseConfig::default()
    };

    let sql = legacy_migration_ledger_adoption_sql(&config);

    assert!(sql.contains("to_regclass('\"public\".\"forge_migrations\"')"));
    assert!(sql.contains("INSERT INTO \"public\".\"foundry_migrations\""));
    assert!(sql.contains("FROM \"public\".\"forge_migrations\""));
    assert!(sql.contains("ON CONFLICT (id) DO NOTHING"));
}

#[test]
fn quoting_doubles_quote_characters() {
    assert_eq!(quote_identifier("we\"ird"), "\"we\"\"ird\"");
    assert_eq!(quote_identifier("a.b"), "\"a.b\"");
    assert_eq!(quote_literal("it's"), "'it''s'");
    let config = DatabaseConfig {
        schema: "app".to_string(),
        migration_table: "ledger".to_string(),
        ..DatabaseConfig::default()
    };
    assert_eq!(qualified_migration_table(&config), "\"app\".\"ledger\"");
}

#[test]
fn lock_timeout_prefers_the_command_argument() {
    let config = DatabaseConfig { migration_lock_timeout_ms: 900, ..DatabaseConfig::default() };
    assert_eq!(lock_timeout_ms(Some(5), &config), 5);
    assert_eq!(lock_timeout_ms(None, &config), 900);
}

#[test]
fn lifecycle_panic_error_names_kind_id_and_phase() {
    assert_eq!(
        database_lifecycle_panic_error("migration", "202604101532_panic_migration", "up", "migration up exploded").to_text(),
        "migration `202604101532_panic_migration` up panicked: migration up exploded"
    );
}

fn row(id: &str, batch: i64) -> AppliedMigration {
    AppliedMigration {
        id: id.to_string(),
        batch,
        applied_at: "2026-04-09 09:00:00+00".to_string(),
    }
}

fn ids(values: &[&str]) -> Vec<String> {
    values.iter().map(|value| value.to_string()).collect()
}

#[test]
fn status_report_pairs_registered_ids_with_ledger_rows() {
    let registered = ids(&["001_init", "002_users", "003_posts"]);
    let applied = vec![row("001_init", 1), row("002_users", 2), row("999_gone", 2)];
    let report = migration_status_report(&registered, &applied);
    assert_eq!(report.statuses.len(), 3);
    assert_eq!(report.statuses[1].applied.as_ref().map(|a| a.batch), Some(2));
    assert!(report.statuses[2].applied.is_none());
    assert_eq!(report.missing_applied.len(), 1);
    assert_eq!(report.missing_applied[0].id, "999_gone");
    assert_eq!(report.latest_batch, Some(2));
    let summary = report.summary();
    assert_eq!((summary.applied, summary.pending), (2, 1));
    assert!(summary.drifted);
}

#[test]
fn migrate_plan_runs_pending_ids_in_a_new_batch() {
    let registered = ids(&["001_init", "002_users", "003_posts"]);
    let applied = vec![row("001_init", 4)];
    let plan = plan_migrate(&registered, &applied).unwrap();
    assert_eq!(plan.ids, ids(&["002_users", "003_posts"]));
    assert_eq!(plan.batch, Some(5));

    let fresh = plan_migrate(&registered, &Vec::new()).unwrap();
    assert_eq!(fresh.batch, Some(1));

    let mut after = applied.clone();
    for id in &plan.ids {
        after.push(row(id, 5));
    }
    let done = plan_migrate(&registered, &after).unwrap();
    assert!(done.ids.is_empty());
    assert_eq!(done.batch, None);
    assert_eq!(migration_status_report(&registered, &after).summary().pending, 0);
}

#[test]
fn migrate_and_rollback_plans_refuse_a_drifted_ledger() {
    let registered = ids(&["001_init"]);
    let applied = vec![row("001_init", 1), row("000_removed", 1)];
    let error = plan_migrate(&registered, &applied).unwrap_err();
    assert!(error.to_text().starts_with("applied migration `000_removed` is missing"));
    assert!(plan_rollback(&registered, &applied).is_err());
}

#[test]
fn rollback_plan_undoes_the_latest_batch_last_first() {
    let registered = ids(&["001_init", "002_users", "003_posts", "004_tags"]);
    let applied = vec![row("001_init", 1), row("002_users", 2), row("003_posts", 2), row("004_tags", 2)];
    let plan = plan_rollback(&registered, &applied).unwrap();
    assert_eq!(plan.ids, ids(&["004_tags", "003_posts", "002_users"]));
    assert_eq!(plan.batch, Some(2));

    let empty = plan_rollback(&registered, &Vec::new()).unwrap();
    assert!(empty.ids.is_empty());
    assert_eq!(empty.batch, None);
}

#[test]
fn seed_plan_keeps_registration_order_and_refuses_unknown_ids() {
    let registered = ids(&["users", "posts", "tags"]);
    assert_eq!(plan_seed(&registered, None).unwrap(), registered);
    let selected = ids(&["posts", "users"]);
    let mut sorted = selected.clone();
    sorted.sort();
    assert_eq!(plan_seed(&registered, Some(&sorted)).unwrap(), ids(&["users", "posts"]));
    let unknown = ids(&["missing", "users"]);
    assert_eq!(
        plan_seed(&registered, Some(&unknown)).unwrap_err().to_text(),
        "seeder `missing` is not registered"
    );
}

#[test]
fn locked_operation_outcome_reports_unlock_failures() {
    let ok: Result<u32, foundry_db::Error> = Ok(3);
    assert_eq!(finish_locked_operation(ok, Ok(())).unwrap(), 3);
    let failed: Result<u32, foundry_db::Error> = Err(foundry_db::Error::message("boom".to_string()));
    let unlock = Err(foundry_db::Error::message("lost connection".to_string()));
    assert_eq!(
        finish_locked_operation(failed, unlock).unwrap_err().to_text(),
        "boom; advisory unlock failed: lost connection"
    );
    let ok: Result<u32, foundry_db::Error> = Ok(3);
    let unlock = Err(foundry_db::Error::message("lost connection".to_string()));
    assert_eq!(finish_locked_operation(ok, unlock).unwrap_err().to_text(), "lost connection");
}

#[test]
fn migration_lock_wait_polls_until_the_timeout() {
    assert_eq!(migration_lock_step(true, 10_000, 100), LockWaitStep::Acquired);
    assert_eq!(migration_lock_step(false, 100, 100), LockWaitStep::TimedOut);
    assert_eq!(migration_lock_step(false, 50, 100), LockWaitStep::Sleep(50));
    assert_eq!(migration_lock_step(false, 0, 1_000), LockWaitStep::Sleep(200));
    assert_eq!(migration_lock_step(false, 60_000, 0), LockWaitStep::Sleep(200));
    assert_eq!(
        migration_lock_wait_notice(&DatabaseConfig::default()),
        "waiting for migration advisory lock for schema `public` and migration table `foundry_migrations`; another db:migrate or db:rollback process is likely running"
    );
}

#[test]
fn lifecycle_commands_print_their_outcomes() {
    assert_eq!(migrate_summary_line(2, Some(5)), "applied 2 migration(s) in batch 5");
    assert_eq!(migrate_summary_line(0, None), "applied 0 migration(s)");
    assert_eq!(rollback_summary_line(3, Some(-1)), "reverted 3 migration(s) from batch -1");
    assert_eq!(rollback_summary_line(0, None), "reverted 0 migration(s)");
    assert_eq!(seed_summary_line(4), "ran 4 seeder(s)");

    let registered = ids(&["001_init", "002_users"]);
    let applied = vec![row("001_init", 1), row("000_gone", 1)];
    let lines = migration_status_lines(&migration_status_report(&registered, &applied));
    assert_eq!(
        lines,
        vec![
            "001_init | Applied | batch 1 | 2026-04-09 09:00:00+00".to_string(),
            "002_users | Pending".to_string(),
            "000_gone | MissingApplied | batch 1 | 2026-04-09 09:00:00+00".to_string(),
        ]
    );
}

#[test]
fn ledger_statements_create_the_table_and_adopt_legacy_rows_for_the_default_name() {
    let config = DatabaseConfig::default();
    let statements = ledger_setup_statements(&config);
    assert_eq!(statements.len(), 3);
    assert_eq!(statements[0], "CREATE SCHEMA IF NOT EXISTS \"public\"");
    assert_eq!(
        statements[1],
        "CREATE TABLE IF NOT EXISTS \"public\".\"foundry_migrations\" (id TEXT PRIMARY KEY, batch BIGINT NOT NULL, applied_at TIMESTAMPTZ NOT NULL)"
    );
    assert_eq!(statements[2], legacy_migration_ledger_adoption_sql(&config));

    let mut custom = DatabaseConfig::default();
    custom.migration_table = "app_migrations".to_string();
    let statements = ledger_setup_statements(&custom);
    assert_eq!(statements.len(), 2);
}

#[test]
fn ledger_row_statements_use_the_qualified_table() {
    let mut config = DatabaseConfig::default();
    config.schema = "tenant".to_string();
    assert_eq!(
        applied_migrations_query(&config),
        "SELECT id, batch, applied_at::TEXT AS applied_at FROM \"tenant\".\"foundry_migrations\" ORDER BY id"
    );
    assert_eq!(
        record_applied_migration_sql(&config),
        "INSERT INTO \"tenant\".\"foundry_migrations\" (id, batch, applied_at) VALUES ($1, $2, NOW())"
    );
    assert_eq!(
        delete_applied_migration_sql(&config),
        "DELETE FROM \"tenant\".\"foundry_migrations\" WHERE id = $1"
    );
}

#[test]
fn generated_files_must_be_registered_migrations_first() {
    let migrations = ids(&["202604090900_init"]);
    let seeders = ids(&["users"]);
    let source = |id: &str, path: &str| (id.to_string(), path.to_string());

    assert!(ensure_generated_database_is_registered(
        &migrations,
        &vec![source("202604090900_init", "database/migrations/202604090900_init.rs")],
        &seeders,
        &vec![source("users", "database/seeders/users.rs")],
    )
    .is_ok());

    let error = ensure_generated_database_is_registered(
        &migrations,
        &vec![source("202604091000_posts", "database/migrations/202604091000_posts.rs")],
        &seeders,
        &vec![source("orders", "database/seeders/orders.rs")],
    )
    .unwrap_err();
    assert_eq!(
        error.to_text(),
        "migration file `database/migrations/202604091000_posts.rs` exists but is not registered in the current binary; rebuild the app before running database lifecycle commands so the file is discovered"
    );

    let error = ensure_generated_database_is_registered(
        &migrations,
        &Vec::new(),
        &seeders,
        &vec![source("orders", "database/seeders/orders.rs")],
    )
    .unwrap_err();
    assert!(error.to_text().starts_with("seeder file `database/seeders/orders.rs` exists"));
}

#[test]
fn ledger_records_read_as_applied_migrations() {
    let mut record = DbRecord::new();
    record.insert("id", DbValue::Text("202604090900_init".to_string()));
    record.insert("batch", DbValue::Int32(3));
    record.insert("applied_at", DbValue::Text("2026-04-09 09:00:00+00".to_string()));
    assert_eq!(
        applied_migration_from_record(&record).unwrap(),
        row_at("202604090900_init", 3, "2026-04-09 09:00:00+00")
    );

    let mut no_batch = DbRecord::new();
    no_batch.insert("id", DbValue::Text("x".to_string()));
    assert_eq!(
        applied_migration_from_record(&no_batch).unwrap_err().to_text(),
        "ledger column `batch` is not an integer"
    );

    let mut no_time = DbRecord::new();
    no_time.insert("id", DbValue::Text("x".to_string()));
    no_time.insert("batch", DbValue::Int64(1));
    assert!(applied_migration_from_record(&no_time).is_err());
}

fn row_at(id: &str, batch: i64, applied_at: &str) -> AppliedMigration {
    AppliedMigration {
        id: id.to_string(),
        batch,
        applied_at: applied_at.to_string(),
    }
}

#[test]
fn lock_wait_notice_is_due_every_five_seconds() {
    assert!(!migration_lock_notice_due(0, 0));
    assert!(!migration_lock_notice_due(4_999, 0));
    assert!(migration_lock_notice_due(5_000, 0));
    assert!(!migration_lock_notice_due(9_000, 5_000));
    assert!(migration_lock_notice_due(10_250, 5_000));
}
