use foundry_db::ast::{ColumnRef, Condition, DbValue, Expr, InsertSource, OrderBy, QueryBody};
use foundry_db::builders::Sql;
use foundry_db::compiler::PostgresCompiler;
use foundry_db::observability::QueryExecutionOptions;
use foundry_db::query::{
    create_many_row_builder_panic_message, first_deferred_error, model_lifecycle_panic_error,
    model_query_dsl_panic_message, model_write_mutator_panic_error,
    projection_query_dsl_panic_message, query_iteration_panic_error, wrap_model_query_batch_error,
    wrap_model_stream_error, Cte, Query,
};

#[test]
fn insert_builder_switches_from_select_source_to_values_without_panicking() {
    let query = Query::insert_select_into("audit_logs", Query::table("users").select(vec!["id"]))
        .value("id", 1_i64)
        .value("label", "one");
    let ast = query.ast();

    let QueryBody::Insert(insert) = &ast.body else {
        panic!("expected insert query body");
    };

    match &insert.source {
        InsertSource::Values(rows) => {
            assert_eq!(rows.len(), 1);
            assert_eq!(rows[0].len(), 2);
        }
        InsertSource::Select(_) => panic!("insert source should have normalized to values"),
    }
}

#[test]
fn generic_query_where_in_helpers_compile() {
    let included = Query::table("users")
        .select(vec!["id"])
        .where_in("id", vec![1_i64, 2_i64]);
    let exclude = Query::table("users")
        .select(vec!["id"])
        .where_not_in("status", vec!["archived", "deleted"]);

    assert_eq!(
        PostgresCompiler::compile(included.ast()).unwrap().sql,
        "SELECT \"id\" FROM \"users\" WHERE \"id\" IN ($1::bigint, $2::bigint)"
    );
    assert_eq!(
        PostgresCompiler::compile(exclude.ast()).unwrap().sql,
        "SELECT \"id\" FROM \"users\" WHERE NOT (\"status\" IN ($1::text, $2::text))"
    );
}

#[test]
fn sql_expression_helpers_compile_common_report_patterns() {
    let query = Query::table("users")
        .select_expr(
            Sql::count_when(
                Expr::column(ColumnRef::new("claims", "released_at")).is_not_null(),
            ),
            "released_count",
        )
        .select_expr(
            Sql::max(ColumnRef::new("claims", "claimed_at")),
            "last_claimed_at",
        )
        .having(Sql::count(ColumnRef::new("claims", "id")).gt_value(0_i64))
        .where_(
            Sql::concat_ws(
                " ",
                vec![
                    Expr::column("username"),
                    Expr::column("email"),
                    Expr::column("name"),
                ],
            )
            .ilike("%amy%"),
        );

    let compiled = PostgresCompiler::compile(query.ast()).unwrap();

    assert!(compiled.sql.contains("COUNT(CASE WHEN"));
    assert!(compiled
        .sql
        .contains("\"claims\".\"released_at\" IS NOT NULL"));
    assert!(compiled.sql.contains("MAX(\"claims\".\"claimed_at\")"));
    assert!(compiled
        .sql
        .contains("COUNT(\"claims\".\"id\") > $4::bigint"));
    assert!(compiled
        .sql
        .contains("CONCAT_WS($2::text, \"username\", \"email\", \"name\") ILIKE $3::text"));
}

#[test]
fn insert_value_expr_helpers_compile_operational_timestamps() {
    let query = Query::insert_into("job_history")
        .value("job_id", "job-1")
        .value_expr(
            "started_at",
            Sql::to_timestamp_millis(DbValue::Int64(1_712_345_678_000)),
        )
        .value_expr("completed_at", Sql::now());

    let compiled = PostgresCompiler::compile(query.ast()).unwrap();

    assert!(compiled.sql.contains("INSERT INTO \"job_history\""));
    assert!(compiled.sql.contains("\"started_at\""));
    assert!(compiled.sql.contains("TO_TIMESTAMP"));
    assert!(compiled.sql.contains("::double precision"));
    assert!(compiled.sql.contains("NOW()"));
}

#[test]
fn uuid_v7_expression_helper_compiles_for_seeders() {
    let query = Query::insert_into("users").value_expr("id", Sql::uuid_v7());
    let compiled = PostgresCompiler::compile(query.ast()).unwrap();

    assert_eq!(
        compiled.sql,
        "INSERT INTO \"users\" (\"id\") VALUES (uuidv7())"
    );
}

#[test]
fn json_text_comparison_helper_compiles() {
    let query = Query::table("voucher_claims").select(vec!["id"]).where_(
        Expr::column("voucher_snapshot")
            .json()
            .key("name")
            .ilike("%coffee%"),
    );

    let compiled = PostgresCompiler::compile(query.ast()).unwrap();

    assert!(compiled
        .sql
        .contains("(\"voucher_snapshot\") ->> $1::text ILIKE $2::text"));
}

#[test]
fn query_where_calls_are_joined_with_and() {
    let query = Query::table("users")
        .select(vec!["id"])
        .where_eq("active", true)
        .where_(Expr::column("age").gte_value(18_i64));
    let compiled = query.compile().unwrap();
    assert_eq!(
        compiled.sql,
        "SELECT \"id\" FROM \"users\" WHERE (\"active\" = $1::boolean AND \"age\" >= $2::bigint)"
    );
    assert_eq!(compiled.bindings, vec![DbValue::Bool(true), DbValue::Int64(18)]);
}

#[test]
fn query_upsert_compiles_conflict_update_with_excluded_values() {
    let query = Query::insert_into("users")
        .value("id", 1_i64)
        .value("email", "a@example.com")
        .on_conflict_columns(vec!["email"])
        .do_update()
        .set_excluded("email")
        .returning(vec!["id"]);
    let compiled = query.to_compiled_sql().unwrap();
    assert_eq!(
        compiled.sql,
        "INSERT INTO \"users\" (\"id\", \"email\") VALUES ($1::bigint, $2::text) ON CONFLICT (\"email\") DO UPDATE SET \"email\" = EXCLUDED.\"email\" RETURNING \"id\""
    );
}

#[test]
fn query_rows_add_one_values_row_each() {
    let query = Query::insert_many_into("tags")
        .rows(vec![vec![("name", "a")], vec![("name", "b")]]);
    let compiled = query.compile().unwrap();
    assert_eq!(
        compiled.sql,
        "INSERT INTO \"tags\" (\"name\") VALUES ($1::text), ($2::text)"
    );
}

#[test]
fn query_union_orders_and_limits_the_combined_rows() {
    let left = Query::table("users").select(vec!["id"]);
    let right = Query::table("admins").select(vec!["id"]);
    let query = left
        .union_all(right)
        .order_by(OrderBy::asc(Expr::column("id")))
        .limit(5);
    let compiled = query.compile().unwrap();
    assert_eq!(
        compiled.sql,
        "(SELECT \"id\" FROM \"users\") UNION ALL (SELECT \"id\" FROM \"admins\") ORDER BY \"id\" ASC LIMIT $1::bigint"
    );
}

#[test]
fn query_update_and_delete_filters_and_sources() {
    let update = Query::update_table("users")
        .set("active", false)
        .from("bans")
        .where_(Condition::compare(
            Expr::column(ColumnRef::new("bans", "user_id")),
            foundry_db::ast::ComparisonOp::Eq,
            Expr::column(ColumnRef::new("users", "id")),
        ));
    assert_eq!(
        update.compile().unwrap().sql,
        "UPDATE \"users\" SET \"active\" = $1::boolean FROM \"bans\" WHERE \"bans\".\"user_id\" = \"users\".\"id\""
    );
    let delete = Query::delete_from("sessions").where_eq("user_id", 7_i64);
    assert_eq!(
        delete.compile().unwrap().sql,
        "DELETE FROM \"sessions\" WHERE \"user_id\" = $1::bigint"
    );
}

#[test]
fn query_locks_and_ctes_compile() {
    let query = Query::table("jobs")
        .select(vec!["id"])
        .for_update()
        .skip_locked();
    assert_eq!(
        query.compile().unwrap().sql,
        "SELECT \"id\" FROM \"jobs\" FOR UPDATE SKIP LOCKED"
    );
    let cte = Cte::new("active_users", Query::table("users").select(vec!["id"])).materialized();
    let with = Query::table("active_users").select(vec!["id"]).with_cte(cte);
    assert_eq!(
        with.compile().unwrap().sql,
        "WITH \"active_users\" AS MATERIALIZED (SELECT \"id\" FROM \"users\") SELECT \"id\" FROM \"active_users\""
    );
}

#[test]
fn model_callback_and_batch_errors_name_their_subject() {
    assert_eq!(
        first_deferred_error(Some("a".to_string()), Some("b".to_string())),
        Some("a".to_string())
    );
    assert_eq!(first_deferred_error(None, Some("b".to_string())), Some("b".to_string()));
    assert_eq!(
        query_iteration_panic_error("app::User", "chunk", "boom").to_text(),
        "model query `app::User` chunk callback panicked: boom"
    );
    assert_eq!(
        model_query_dsl_panic_message("app::User", "scope", "boom"),
        "model query `app::User` scope callback panicked: boom"
    );
    assert_eq!(
        projection_query_dsl_panic_message("app::Card", "scope", "boom"),
        "projection query `app::Card` scope callback panicked: boom"
    );
    assert_eq!(
        create_many_row_builder_panic_message("app::User", "boom"),
        "model create_many `app::User` row callback panicked: boom"
    );
    assert_eq!(
        model_write_mutator_panic_error("app::User", "email", "boom").to_text(),
        "model `app::User` write mutator `email` panicked: boom"
    );
    assert_eq!(
        model_lifecycle_panic_error("app::User", "creating", "boom").to_text(),
        "model lifecycle `app::User` creating hook panicked: boom"
    );
    let cause = foundry_db::Error::message("timeout".to_string());
    let labelled = QueryExecutionOptions::default().with_label("users.index");
    assert_eq!(
        wrap_model_query_batch_error(&labelled, "hydrate root rows", &cause).to_text(),
        "model query failed to hydrate root rows in `users.index`: timeout"
    );
    assert_eq!(
        wrap_model_stream_error(&QueryExecutionOptions::default(), "read root rows", &cause).to_text(),
        "model query stream failed to read root rows: timeout"
    );
}
