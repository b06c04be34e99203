use foundry_db::aggregate::{
    can_aggregate_directly, count_query_ast, direct_aggregate_query, scalar_projection_query_ast,
    without_outer_order_limit_offset, wrap_query_for_alias_aggregate, AggregateProjection,
    aggregate_decode_candidates,
};
use foundry_db::ast::DbValue;
use foundry_db::record::DbRecord;
use foundry_db::ast::{DbType, Expr, OrderBy, QueryBody};
use foundry_db::compiler::PostgresCompiler;
use foundry_db::query::Query;

#[test]
fn count_of_a_plain_select_replaces_its_projection_and_drops_paging() {
    let query = Query::table("users")
        .select(vec!["id"])
        .where_eq("active", true)
        .order_by(OrderBy::desc(Expr::column("id")))
        .limit(10)
        .offset(20);
    let ast: foundry_db::ast::QueryAst = query.into();
    assert!(can_aggregate_directly(&ast));
    let compiled = PostgresCompiler::compile(&count_query_ast(ast)).unwrap();
    assert_eq!(
        compiled.sql,
        "SELECT COUNT(*) AS \"__foundry_count\" FROM \"users\" WHERE \"active\" = $1::boolean"
    );
}

#[test]
fn count_of_a_distinct_select_wraps_it_as_a_subquery() {
    let query = Query::table("users")
        .select(vec!["email"])
        .distinct()
        .order_by(OrderBy::asc(Expr::column("email")))
        .limit(5);
    let ast: foundry_db::ast::QueryAst = query.into();
    assert!(!can_aggregate_directly(&ast));
    let compiled = PostgresCompiler::compile(&count_query_ast(ast)).unwrap();
    assert_eq!(
        compiled.sql,
        "SELECT COUNT(*) AS \"__foundry_count\" FROM (SELECT DISTINCT \"email\" FROM \"users\") AS \"__foundry_wrapped_source\""
    );
}

#[test]
fn scalar_aggregate_of_a_grouped_query_is_refused() {
    let ast: foundry_db::ast::QueryAst = Query::table("orders")
        .select(vec!["user_id"])
        .group_by(Expr::column("user_id"))
        .into();
    let projection = AggregateProjection::<Option<i64>>::internal_sum(Expr::column("total"));
    let error = scalar_projection_query_ast(ast, projection.into_node()).unwrap_err();
    assert_eq!(
        error.to_text(),
        "complex aggregate helpers require a typed projection alias; use ProjectionQuery for grouped or set-operation aggregates"
    );
}

#[test]
fn scalar_aggregate_of_a_plain_select_selects_only_the_aggregate() {
    let ast: foundry_db::ast::QueryAst = Query::table("orders").select(vec!["id"]).into();
    let projection = AggregateProjection::<i64>::count_distinct(Expr::column("user_id"), "buyers");
    assert_eq!(projection.alias(), "buyers");
    let query = scalar_projection_query_ast(ast, projection.into_node()).unwrap();
    assert_eq!(
        PostgresCompiler::compile(&query).unwrap().sql,
        "SELECT COUNT(DISTINCT \"user_id\") AS \"buyers\" FROM \"orders\""
    );
}

#[test]
fn direct_aggregate_of_an_insert_is_refused() {
    let ast: foundry_db::ast::QueryAst = Query::insert_into("users").value("id", 1_i64).into();
    let projection = AggregateProjection::<i64>::internal_count();
    let error = direct_aggregate_query(ast, projection.into_node()).unwrap_err();
    assert_eq!(
        error.to_text(),
        "scalar aggregate helpers require a select query or a projection alias wrapper"
    );
}

#[test]
fn alias_aggregate_reads_the_wrapped_column() {
    let ast: foundry_db::ast::QueryAst = Query::table("orders")
        .select_expr(Expr::column("total"), "amount")
        .into();
    let projection = AggregateProjection::<Option<i64>>::max(Expr::column("ignored"), "largest");
    let wrapped = wrap_query_for_alias_aggregate(ast, "amount", DbType::Int64, projection.into_node());
    let compiled = PostgresCompiler::compile(&wrapped).unwrap();
    assert!(compiled.sql.starts_with("SELECT MAX(\"amount\")"));
    assert!(compiled
        .sql
        .ends_with("FROM (SELECT \"total\" AS \"amount\" FROM \"orders\") AS \"__foundry_wrapped_source\""));
}

#[test]
fn stripping_paging_keeps_the_filter() {
    let ast: foundry_db::ast::QueryAst = Query::table("users")
        .where_eq("id", 3_i64)
        .limit(1)
        .into();
    let stripped = without_outer_order_limit_offset(ast);
    let QueryBody::Select(select) = &stripped.body else {
        panic!("expected a select");
    };
    assert!(select.limit.is_none());
    assert!(select.condition.is_some());
}

#[test]
fn aggregate_results_try_numeric_text_as_a_numeric_first() {
    let mut record = DbRecord::new();
    record.insert("total", DbValue::Text("2500.0000".to_string()));
    record.insert("label", DbValue::Text("first".to_string()));
    record.insert("count", DbValue::Int64(3));

    let total = aggregate_decode_candidates(&record, "total").unwrap();
    assert_eq!(total.len(), 2);
    match &total[0] {
        DbValue::Numeric(n) => assert_eq!(n.as_str(), "2500.0000"),
        other => panic!("expected a numeric, got {other:?}"),
    }
    assert_eq!(total[1], DbValue::Text("2500.0000".to_string()));

    assert_eq!(
        aggregate_decode_candidates(&record, "label").unwrap(),
        vec![DbValue::Text("first".to_string())]
    );
    assert_eq!(
        aggregate_decode_candidates(&record, "count").unwrap(),
        vec![DbValue::Int64(3)]
    );
    assert_eq!(
        aggregate_decode_candidates(&record, "missing").unwrap_err().to_text(),
        "missing column `missing` in record"
    );
}
