use foundry_db::ast::{
    AggregateExpr, AggregateNode, CaseExpr, CaseWhen, ColumnRef, ComparisonOp, Condition,
    CteMaterialization, CteNode, DbType, DbValue, DeleteNode, Expr, FromItem, InsertNode,
    InsertSource, JoinKind, JoinNode, JsonPathExpr, JsonPathMode, JsonPathSegment,
    JsonPredicateOp, JsonPredicateValue, LockBehavior, LockClause, LockStrength, Numeric,
    OnConflictAction, OnConflictNode, OnConflictTarget, OnConflictUpdate, OrderBy, QueryAst,
    QueryBody, SelectItem, SelectNode, SetOperationNode, SetOperator, TableRef, UpdateNode,
    WindowFrame, WindowFrameBound, WindowFrameUnits, WindowSpec,
};
use foundry_db::builders::Sql;
use foundry_db::compiler::{validate_custom_operator, validate_extract_field, CompiledSql, PostgresCompiler};

fn compile(ast: QueryAst) -> CompiledSql {
    PostgresCompiler::compile(&ast).unwrap()
}

#[test]
fn extract_field_is_validated_against_known_fields() {
    assert!(validate_extract_field("year").is_ok());
    assert!(validate_extract_field("EPOCH").is_ok());
    assert!(validate_extract_field("timezone_hour").is_ok());
    assert!(validate_extract_field("year FROM now()); DROP TABLE users; --").is_err());
    assert!(validate_extract_field("").is_err());
}

#[test]
fn custom_operator_rejects_injection_shaped_input() {
    assert!(validate_custom_operator("->>").is_ok());
    assert!(validate_custom_operator("@>").is_ok());
    assert!(validate_custom_operator("ILIKE").is_ok());
    assert!(validate_custom_operator("IS DISTINCT FROM").is_ok());
    assert!(validate_custom_operator("").is_err());
    assert!(validate_custom_operator("= 1; DROP TABLE users; --").is_err());
    assert!(validate_custom_operator("--").is_err());
    assert!(validate_custom_operator("/*").is_err());
    assert!(validate_custom_operator("= (SELECT 1)").is_err());
}

#[test]
fn compiles_select_with_join_and_nested_conditions() {
    let ast = QueryAst::select(SelectNode {
        from: FromItem::Table(TableRef::new("users")),
        distinct: false,
        columns: vec![
            SelectItem::new(Expr::column(ColumnRef::new("users", "id"))),
            SelectItem::new(Expr::column(ColumnRef::new("users", "email"))),
        ],
        joins: vec![JoinNode {
            kind: JoinKind::Left,
            table: FromItem::Table(TableRef::new("profiles")),
            lateral: false,
            on: Some(Condition::compare(
                Expr::column(ColumnRef::new("profiles", "user_id")),
                ComparisonOp::Eq,
                Expr::column(ColumnRef::new("users", "id")),
            )),
        }],
        condition: Some(Condition::and(vec![
            Condition::compare(
                Expr::column(ColumnRef::new("users", "active")),
                ComparisonOp::Eq,
                Expr::value(true),
            ),
            Condition::or(vec![
                Condition::compare(
                    Expr::column(ColumnRef::new("users", "role")),
                    ComparisonOp::Eq,
                    Expr::value("admin"),
                ),
                Condition::compare(
                    Expr::column(ColumnRef::new("users", "role")),
                    ComparisonOp::Eq,
                    Expr::value("editor"),
                ),
            ]),
        ])),
        group_by: Vec::new(),
        having: None,
        order_by: vec![OrderBy::desc(Expr::column(ColumnRef::new("users", "id")))],
        limit: Some(20),
        offset: Some(40),
        lock: None,
        relations: Vec::new(),
        aggregates: Vec::new(),
    });

    let compiled = compile(ast);
    assert_eq!(
        compiled.sql,
        "SELECT \"users\".\"id\", \"users\".\"email\" FROM \"users\" LEFT JOIN \"profiles\" ON \"profiles\".\"user_id\" = \"users\".\"id\" WHERE (\"users\".\"active\" = $1::boolean AND (\"users\".\"role\" = $2::text OR \"users\".\"role\" = $3::text)) ORDER BY \"users\".\"id\" DESC LIMIT $4::bigint OFFSET $5::bigint"
    );
}

#[test]
fn raw_condition_requires_exact_binding_count() {
    let ast = QueryAst::select(SelectNode {
        from: FromItem::Table(TableRef::new("users")),
        distinct: false,
        columns: vec![SelectItem::new(Expr::column(ColumnRef::new("users", "id")))],
        joins: Vec::new(),
        condition: Some(Condition::raw(
            "email = ? AND status = ?",
            vec![DbValue::Text("a@example.com".to_string())],
        )),
        group_by: Vec::new(),
        having: None,
        order_by: Vec::new(),
        limit: None,
        offset: None,
        lock: None,
        relations: Vec::new(),
        aggregates: Vec::new(),
    });

    let error = PostgresCompiler::compile(&ast).unwrap_err();

    assert!(error.to_text()
        .contains("raw condition placeholder count mismatch: expected 2 bindings, got 1"));
}

#[test]
fn raw_condition_rejects_extra_bindings() {
    let ast = QueryAst::select(SelectNode {
        from: FromItem::Table(TableRef::new("users")),
        distinct: false,
        columns: vec![SelectItem::new(Expr::column(ColumnRef::new("users", "id")))],
        joins: Vec::new(),
        condition: Some(Condition::raw(
            "email = ?",
            vec![
                DbValue::Text("a@example.com".to_string()),
                DbValue::Text("active".to_string()),
            ],
        )),
        group_by: Vec::new(),
        having: None,
        order_by: Vec::new(),
        limit: None,
        offset: None,
        lock: None,
        relations: Vec::new(),
        aggregates: Vec::new(),
    });

    let error = PostgresCompiler::compile(&ast).unwrap_err();

    assert!(error.to_text()
        .contains("raw condition placeholder count mismatch: expected 1 bindings, got 2"));
}

#[test]
fn compiles_full_text_condition() {
    let compiled = compile(QueryAst::select(
        SelectNode::from(TableRef::new("users"))
            .select(Expr::column(ColumnRef::new("users", "id")))
            .where_(Condition::full_text(
                vec![
                    ColumnRef::new("users", "name"),
                    ColumnRef::new("users", "email"),
                ],
                "alice",
            )),
    ));

    assert_eq!(
        compiled.sql,
        "SELECT \"users\".\"id\" FROM \"users\" WHERE to_tsvector('english'::regconfig, COALESCE(\"users\".\"name\"::text, '') || ' ' || COALESCE(\"users\".\"email\"::text, '')) @@ plainto_tsquery('english'::regconfig, $1::text)"
    );
}

#[test]
fn full_text_condition_with_no_columns_compiles_false() {
    let compiled = compile(QueryAst::select(
        SelectNode::from(TableRef::new("users"))
            .select(Expr::column(ColumnRef::new("users", "id")))
            .where_(Condition::full_text(Vec::<ColumnRef>::new(), "alice")),
    ));

    assert_eq!(
        compiled.sql,
        "SELECT \"users\".\"id\" FROM \"users\" WHERE FALSE"
    );
}

#[test]
fn empty_boolean_condition_groups_compile_to_identity_values() {
    let and_compiled = compile(QueryAst::select(
        SelectNode::from(TableRef::new("users"))
            .select(Expr::column(ColumnRef::new("users", "id")))
            .where_(Condition::and(Vec::<Condition>::new())),
    ));
    let or_compiled = compile(QueryAst::select(
        SelectNode::from(TableRef::new("users"))
            .select(Expr::column(ColumnRef::new("users", "id")))
            .where_(Condition::or(Vec::<Condition>::new())),
    ));

    assert_eq!(
        and_compiled.sql,
        "SELECT \"users\".\"id\" FROM \"users\" WHERE TRUE"
    );
    assert_eq!(
        or_compiled.sql,
        "SELECT \"users\".\"id\" FROM \"users\" WHERE FALSE"
    );
}

#[test]
fn compiles_insert_update_and_delete() {
    let insert = compile(QueryAst::insert(InsertNode {
        into: TableRef::new("users"),
        source: InsertSource::Values(vec![vec![
            (
                ColumnRef::new("users", "email"),
                Expr::value("foundry@example.com"),
            ),
            (ColumnRef::new("users", "active"), Expr::value(true)),
        ]]),
        on_conflict: None,
        returning: vec![SelectItem::new(Expr::column(ColumnRef::new("users", "id")))],
    }));
    assert_eq!(
        insert.sql,
        "INSERT INTO \"users\" (\"email\", \"active\") VALUES ($1::text, $2::boolean) RETURNING \"users\".\"id\""
    );

    let update = compile(QueryAst::update(UpdateNode {
        table: TableRef::new("users"),
        values: vec![(
            ColumnRef::new("users", "email"),
            Expr::value("updated@example.com"),
        )],
        from: Vec::new(),
        condition: Some(Condition::compare(
            Expr::column(ColumnRef::new("users", "id")),
            ComparisonOp::Eq,
            Expr::value(1_i64),
        )),
        returning: vec![],
    }));
    assert_eq!(
        update.sql,
        "UPDATE \"users\" SET \"email\" = $1::text WHERE \"users\".\"id\" = $2::bigint"
    );

    let delete = compile(QueryAst::delete(DeleteNode {
        from: TableRef::new("users"),
        using: Vec::new(),
        condition: Some(Condition::compare(
            Expr::column(ColumnRef::new("users", "id")),
            ComparisonOp::Eq,
            Expr::value(7_i64),
        )),
        returning: vec![],
    }));
    assert_eq!(
        delete.sql,
        "DELETE FROM \"users\" WHERE \"users\".\"id\" = $1::bigint"
    );
}

#[test]
fn compiles_right_full_and_cross_joins() {
    let ast = QueryAst::select(SelectNode {
        from: FromItem::Table(TableRef::new("users")),
        distinct: false,
        columns: vec![SelectItem::new(Expr::column(ColumnRef::new("users", "id")))],
        joins: vec![
            JoinNode {
                kind: JoinKind::Right,
                table: FromItem::Table(TableRef::new("profiles")),
                lateral: false,
                on: Some(Condition::compare(
                    Expr::column(ColumnRef::new("profiles", "user_id")),
                    ComparisonOp::Eq,
                    Expr::column(ColumnRef::new("users", "id")),
                )),
            },
            JoinNode {
                kind: JoinKind::Full,
                table: FromItem::Table(TableRef::new("teams")),
                lateral: false,
                on: Some(Condition::compare(
                    Expr::column(ColumnRef::new("teams", "owner_id")),
                    ComparisonOp::Eq,
                    Expr::column(ColumnRef::new("users", "id")),
                )),
            },
            JoinNode {
                kind: JoinKind::Cross,
                table: FromItem::Table(TableRef::new("regions")),
                lateral: false,
                on: None,
            },
        ],
        condition: None,
        group_by: Vec::new(),
        having: None,
        order_by: Vec::new(),
        limit: None,
        offset: None,
        lock: None,
        relations: Vec::new(),
        aggregates: Vec::new(),
    });

    let compiled = compile(ast);
    assert_eq!(
        compiled.sql,
        "SELECT \"users\".\"id\" FROM \"users\" RIGHT JOIN \"profiles\" ON \"profiles\".\"user_id\" = \"users\".\"id\" FULL OUTER JOIN \"teams\" ON \"teams\".\"owner_id\" = \"users\".\"id\" CROSS JOIN \"regions\""
    );
}

#[test]
fn compiles_multi_row_insert_and_on_conflict() {
    let compiled = compile(QueryAst::insert(InsertNode {
        into: TableRef::new("users"),
        source: InsertSource::Values(vec![
            vec![
                (ColumnRef::new("users", "id"), Expr::value(1_i64)),
                (
                    ColumnRef::new("users", "email"),
                    Expr::value("first@example.com"),
                ),
            ],
            vec![
                (
                    ColumnRef::new("users", "email"),
                    Expr::value("second@example.com"),
                ),
                (ColumnRef::new("users", "id"), Expr::value(2_i64)),
            ],
        ]),
        on_conflict: Some(OnConflictNode {
            target: Some(OnConflictTarget::Columns(vec![ColumnRef::new(
                "users", "email",
            )])),
            action: OnConflictAction::DoUpdate(Box::new(OnConflictUpdate {
                assignments: vec![(
                    ColumnRef::new("users", "email"),
                    Expr::excluded(ColumnRef::new("users", "email")),
                )],
                condition: Some(Condition::compare(
                    Expr::column(ColumnRef::new("users", "active")),
                    ComparisonOp::Eq,
                    Expr::value(true),
                )),
            })),
        }),
        returning: vec![SelectItem::new(Expr::column(ColumnRef::new("users", "id")))],
    }));

    assert_eq!(
        compiled.sql,
        "INSERT INTO \"users\" (\"id\", \"email\") VALUES ($1::bigint, $2::text), ($3::bigint, $4::text) ON CONFLICT (\"email\") DO UPDATE SET \"email\" = EXCLUDED.\"email\" WHERE \"users\".\"active\" = $5::boolean RETURNING \"users\".\"id\""
    );
}

#[test]
fn compiles_group_by_having_and_aggregate_projections() {
    let compiled = compile(QueryAst::select(SelectNode {
        from: FromItem::Table(TableRef::new("orders")),
        distinct: false,
        columns: vec![SelectItem::new(Expr::column(ColumnRef::new(
            "orders",
            "merchant_id",
        )))],
        joins: Vec::new(),
        condition: None,
        group_by: vec![Expr::column(ColumnRef::new("orders", "merchant_id"))],
        having: Some(Condition::compare(
            Expr::Aggregate(AggregateExpr::sum(Expr::column(ColumnRef::new(
                "orders", "total",
            )))),
            ComparisonOp::Gt,
            Expr::value(100_i64),
        )),
        order_by: Vec::new(),
        limit: None,
        offset: None,
        lock: None,
        relations: Vec::new(),
        aggregates: vec![AggregateNode::sum(
            Expr::column(ColumnRef::new("orders", "total").typed(DbType::Numeric)),
            "total_amount",
        )],
    }));

    assert_eq!(
        compiled.sql,
        "SELECT \"orders\".\"merchant_id\", (SUM(\"orders\".\"total\"))::text AS \"total_amount\" FROM \"orders\" GROUP BY \"orders\".\"merchant_id\" HAVING SUM(\"orders\".\"total\") > $1::bigint"
    );
}

#[test]
fn compiles_case_json_cte_and_union() {
    let make_left = || QueryAst::select(SelectNode {
        from: FromItem::Table(TableRef::new("users")),
        distinct: false,
        columns: vec![
            SelectItem::new(CaseExpr {
                whens: vec![CaseWhen {
                    condition: Condition::compare(
                        Expr::column(ColumnRef::new("users", "active")),
                        ComparisonOp::Eq,
                        Expr::value(true),
                    ),
                    result: Box::new(Expr::value("active")),
                }],
                else_expr: Some(Box::new(Expr::value("inactive"))),
            })
            .aliased("status_label"),
            SelectItem::new(JsonPathExpr {
                expr: Box::new(Expr::column(
                    ColumnRef::new("users", "metadata").typed(DbType::Json),
                )),
                path: vec![JsonPathSegment::Key("profile".to_string())],
                mode: JsonPathMode::Json,
            })
            .aliased("profile"),
        ],
        joins: Vec::new(),
        condition: Some(Condition::json(
            Expr::column(ColumnRef::new("users", "metadata").typed(DbType::Json)),
            JsonPredicateOp::HasKey,
            JsonPredicateValue::Key("profile".to_string()),
        )),
        group_by: Vec::new(),
        having: None,
        order_by: Vec::new(),
        limit: None,
        offset: None,
        lock: None,
        relations: Vec::new(),
        aggregates: Vec::new(),
    });
    let right = QueryAst::select(SelectNode {
        from: FromItem::Table(TableRef::new("archived_users")),
        distinct: false,
        columns: vec![
            SelectItem::new(Expr::value("archived")).aliased("status_label"),
            SelectItem::new(Expr::column(
                ColumnRef::new("archived_users", "profile").typed(DbType::Json),
            ))
            .aliased("profile"),
        ],
        joins: Vec::new(),
        condition: None,
        group_by: Vec::new(),
        having: None,
        order_by: Vec::new(),
        limit: None,
        offset: None,
        lock: None,
        relations: Vec::new(),
        aggregates: Vec::new(),
    });

    let compiled = compile(QueryAst {
        with: vec![CteNode {
            name: "recent_users".to_string(),
            query: Box::new(make_left()),
            recursive: false,
            materialization: Some(CteMaterialization::Materialized),
        }],
        body: QueryBody::SetOperation(Box::new(SetOperationNode {
            left: Box::new(QueryAst::select(SelectNode {
                from: FromItem::Table(TableRef::new("recent_users")),
                distinct: false,
                columns: vec![
                    SelectItem::new(Expr::column(ColumnRef::bare("status_label"))),
                    SelectItem::new(Expr::column(
                        ColumnRef::bare("profile").typed(DbType::Json),
                    )),
                ],
                joins: Vec::new(),
                condition: None,
                group_by: Vec::new(),
                having: None,
                order_by: Vec::new(),
                limit: None,
                offset: None,
                lock: None,
                relations: Vec::new(),
                aggregates: Vec::new(),
            })),
            operator: SetOperator::UnionAll,
            right: Box::new(right),
            order_by: vec![OrderBy::asc("status_label")],
            limit: Some(10),
            offset: None,
        })),
    });

    assert_eq!(
        compiled.sql,
        "WITH \"recent_users\" AS MATERIALIZED (SELECT CASE WHEN \"users\".\"active\" = $1::boolean THEN $2::text ELSE $3::text END AS \"status_label\", (\"users\".\"metadata\") -> $4::text AS \"profile\" FROM \"users\" WHERE \"users\".\"metadata\" ? $5::text) (SELECT \"status_label\", \"profile\" FROM \"recent_users\") UNION ALL (SELECT $6::text AS \"status_label\", \"archived_users\".\"profile\" AS \"profile\" FROM \"archived_users\") ORDER BY \"status_label\" ASC LIMIT $7::bigint"
    );
}

#[test]
fn compiles_numeric_and_distinct_aggregates() {
    let compiled = compile(QueryAst::select(SelectNode {
        from: FromItem::Table(TableRef::new("payments")),
        distinct: false,
        columns: Vec::new(),
        joins: Vec::new(),
        condition: None,
        group_by: Vec::new(),
        having: None,
        order_by: Vec::new(),
        limit: None,
        offset: None,
        lock: None,
        relations: Vec::new(),
        aggregates: vec![
            AggregateNode::count_distinct(
                Expr::column(ColumnRef::new("payments", "merchant_id")),
                "merchant_count",
            ),
            AggregateNode::avg(
                Expr::column(ColumnRef::new("payments", "amount").typed(DbType::Numeric)),
                "avg_amount",
            ),
            AggregateNode::min(
                Expr::column(ColumnRef::new("payments", "amount").typed(DbType::Numeric)),
                "min_amount",
            ),
            AggregateNode::max(
                Expr::column(ColumnRef::new("payments", "amount").typed(DbType::Numeric)),
                "max_amount",
            ),
        ],
    }));

    assert_eq!(
        compiled.sql,
        "SELECT COUNT(DISTINCT \"payments\".\"merchant_id\") AS \"merchant_count\", (AVG(\"payments\".\"amount\"))::text AS \"avg_amount\", (MIN(\"payments\".\"amount\"))::text AS \"min_amount\", (MAX(\"payments\".\"amount\"))::text AS \"max_amount\" FROM \"payments\""
    );
}

#[test]
fn compiles_aliased_numeric_projection_casts_before_alias() {
    let compiled = compile(QueryAst::select(SelectNode {
        from: FromItem::Table(TableRef::new("users")),
        distinct: false,
        columns: vec![SelectItem::new(Expr::column(
            ColumnRef::new("users", "credit_1")
                .typed(DbType::Numeric)
                .aliased("credit_1"),
        ))],
        joins: Vec::new(),
        condition: None,
        group_by: Vec::new(),
        having: None,
        order_by: Vec::new(),
        limit: None,
        offset: None,
        lock: None,
        relations: Vec::new(),
        aggregates: Vec::new(),
    }));

    assert_eq!(
        compiled.sql,
        "SELECT (\"users\".\"credit_1\")::text AS \"credit_1\" FROM \"users\""
    );
}

#[test]
fn null_bindings_keep_their_type_information() {
    let compiled = compile(QueryAst::select(SelectNode {
        from: FromItem::Table(TableRef::new("users")),
        distinct: false,
        columns: vec![SelectItem::new(Expr::column(ColumnRef::new("users", "id")))],
        joins: Vec::new(),
        condition: Some(Condition::compare(
            Expr::column(ColumnRef::new("users", "deleted_at")),
            ComparisonOp::Eq,
            Expr::value(DbValue::Null(DbType::Text)),
        )),
        group_by: Vec::new(),
        having: None,
        order_by: Vec::new(),
        limit: None,
        offset: None,
        lock: None,
        relations: Vec::new(),
        aggregates: Vec::new(),
    }));

    assert_eq!(
        compiled.sql,
        "SELECT \"users\".\"id\" FROM \"users\" WHERE \"users\".\"deleted_at\" = $1::text"
    );
    assert_eq!(compiled.bindings, vec![DbValue::Null(DbType::Text)]);

    let numeric = Numeric::new("123.45").unwrap();
    assert_eq!(numeric.as_str(), "123.45");
}

#[test]
fn compiles_case_insensitive_equality_operator() {
    let compiled = compile(QueryAst::select(SelectNode {
        from: FromItem::Table(TableRef::new("users")),
        distinct: false,
        columns: vec![SelectItem::new(Expr::column(ColumnRef::new("users", "id")))],
        joins: Vec::new(),
        condition: Some(Condition::compare(
            Expr::column(ColumnRef::new("users", "email")),
            ComparisonOp::IEq,
            Expr::value("Test@Example.com"),
        )),
        group_by: Vec::new(),
        having: None,
        order_by: Vec::new(),
        limit: None,
        offset: None,
        lock: None,
        relations: Vec::new(),
        aggregates: Vec::new(),
    }));

    assert_eq!(
        compiled.sql,
        "SELECT \"users\".\"id\" FROM \"users\" WHERE LOWER(\"users\".\"email\") = LOWER($1::text)"
    );
    assert_eq!(
        compiled.bindings,
        vec![DbValue::Text("Test@Example.com".into())]
    );
}

#[test]
fn compiles_typed_cast_expressions() {
    let compiled = compile(QueryAst::select(SelectNode {
        from: FromItem::Table(TableRef::new("users")),
        distinct: false,
        columns: vec![
            SelectItem::new(Expr::cast_text(ColumnRef::new("users", "id"))).aliased("id"),
        ],
        joins: Vec::new(),
        condition: None,
        group_by: Vec::new(),
        having: None,
        order_by: Vec::new(),
        limit: None,
        offset: None,
        lock: None,
        relations: Vec::new(),
        aggregates: Vec::new(),
    }));

    assert_eq!(
        compiled.sql,
        r#"SELECT ("users"."id")::text AS "id" FROM "users""#
    );
    assert!(compiled.bindings.is_empty());
}

#[test]
fn compiles_lock_clauses_and_lateral_joins() {
    let compiled = compile(QueryAst::select(SelectNode {
        from: FromItem::Table(TableRef::new("users").aliased("u")),
        distinct: false,
        columns: vec![SelectItem::new(Expr::column(ColumnRef::new("u", "id")))],
        joins: vec![JoinNode {
            kind: JoinKind::Left,
            table: FromItem::subquery(
                QueryAst::select(SelectNode {
                    from: FromItem::Table(TableRef::new("orders").aliased("o")),
                    distinct: false,
                    columns: vec![SelectItem::new(Expr::column(ColumnRef::new(
                        "o", "user_id",
                    )))],
                    joins: Vec::new(),
                    condition: None,
                    group_by: Vec::new(),
                    having: None,
                    order_by: Vec::new(),
                    limit: Some(1),
                    offset: None,
                    lock: None,
                    relations: Vec::new(),
                    aggregates: Vec::new(),
                }),
                "recent_orders",
            ),
            lateral: true,
            on: Some(Condition::compare(
                Expr::column(ColumnRef::new("recent_orders", "user_id")),
                ComparisonOp::Eq,
                Expr::column(ColumnRef::new("u", "id")),
            )),
        }],
        condition: None,
        group_by: Vec::new(),
        having: None,
        order_by: Vec::new(),
        limit: None,
        offset: None,
        lock: Some(LockClause {
            strength: LockStrength::Update,
            of: vec!["u".to_string()],
            behavior: LockBehavior::SkipLocked,
        }),
        relations: Vec::new(),
        aggregates: Vec::new(),
    }));

    assert_eq!(
        compiled.sql,
        "SELECT \"u\".\"id\" FROM \"users\" AS \"u\" LEFT JOIN LATERAL (SELECT \"o\".\"user_id\" FROM \"orders\" AS \"o\" LIMIT $1::bigint) AS \"recent_orders\" ON \"recent_orders\".\"user_id\" = \"u\".\"id\" FOR UPDATE OF \"u\" SKIP LOCKED"
    );
}

#[test]
fn compiles_insert_select_update_from_and_delete_using() {
    let insert = compile(QueryAst::insert(InsertNode {
        into: TableRef::new("user_archive"),
        source: InsertSource::Select(Box::new(QueryAst::select(SelectNode {
            from: FromItem::Table(TableRef::new("users")),
            distinct: false,
            columns: vec![
                SelectItem::new(Expr::column(ColumnRef::bare("id"))),
                SelectItem::new(Expr::column(ColumnRef::bare("email"))),
            ],
            joins: Vec::new(),
            condition: Some(Condition::compare(
                Expr::column(ColumnRef::bare("active")),
                ComparisonOp::Eq,
                Expr::value(false),
            )),
            group_by: Vec::new(),
            having: None,
            order_by: Vec::new(),
            limit: None,
            offset: None,
            lock: None,
            relations: Vec::new(),
            aggregates: Vec::new(),
        }))),
        on_conflict: None,
        returning: Vec::new(),
    }));
    assert_eq!(
        insert.sql,
        "INSERT INTO \"user_archive\" (\"id\", \"email\") SELECT \"id\", \"email\" FROM \"users\" WHERE \"active\" = $1::boolean"
    );

    let update = compile(QueryAst::update(UpdateNode {
        table: TableRef::new("merchants"),
        values: vec![(
            ColumnRef::new("merchants", "name"),
            Expr::column(ColumnRef::new("users", "email")),
        )],
        from: vec![FromItem::Table(TableRef::new("users"))],
        condition: Some(Condition::compare(
            Expr::column(ColumnRef::new("merchants", "user_id")),
            ComparisonOp::Eq,
            Expr::column(ColumnRef::new("users", "id")),
        )),
        returning: vec![],
    }));
    assert_eq!(
        update.sql,
        "UPDATE \"merchants\" SET \"name\" = \"users\".\"email\" FROM \"users\" WHERE \"merchants\".\"user_id\" = \"users\".\"id\""
    );

    let delete = compile(QueryAst::delete(DeleteNode {
        from: TableRef::new("merchants"),
        using: vec![FromItem::Table(TableRef::new("users"))],
        condition: Some(Condition::compare(
            Expr::column(ColumnRef::new("merchants", "user_id")),
            ComparisonOp::Eq,
            Expr::column(ColumnRef::new("users", "id")),
        )),
        returning: vec![],
    }));
    assert_eq!(
        delete.sql,
        "DELETE FROM \"merchants\" USING \"users\" WHERE \"merchants\".\"user_id\" = \"users\".\"id\""
    );
}

#[test]
fn compiles_functions_subqueries_and_windows() {
    let compiled = compile(QueryAst::select(SelectNode {
        from: FromItem::Table(TableRef::new("payments")),
        distinct: false,
        columns: vec![
            SelectItem::new(Expr::function(
                "COALESCE",
                vec![
                    Expr::column(ColumnRef::new("payments", "nickname")),
                    Expr::value("guest"),
                ],
            ))
            .aliased("display_name"),
            SelectItem::new(Expr::function(
                "LOWER",
                vec![Expr::column(ColumnRef::new("payments", "email"))],
            ))
            .aliased("email_lower"),
            SelectItem::new(Expr::function(
                "DATE_TRUNC",
                vec![
                    Expr::value("day"),
                    Expr::column(
                        ColumnRef::new("payments", "created_at").typed(DbType::TimestampTz),
                    ),
                ],
            ))
            .aliased("created_day"),
            SelectItem::new(Expr::function(
                "EXTRACT",
                vec![
                    Expr::value("epoch"),
                    Expr::column(
                        ColumnRef::new("payments", "created_at").typed(DbType::TimestampTz),
                    ),
                ],
            ))
            .aliased("created_epoch"),
            SelectItem::new(Expr::window(
                Expr::function("ROW_NUMBER", Vec::new()),
                WindowSpec {
                    partition_by: vec![Expr::column(ColumnRef::new("payments", "merchant_id"))],
                    order_by: vec![OrderBy::desc(Expr::column(ColumnRef::new(
                        "payments",
                        "created_at",
                    )))],
                    frame: Some(WindowFrame {
                        units: WindowFrameUnits::Rows,
                        start: WindowFrameBound::UnboundedPreceding,
                        end: Some(WindowFrameBound::CurrentRow),
                    }),
                },
            ))
            .aliased("row_number"),
            SelectItem::new(Expr::subquery(QueryAst::select(SelectNode {
                from: FromItem::Table(TableRef::new("refunds")),
                distinct: false,
                columns: vec![SelectItem::new(Expr::Aggregate(AggregateExpr::count_all()))],
                joins: Vec::new(),
                condition: Some(Condition::compare(
                    Expr::column(ColumnRef::new("refunds", "payment_id")),
                    ComparisonOp::Eq,
                    Expr::column(ColumnRef::new("payments", "id")),
                )),
                group_by: Vec::new(),
                having: None,
                order_by: Vec::new(),
                limit: None,
                offset: None,
                lock: None,
                relations: Vec::new(),
                aggregates: Vec::new(),
            })))
            .aliased("refund_count"),
        ],
        joins: Vec::new(),
        condition: None,
        group_by: Vec::new(),
        having: None,
        order_by: Vec::new(),
        limit: None,
        offset: None,
        lock: None,
        relations: Vec::new(),
        aggregates: Vec::new(),
    }));

    assert_eq!(
        compiled.sql,
        "SELECT COALESCE(\"payments\".\"nickname\", $1::text) AS \"display_name\", LOWER(\"payments\".\"email\") AS \"email_lower\", DATE_TRUNC($2::text, \"payments\".\"created_at\") AS \"created_day\", EXTRACT(epoch FROM \"payments\".\"created_at\") AS \"created_epoch\", ROW_NUMBER() OVER (PARTITION BY \"payments\".\"merchant_id\" ORDER BY \"payments\".\"created_at\" DESC ROWS BETWEEN UNBOUNDED PRECEDING AND CURRENT ROW) AS \"row_number\", (SELECT COUNT(*) FROM \"refunds\" WHERE \"refunds\".\"payment_id\" = \"payments\".\"id\") AS \"refund_count\" FROM \"payments\""
    );
}

#[test]
fn select_node_builder_compiles_scalar_subqueries() {
    let compiled = compile(QueryAst::select(
        SelectNode::from(TableRef::new("tags")).select_as(
            Expr::subquery(
                SelectNode::from(TableRef::new("contact_tags"))
                    .select(Sql::count_all())
                    .where_(Condition::compare(
                        Expr::column(ColumnRef::new("contact_tags", "tag_id")),
                        ComparisonOp::Eq,
                        Expr::column(ColumnRef::new("tags", "id")),
                    )),
            ),
            "contact_count",
        ),
    ));

    assert_eq!(
        compiled.sql,
        "SELECT (SELECT COUNT(*) FROM \"contact_tags\" WHERE \"contact_tags\".\"tag_id\" = \"tags\".\"id\") AS \"contact_count\" FROM \"tags\""
    );
}

#[test]
fn compiles_json_text_or_first_helper() {
    let compiled = compile(QueryAst::select(
        SelectNode::from(TableRef::new("voucher_claims")).select_as(
            Sql::json_text_or_first(
                Expr::column(ColumnRef::new("voucher_claims", "voucher_snapshot"))
                    .json()
                    .key("name")
                    .as_json(),
                "en",
            ),
            "voucher_name",
        ),
    ));

    assert_eq!(
        compiled.sql,
        "SELECT COALESCE(((\"voucher_claims\".\"voucher_snapshot\") -> $1::text)->>$2::text, (SELECT value FROM jsonb_each_text((\"voucher_claims\".\"voucher_snapshot\") -> $1::text) LIMIT 1)) AS \"voucher_name\" FROM \"voucher_claims\""
    );
}

#[test]
fn comparison_operators_display_their_sql_spelling() {
    assert_eq!(ComparisonOp::Eq.to_text(), "=");
    assert_eq!(ComparisonOp::IEq.to_text(), "IEQ");
    assert_eq!(ComparisonOp::NotEq.to_text(), "<>");
    assert_eq!(ComparisonOp::NotLike.to_text(), "NOT LIKE");
    assert_eq!(ComparisonOp::ILike.to_text(), "ILIKE");
}

#[test]
fn every_binding_is_referred_to_by_its_numbered_placeholder() {
    let select = SelectNode::from(TableRef::new("users"))
        .where_(Condition::compare(
            Expr::column(ColumnRef::new("users", "email")),
            ComparisonOp::Eq,
            Expr::value("a@example.com"),
        ))
        .where_(Condition::InList {
            expr: Expr::column(ColumnRef::new("users", "id")),
            values: vec![DbValue::Int64(1), DbValue::Bool(true)],
        })
        .limit(10);
    let compiled = compile(QueryAst::select(select));
    assert_eq!(compiled.bindings.len(), 4);
    for placeholder in ["$1::text", "$2::bigint", "$3::boolean", "$4::bigint"] {
        assert!(compiled.sql.contains(placeholder), "{} lacks {}", compiled.sql, placeholder);
    }
    assert!(!compiled.sql.contains("$5"));
}

#[test]
fn each_dollar_sign_begins_the_placeholder_of_its_binding() {
    let select = SelectNode::from(TableRef::new("users"))
        .where_(Condition::compare(
            Expr::column(ColumnRef::new("users", "email")),
            ComparisonOp::Eq,
            Expr::value("a@example.com"),
        ))
        .limit(5);
    let compiled = compile(QueryAst::select(select));
    let starts: Vec<usize> = compiled.sql.match_indices('$').map(|(i, _)| i).collect();
    assert_eq!(starts.len(), compiled.bindings.len());
    for (k, at) in starts.iter().enumerate() {
        assert!(compiled.sql[*at..].starts_with(&format!("${}::", k + 1)));
    }
}

#[test]
fn compile_errors_carry_only_a_message() {
    let error = PostgresCompiler::compile(&QueryAst::update(UpdateNode {
        table: TableRef::new("users"),
        values: vec![],
        from: vec![],
        condition: None,
        returning: vec![],
    }))
    .unwrap_err();
    assert_eq!(error.message, "update query requires at least one value");
    assert!(error.status.is_none());
    assert!(error.code.is_none());
}
