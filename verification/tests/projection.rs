use foundry_db::ast::{DbType, Expr};
use foundry_db::projection::{
    projection_hydration_panic_error, source_select_items, ProjectionField, ProjectionFieldInfo,
};

#[test]
fn projection_fields_select_their_source_columns_under_their_aliases() {
    let fields = [
        ProjectionFieldInfo::new("id", DbType::Uuid),
        ProjectionFieldInfo::from_source("display_name", "name", DbType::Text),
    ];
    let items = source_select_items(&fields, "u").unwrap();
    assert_eq!(items.len(), 2);

    let columns: Vec<(Option<String>, String, Option<String>, Option<DbType>)> = items
        .iter()
        .map(|item| match &item.expr {
            Expr::Column(column) => (
                column.table.clone(),
                column.name.clone(),
                column.alias.clone(),
                column.db_type,
            ),
            _ => panic!("a projection field selects a column"),
        })
        .collect();
    assert_eq!(
        columns,
        vec![
            (Some("u".to_string()), "id".to_string(), Some("id".to_string()), Some(DbType::Uuid)),
            (
                Some("u".to_string()),
                "name".to_string(),
                Some("display_name".to_string()),
                Some(DbType::Text)
            ),
        ]
    );
    assert!(items.iter().all(|item| item.alias.is_none()));
}

#[test]
fn projection_field_refs_and_panic_errors() {
    let field: ProjectionField<(), String> = ProjectionField::from_source("title", "headline", DbType::Text);
    assert_eq!(field.alias(), "title");
    assert_eq!(field.db_type(), DbType::Text);
    let column = field.column_ref_from("p");
    assert_eq!(column.table.as_deref(), Some("p"));
    assert_eq!(column.name, "headline");
    assert_eq!(
        projection_hydration_panic_error("PostCard", "boom").to_text(),
        "projection `PostCard` hydration panicked: boom"
    );
}
