use foundry_db::relation::{
    infer_collection_relation_name, infer_singular_relation_name, relation_basename,
    singularize_relation_name, BelongsToForeignKey, distribute_related_rows,
    first_key_parent_indices, many_to_many_load_error, relation_callback_panic_error,
    relation_key_text, relation_load_error,
};
use foundry_db::ast::{DbType, DbValue};
use foundry_db::Error;

#[test]
fn infers_collection_relation_names_from_table_names() {
    assert_eq!(infer_collection_relation_name("merchants"), "merchants");
    assert_eq!(
        infer_collection_relation_name("public.order_items"),
        "order_items"
    );
}

#[test]
fn infers_singular_relation_names_from_plural_table_names() {
    assert_eq!(infer_singular_relation_name("countries"), "country");
    assert_eq!(
        infer_singular_relation_name("public.categories"),
        "category"
    );
    assert_eq!(infer_singular_relation_name("products"), "product");
}

#[test]
fn singularizes_sibilant_plurals_and_keeps_double_s() {
    assert_eq!(singularize_relation_name("addresses"), "address");
    assert_eq!(singularize_relation_name("wishes"), "wish");
    assert_eq!(singularize_relation_name("batches"), "batch");
    assert_eq!(singularize_relation_name("boxes"), "box");
    assert_eq!(singularize_relation_name("quizzes"), "quizz");
    assert_eq!(singularize_relation_name("glass"), "glass");
    assert_eq!(singularize_relation_name("status"), "statu");
    assert_eq!(singularize_relation_name("sheep"), "sheep");
    assert_eq!(singularize_relation_name("s"), "");
}

#[test]
fn basename_takes_text_after_last_dot() {
    assert_eq!(relation_basename("a.b.c"), "c");
    assert_eq!(relation_basename("trailing."), "");
    assert_eq!(relation_basename("plain"), "plain");
}

fn accepts_foreign_key<ForeignKey: BelongsToForeignKey<i64>>(_key: ForeignKey) -> bool {
    true
}

#[test]
fn belongs_to_foreign_keys_may_be_the_key_or_its_option() {
    assert!(accepts_foreign_key(7_i64));
    assert!(accepts_foreign_key(Some(7_i64)));
    assert!(accepts_foreign_key(None::<i64>));
}

fn key(value: &str) -> Option<String> {
    Some(value.to_string())
}

#[test]
fn each_relation_key_is_asked_for_once() {
    let keys = vec![key("7"), None, key("3"), key("7"), key("3"), key("9")];
    assert_eq!(first_key_parent_indices(&keys), vec![0, 2, 5]);
    assert_eq!(first_key_parent_indices(&Vec::new()), Vec::<usize>::new());
}

#[test]
fn related_rows_reach_every_parent_with_their_key() {
    let keys = vec![key("1"), key("2"), None, key("1"), key("3")];
    let rows = vec![
        ("1".to_string(), "a"),
        ("2".to_string(), "b"),
        ("1".to_string(), "c"),
        ("4".to_string(), "orphan"),
    ];
    let distributed = distribute_related_rows(&keys, rows);
    assert_eq!(
        distributed,
        vec![vec!["a", "c"], vec!["b"], vec![], vec!["a", "c"], vec![]]
    );
}

#[test]
fn relation_load_errors_name_the_relation_target_and_action() {
    let cause = Error::message("connection reset".to_string());
    assert_eq!(
        relation_load_error("posts", "posts", "load related models", &cause).to_text(),
        "relation `posts` failed to load related models from target `posts`: connection reset"
    );
    assert_eq!(
        many_to_many_load_error("roles", "roles", "role_user", "fetch related records", &cause).to_text(),
        "many-to-many relation `roles` failed to fetch related records from target `roles` via pivot `role_user`: connection reset"
    );
    assert_eq!(
        relation_callback_panic_error("relation parent key callback", "boom").to_text(),
        "relation parent key callback panicked: boom"
    );
}

#[test]
fn relation_keys_name_the_kind_and_the_value() {
    assert_eq!(relation_key_text(&DbValue::Int64(7)), Some("i64:7".to_string()));
    assert_eq!(relation_key_text(&DbValue::Int16(-3)), Some("i16:-3".to_string()));
    assert_eq!(relation_key_text(&DbValue::Bool(true)), Some("bool:true".to_string()));
    assert_eq!(relation_key_text(&DbValue::Null(DbType::Text)), Some("null:Text".to_string()));
    assert_eq!(relation_key_text(&DbValue::Text("ada".to_string())), Some("text:ada".to_string()));
    assert_eq!(
        relation_key_text(&DbValue::Uuid(1)),
        Some("uuid:00000000-0000-0000-0000-000000000001".to_string())
    );
    assert_eq!(relation_key_text(&DbValue::Bytea(vec![1, 2, 3])), Some("bytea:3".to_string()));
}

#[test]
fn relation_keys_of_lists_print_their_items() {
    assert_eq!(relation_key_text(&DbValue::Int16Array(vec![1, -2])), Some("i16[]:[1, -2]".to_string()));
    assert_eq!(relation_key_text(&DbValue::Int64Array(vec![])), Some("i64[]:[]".to_string()));
    assert_eq!(
        relation_key_text(&DbValue::BoolArray(vec![true, false])),
        Some("bool[]:[true, false]".to_string())
    );
}

#[test]
fn relation_keys_of_floats_are_left_to_the_caller() {
    assert_eq!(relation_key_text(&DbValue::Float64(0)), None);
    assert_eq!(relation_key_text(&DbValue::TextArray(vec!["a".to_string()])), None);
}
