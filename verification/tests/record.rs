use foundry_db::ast::{DbType, DbValue};
use foundry_db::record::DbRecord;

#[test]
fn db_record_try_text_helpers_report_missing_and_wrong_types() {
    let mut record = DbRecord::new();
    record.insert("name", DbValue::Text("Foundry".to_string()));
    record.insert("id", DbValue::Uuid(uuid::Uuid::nil().as_u128()));
    record.insert("count", DbValue::Int64(7));

    assert_eq!(record.try_text("name").unwrap(), "Foundry");
    assert_eq!(
        record.try_text_or_uuid("id").unwrap(),
        uuid::Uuid::nil().to_string()
    );
    assert!(record
        .try_text("missing")
        .unwrap_err()
        .to_text()
        .contains("missing"));
    assert!(record
        .try_text("count")
        .unwrap_err()
        .to_text()
        .contains("expected text"));
}

#[test]
fn db_record_keeps_one_value_per_name_in_name_order() {
    let mut record = DbRecord::new();
    record.insert("b", DbValue::Int32(1));
    record.insert("a", DbValue::Bool(true));
    record.insert("b", DbValue::Text("two".to_string()));
    let names: Vec<&str> = record.entries_in_order().iter().map(|(name, _)| name.as_str()).collect();
    assert_eq!(names, vec!["a", "b"]);
    assert_eq!(record.get("b"), Some(&DbValue::Text("two".to_string())));
    assert_eq!(record.get("c"), None);
}

#[test]
fn db_record_text_accessors_fall_back_or_report_the_type() {
    let mut record = DbRecord::new();
    record.insert("id", DbValue::Uuid(0x0123_4567_89ab_cdef_0123_4567_89ab_cdef));
    record.insert("flag", DbValue::Bool(false));
    record.insert("empty", DbValue::Null(DbType::Text));
    assert_eq!(record.text_or_uuid("id"), "01234567-89ab-cdef-0123-456789abcdef");
    assert_eq!(record.text("id"), "");
    assert_eq!(record.optional_text("flag"), None);
    assert_eq!(
        record.try_text_or_uuid("flag").unwrap_err().to_text(),
        "database field `flag` expected text or uuid, got Bool"
    );
    assert_eq!(
        record.try_text("empty").unwrap_err().to_text(),
        "database field `empty` expected text, got Text"
    );
    assert_eq!(
        record.try_text_or_uuid("nope").unwrap_err().to_text(),
        "database field `nope` is missing"
    );
}
