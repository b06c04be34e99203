use foundry_db::ast::DbValue;
use foundry_db::extensions::{
    is_blank, model_record_ids, uuid_array_from_ids, MetaRow, MetadataCacheShape,
    ModelExtensionCache, TranslationCacheShape,
};
use foundry_db::record::DbRecord;

type Cache = ModelExtensionCache<String, String, String>;

fn ids(values: &[&str]) -> Vec<String> {
    values.iter().map(|value| value.to_string()).collect()
}

fn owned(owner: &str, row: &str) -> (String, String) {
    (owner.to_string(), row.to_string())
}

fn meta(owner: &str, key: &str, value: &str) -> (String, MetaRow<String>) {
    (
        owner.to_string(),
        MetaRow {
            key: key.to_string(),
            row: value.to_string(),
        },
    )
}

#[test]
fn stored_attachments_are_read_back_per_model() {
    let mut cache = Cache::new();
    assert_eq!(cache.cached_attachments("users", "avatar", "1"), None);

    cache.store_attachments(
        "users",
        "avatar",
        &ids(&["1", "2"]),
        vec![owned("1", "a.png"), owned("3", "ignored.png"), owned("1", "b.png")],
    );

    assert_eq!(
        cache.cached_attachments("users", "avatar", "1"),
        Some(vec!["a.png".to_string(), "b.png".to_string()])
    );
    assert_eq!(cache.cached_attachments("users", "avatar", "2"), Some(Vec::new()));
    assert_eq!(cache.cached_attachments("users", "avatar", "3"), None);
    assert_eq!(cache.cached_attachments("users", "gallery", "1"), None);
}

#[test]
fn an_id_named_twice_in_one_store_keeps_no_rows() {
    let mut cache = Cache::new();
    cache.store_attachments(
        "users",
        "avatar",
        &ids(&["1", "1"]),
        vec![owned("1", "a.png")],
    );
    assert_eq!(cache.cached_attachments("users", "avatar", "1"), Some(Vec::new()));
}

#[test]
fn missing_ids_batch_the_known_models_without_rows() {
    let mut cache = Cache::new();
    cache.register_model_ids("public.users", &ids(&["2", "1", " ", "3"]));

    assert_eq!(cache.known_ids("public.users"), ids(&["1", "2", "3"]));
    assert_eq!(cache.known_ids("users"), ids(&["1", "2", "3"]));

    cache.store_attachments("users", "avatar", &ids(&["2"]), Vec::new());
    assert_eq!(
        cache.missing_attachment_ids_for_known("users", "avatar", "4"),
        ids(&["1", "3", "4"])
    );
    assert_eq!(
        cache.missing_attachment_ids("users", "avatar", &ids(&["5", "2", "1"])),
        ids(&["5", "1"])
    );
    assert_eq!(cache.known_ids("users"), ids(&["1", "2", "3", "4", "5"]));
}

#[test]
fn invalidation_forgets_one_model_or_one_collection() {
    let mut cache = Cache::new();
    cache.store_attachments("users", "avatar", &ids(&["1", "2"]), vec![owned("1", "a.png")]);
    cache.store_attachments("users", "gallery", &ids(&["1"]), vec![owned("1", "g.png")]);

    cache.invalidate_attachment_collection("users", "1", "gallery");
    assert_eq!(cache.cached_attachments("users", "gallery", "1"), None);
    assert_eq!(
        cache.cached_attachments("users", "avatar", "1"),
        Some(vec!["a.png".to_string()])
    );

    cache.invalidate_attachments("users", "1");
    assert_eq!(cache.cached_attachments("users", "avatar", "1"), None);
    assert_eq!(cache.cached_attachments("users", "avatar", "2"), Some(Vec::new()));
}

#[test]
fn translations_are_cached_per_shape() {
    let mut cache = Cache::new();
    let shape = TranslationCacheShape::Locale {
        locale: "ms".to_string(),
    };
    cache.store_translations("posts", shape, &ids(&["1"]), vec![owned("1", "tajuk")]);

    let same = TranslationCacheShape::Locale {
        locale: "ms".to_string(),
    };
    let other = TranslationCacheShape::Field {
        field: "title".to_string(),
    };
    assert_eq!(
        cache.cached_translations("posts", &same, "1"),
        Some(vec!["tajuk".to_string()])
    );
    assert_eq!(cache.cached_translations("posts", &other, "1"), None);
    assert_eq!(
        cache.missing_translation_ids("posts", &other, &ids(&["1"])),
        ids(&["1"])
    );
    assert_eq!(
        cache.missing_translation_ids_for_known("posts", &same, "2"),
        ids(&["2"])
    );

    cache.invalidate_translations("posts", "1");
    assert_eq!(cache.cached_translations("posts", &same, "1"), None);
}

#[test]
fn metadata_loaded_for_every_key_answers_one_key() {
    let mut cache = Cache::new();
    cache.store_metadata(
        "orders",
        MetadataCacheShape::All,
        &ids(&["1"]),
        vec![
            meta("1", "color", "red"),
            meta("1", "size", "xl"),
            meta("1", "color", "blue"),
        ],
    );

    let colors = cache
        .cached_metadata("orders", &MetadataCacheShape::Key("color".to_string()), "1")
        .unwrap();
    let values: Vec<String> = colors.into_iter().map(|row| row.row).collect();
    assert_eq!(values, ids(&["red", "blue"]));

    assert!(cache
        .missing_metadata_ids(
            "orders",
            &MetadataCacheShape::Key("size".to_string()),
            &ids(&["1", "2"])
        )
        .eq(&ids(&["2"])));
    assert_eq!(
        cache.missing_metadata_ids("orders", &MetadataCacheShape::All, &ids(&["1", "2"])),
        ids(&["2"])
    );
    assert_eq!(
        cache.missing_metadata_ids_for_known("orders", &MetadataCacheShape::Key("size".to_string()), "3"),
        ids(&["2", "3"])
    );
    assert!(cache
        .cached_metadata("orders", &MetadataCacheShape::Key("color".to_string()), "2")
        .is_none());

    cache.invalidate_metadata("orders", "1");
    assert!(cache
        .cached_metadata("orders", &MetadataCacheShape::All, "1")
        .is_none());
}

#[test]
fn record_ids_take_text_or_uuid_primary_keys() {
    let mut with_text = DbRecord::new();
    with_text.insert("id", DbValue::Text("7".to_string()));
    let mut with_uuid = DbRecord::new();
    with_uuid.insert("id", DbValue::Uuid(1));
    let mut empty = DbRecord::new();
    empty.insert("id", DbValue::Text(String::new()));
    let mut numeric = DbRecord::new();
    numeric.insert("id", DbValue::Int64(9));
    let records = vec![with_text, with_uuid, empty, numeric, DbRecord::new()];

    assert_eq!(
        model_record_ids(&records, "id"),
        ids(&["7", "00000000-0000-0000-0000-000000000001"])
    );

    let mut cache = Cache::new();
    cache.register_model_records("public.users", "id", &records);
    assert_eq!(
        cache.known_ids("users"),
        ids(&["00000000-0000-0000-0000-000000000001", "7"])
    );
}

#[test]
fn uuid_ids_are_parsed_and_bad_ids_refused() {
    let parsed = uuid_array_from_ids(&ids(&[
        "00000000-0000-0000-0000-000000000001",
        "67e55044-10b1-426f-9247-bb680e5fe0c8",
    ]))
    .unwrap();
    assert_eq!(parsed, vec![1, 0x67e5504410b1426f9247bb680e5fe0c8]);

    let error = uuid_array_from_ids(&ids(&["00000000-0000-0000-0000-000000000001", "nope"]))
        .unwrap_err()
        .to_text();
    assert!(error.starts_with("model extension batching expected UUID id `nope`: "));
}

#[test]
fn blank_ids_are_whitespace_only() {
    assert!(is_blank(""));
    assert!(is_blank(" \t\n"));
    assert!(!is_blank(" 1 "));
}
