use foundry_db::config::DatabaseConfig;
use foundry_db::pagination::{
    pagination_from_pairs, pagination_from_query, pagination_link, parse_pagination_query_value,
    parse_u64, CursorInfo, CursorMeta, CursorPaginated, CursorPagination, Paginated, Pagination,
    PaginationLinks, PaginationMeta, decode_cursor, finish_cursor_page, plan_cursor_fetch,
    CursorBound, invalid_cursor_value_error,
};

#[test]
fn pagination_config_helpers_use_database_default_per_page() {
    let config = DatabaseConfig {
        default_per_page: 50,
        ..DatabaseConfig::default()
    };

    assert_eq!(
        Pagination::from_config(&config, None, None),
        Pagination::new(1, 50)
    );
    assert_eq!(
        Pagination::from_config(&config, Some(3), None),
        Pagination::new(3, 50)
    );
    assert_eq!(
        Pagination::from_config(&config, Some(3), Some(25)),
        Pagination::new(3, 25)
    );
}

#[test]
fn pagination_query_parser_uses_configured_default_and_rejects_invalid_values() {
    assert_eq!(
        pagination_from_query(None, 40).unwrap(),
        Pagination::new(1, 40)
    );
    assert_eq!(
        pagination_from_query(Some("search=active&page=2"), 40).unwrap(),
        Pagination::new(2, 40)
    );
    assert_eq!(
        pagination_from_query(Some("page=0&per_page=0"), 40).unwrap(),
        Pagination::new(1, 1)
    );

    let error = pagination_from_query(Some("page=soon"), 40).unwrap_err();
    assert_eq!(
        error.to_text(),
        "invalid pagination query parameter `page`: expected unsigned integer, got `soon`"
    );
}

#[test]
fn paginated_meta_and_links_are_framework_owned() {
    let paginated = Paginated {
        data: vec![1, 2],
        pagination: Pagination::new(2, 10),
        total: 25,
    };

    assert_eq!(
        paginated.meta(),
        PaginationMeta {
            current_page: 2,
            per_page: 10,
            total: 25,
            last_page: 3,
        }
    );
    assert_eq!(
        paginated.links("/users"),
        PaginationLinks {
            next: Some("/users?page=3&per_page=10".to_string()),
            prev: Some("/users?page=1&per_page=10".to_string()),
        }
    );
    assert_eq!(
        paginated.links("/users?search=active&sort=name&page=2&per_page=25#results"),
        PaginationLinks {
            next: Some("/users?search=active&sort=name&page=3&per_page=10#results".to_string()),
            prev: Some("/users?search=active&sort=name&page=1&per_page=10#results".to_string()),
        }
    );

    let empty = Paginated {
        data: Vec::<i32>::new(),
        pagination: Pagination::new(1, 10),
        total: 0,
    };

    assert_eq!(
        empty.meta(),
        PaginationMeta {
            current_page: 1,
            per_page: 10,
            total: 0,
            last_page: 1,
        }
    );
    assert_eq!(
        empty.links("/users"),
        PaginationLinks {
            next: None,
            prev: None,
        }
    );

    let response = paginated.map_response("/users", |value| format!("user-{value}"));
    assert_eq!(response.data, vec!["user-1", "user-2"]);
    assert_eq!(
        response.meta,
        PaginationMeta {
            current_page: 2,
            per_page: 10,
            total: 25,
            last_page: 3,
        }
    );
    assert_eq!(
        response.links,
        PaginationLinks {
            next: Some("/users?page=3&per_page=10".to_string()),
            prev: Some("/users?page=1&per_page=10".to_string()),
        }
    );
}

#[test]
fn pagination_new_clamps_zero_to_one_and_defaults() {
    assert_eq!(Pagination::new(0, 0), Pagination { page: 1, per_page: 1 });
    assert_eq!(Pagination::default(), Pagination { page: 1, per_page: 15 });
    assert_eq!(
        Pagination::from_options_with_default_per_page(None, None, 20),
        Pagination { page: 1, per_page: 20 }
    );
}

#[test]
fn pagination_offset_skips_earlier_pages() {
    assert_eq!(Pagination::new(1, 25).offset(), 0);
    assert_eq!(Pagination::new(3, 25).offset(), 50);
}

#[test]
fn last_page_rounds_partial_pages_up() {
    let exact = Paginated { data: Vec::<u8>::new(), pagination: Pagination::new(1, 10), total: 30 };
    assert_eq!(exact.meta().last_page, 3);
    let partial = Paginated { data: Vec::<u8>::new(), pagination: Pagination::new(1, 10), total: 31 };
    assert_eq!(partial.meta().last_page, 4);
    let last = Paginated { data: Vec::<u8>::new(), pagination: Pagination::new(4, 10), total: 31 };
    assert_eq!(
        last.links("/items"),
        PaginationLinks { next: None, prev: Some("/items?page=3&per_page=10".to_string()) }
    );
}

#[test]
fn pagination_link_drops_empty_and_page_parameters() {
    assert_eq!(pagination_link("/a?&page=9&&x=1&per_page", 2, 5), "/a?x=1&page=2&per_page=5");
    assert_eq!(pagination_link("/a#frag", 1, 5), "/a?page=1&per_page=5#frag");
    assert_eq!(pagination_link("/a?pagex=1&q#f", 1, 5), "/a?pagex=1&q&page=1&per_page=5#f");
}

#[test]
fn parse_u64_follows_std_parse() {
    assert_eq!(parse_u64("42"), Some(42));
    assert_eq!(parse_u64("+7"), Some(7));
    assert_eq!(parse_u64("18446744073709551615"), Some(u64::MAX));
    assert_eq!(parse_u64("18446744073709551616"), None);
    assert_eq!(parse_u64(""), None);
    assert_eq!(parse_u64("+"), None);
    assert_eq!(parse_u64("-1"), None);
    assert_eq!(parse_u64("1 "), None);
}

#[test]
fn invalid_pagination_value_is_a_client_error() {
    let error = parse_pagination_query_value("per_page", "ten").unwrap_err();
    assert_eq!(error.status, Some(400));
    assert_eq!(error.code.as_deref(), Some("invalid_pagination"));
    assert_eq!(
        error.to_text(),
        "invalid pagination query parameter `per_page`: expected unsigned integer, got `ten`"
    );
    assert_eq!(parse_pagination_query_value("page", "3").unwrap(), 3);
}

#[test]
fn later_query_pairs_override_earlier_ones() {
    let pairs = vec![
        ("page".to_string(), "2".to_string()),
        ("page".to_string(), "5".to_string()),
        ("per_page".to_string(), "30".to_string()),
    ];
    assert_eq!(pagination_from_pairs(&pairs, 15).unwrap(), Pagination::new(5, 30));
    assert_eq!(
        pagination_from_query(Some("per_page=%33%30&page=2"), 15).unwrap(),
        Pagination::new(2, 30)
    );
}

#[test]
fn cursor_pagination_builders_and_cursor_encoding() {
    let cursor = CursorPagination::new(0).after("abc").before("xyz");
    assert_eq!(cursor.per_page, 1);
    assert_eq!(cursor.after.as_deref(), Some("abc"));
    assert_eq!(cursor.before.as_deref(), Some("xyz"));

    assert_eq!(CursorPaginated::<u8>::encode_cursor("abc"), "YWJj");
    assert_eq!(CursorPaginated::<u8>::encode_cursor("id:42"), "aWQ6NDI");

    let page = CursorPaginated {
        data: vec![1u8],
        meta: CursorMeta { has_next: true, has_prev: false, per_page: 10 },
        cursors: CursorInfo { next: None, prev: None },
    }
    .with_cursors(Some("1"), Some("42"));
    assert_eq!(page.cursors.next.as_deref(), Some("NDI"));
    assert_eq!(page.cursors.prev, None);
}

#[test]
fn cursors_decode_back_to_their_values() {
    let cursor = CursorPaginated::<u8>::encode_cursor("id:42");
    assert_eq!(decode_cursor(&cursor).unwrap(), "id:42");
    assert_eq!(decode_cursor("YWJj").unwrap(), "abc");
    assert!(decode_cursor("***")
        .unwrap_err()
        .to_text()
        .starts_with("invalid cursor: "));
    // "/w" decodes to the single byte 0xff, which is not UTF-8.
    assert!(decode_cursor("_w")
        .unwrap_err()
        .to_text()
        .starts_with("invalid cursor encoding: "));
}

#[test]
fn cursor_fetch_prefers_the_after_cursor() {
    let fetch = plan_cursor_fetch(&CursorPagination::new(10));
    assert_eq!(fetch.bound, None);
    assert!(fetch.ascending);
    assert_eq!(fetch.limit, 11);

    let fetch = plan_cursor_fetch(&CursorPagination::new(10).before("b"));
    assert_eq!(fetch.bound, Some(CursorBound::Before("b".to_string())));
    assert!(!fetch.ascending);

    let fetch = plan_cursor_fetch(&CursorPagination::new(10).before("b").after("a"));
    assert_eq!(fetch.bound, Some(CursorBound::After("a".to_string())));
    assert!(fetch.ascending);
}

#[test]
fn cursor_pages_drop_the_extra_row_and_restore_order() {
    let forward = finish_cursor_page(&CursorPagination::new(2), vec![1, 2, 3]);
    assert_eq!(forward.data, vec![1, 2]);
    assert_eq!(
        forward.meta,
        CursorMeta {
            has_next: true,
            has_prev: false,
            per_page: 2
        }
    );

    let after = finish_cursor_page(&CursorPagination::new(2).after("x"), vec![4]);
    assert_eq!(after.data, vec![4]);
    assert!(!after.meta.has_next);
    assert!(after.meta.has_prev);

    let backward = finish_cursor_page(&CursorPagination::new(2).before("x"), vec![9, 8, 7]);
    assert_eq!(backward.data, vec![8, 9]);
    assert!(backward.meta.has_next);
    assert!(backward.meta.has_prev);

    let first = finish_cursor_page(&CursorPagination::new(2).before("x"), vec![9]);
    assert_eq!(first.data, vec![9]);
    assert!(!first.meta.has_prev);
    assert_eq!(first.cursors, CursorInfo { next: None, prev: None });
}

#[test]
fn responses_borrow_the_page_rows_with_meta_and_links() {
    let paginated = Paginated {
        data: vec!["a".to_string(), "b".to_string()],
        pagination: Pagination::new(2, 2),
        total: 5,
    };
    let response = paginated.to_response("/items?sort=name");
    assert_eq!(response.data, vec![&"a".to_string(), &"b".to_string()]);
    assert_eq!(response.meta.last_page, 3);
    assert_eq!(
        response.links.next.as_deref(),
        Some("/items?sort=name&page=3&per_page=2")
    );
    assert_eq!(
        response.links.prev.as_deref(),
        Some("/items?sort=name&page=1&per_page=2")
    );
}

#[test]
fn unparsable_cursor_text_is_an_invalid_cursor_value() {
    let text = decode_cursor(&CursorPaginated::<u8>::encode_cursor("forty-two")).unwrap();
    let error = match text.parse::<u64>() {
        Ok(_) => panic!("not a number"),
        Err(_) => invalid_cursor_value_error(),
    };
    assert_eq!(error.to_text(), "invalid cursor value");
}
