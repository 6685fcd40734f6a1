use media_catalog::error::{joined, map_register_error, map_repo_error, AppError};
use media_catalog::handlers::{
    check_tag_search, classify_upload_field, has_filters, new_tags_from_meta, parse_uuid,
    playlist_text_filter, resolve_user_id, route_playlist_search, route_post_search,
    tag_search_pattern, upload_step, upload_without_file, uuid_or_bad_request, AuthRequest,
    CreatePostMeta, PlaylistSearch, PostSearch, SearchCursorParams, SearchParams,
    SearchQueryParams, TagQueryParams, UploadAction, UploadField, TAG_SEARCH_LIMIT,
};
use media_catalog::keyset::{KeysetCursor, PaginationMode};
use media_catalog::model::{RepoError, TagCategory};
use media_catalog::offset::Cursor;
use media_catalog::query::TagQuery;
use media_catalog::ranking::KeysetDirection;

fn tag_params(must: &[&str], should: &[&str], must_not: &[&str]) -> TagQueryParams {
    TagQueryParams {
        must: must.iter().map(|t| t.to_string()).collect(),
        should: should.iter().map(|t| t.to_string()).collect(),
        must_not: must_not.iter().map(|t| t.to_string()).collect(),
    }
}

fn cursor_params(mode: Option<PaginationMode>) -> SearchCursorParams {
    SearchCursorParams {
        mode,
        page: Some(4),
        last_id: Some(77),
        last_score: Some(2),
        limit: Some(15),
        direction: Some(KeysetDirection::Prev),
    }
}

#[test]
fn constructors_make_the_matching_variant() {
    assert!(matches!(AppError::bad_request("a".to_string()), AppError::BadRequest(m) if m == "a"));
    assert!(matches!(
        AppError::unauthorized("b".to_string()),
        AppError::Unauthorized(m) if m == "b"
    ));
    assert!(matches!(AppError::not_found("c".to_string()), AppError::NotFound(m) if m == "c"));
    assert!(matches!(AppError::conflict("d".to_string()), AppError::Conflict(m) if m == "d"));
    assert!(matches!(
        AppError::internal("db down".to_string()),
        AppError::Internal { public_message, context }
            if public_message == "Internal server error" && context == "db down"
    ));
}

#[test]
fn public_message_hides_the_context() {
    assert_eq!(AppError::bad_request("bad".to_string()).public_message(), "bad");
    assert_eq!(AppError::unauthorized("who".to_string()).public_message(), "who");
    assert_eq!(AppError::not_found("gone".to_string()).public_message(), "gone");
    assert_eq!(AppError::conflict("twice".to_string()).public_message(), "twice");
    assert_eq!(AppError::internal("secret".to_string()).public_message(), "Internal server error");
}

#[test]
fn status_codes_follow_the_variant() {
    assert_eq!(AppError::bad_request(String::new()).status_code(), 400);
    assert_eq!(AppError::unauthorized(String::new()).status_code(), 401);
    assert_eq!(AppError::not_found(String::new()).status_code(), 404);
    assert_eq!(AppError::conflict(String::new()).status_code(), 409);
    assert_eq!(AppError::internal(String::new()).status_code(), 500);
}

#[test]
fn repo_errors_become_client_errors() {
    assert!(matches!(
        map_repo_error(RepoError::NotFound, "Post not found", "posts.get"),
        AppError::NotFound(m) if m == "Post not found"
    ));
    assert!(matches!(
        map_repo_error(RepoError::StorageError, "Post not found", "posts.get"),
        AppError::Internal { public_message, context }
            if public_message == "Internal server error" && context == "posts.get: storage failure"
    ));
}

#[test]
fn register_errors_become_client_errors() {
    assert!(matches!(
        map_register_error(RepoError::StorageError),
        AppError::Conflict(m) if m == "User already exists"
    ));
    assert!(matches!(
        map_register_error(RepoError::NotFound),
        AppError::Internal { context, .. } if context == "users.register impossible not found state"
    ));
}

#[test]
fn joined_puts_one_text_after_the_other() {
    assert_eq!(joined("ab", "cd"), "abcd");
    assert_eq!(joined("", "x"), "x");
    assert_eq!(joined("x", ""), "x");
}

#[test]
fn has_filters_looks_at_all_three_clauses() {
    assert!(!has_filters(&tag_params(&[], &[], &[])));
    assert!(has_filters(&tag_params(&["a"], &[], &[])));
    assert!(has_filters(&tag_params(&[], &["a"], &[])));
    assert!(has_filters(&tag_params(&[], &[], &["a"])));
    assert!(!has_filters(&TagQueryParams::default()));
}

#[test]
fn parse_uuid_reads_the_usual_forms() {
    let expected = 0xa1a2a3a4b1b2c1c2d1d2d3d4d5d6d7d8u128;
    for text in [
        "a1a2a3a4-b1b2-c1c2-d1d2-d3d4d5d6d7d8",
        "a1a2a3a4b1b2c1c2d1d2d3d4d5d6d7d8",
        "A1A2A3A4-B1B2-C1C2-D1D2-D3D4D5D6D7D8",
    ] {
        assert!(matches!(parse_uuid(text, "post id"), Ok(id) if id == expected));
    }
    assert!(matches!(parse_uuid("00000000-0000-0000-0000-000000000000", "post id"), Ok(0)));
    let parsed = uuid::Uuid::parse_str("550e8400-e29b-41d4-a716-446655440000").unwrap();
    assert!(matches!(
        parse_uuid("550e8400-e29b-41d4-a716-446655440000", "file id"),
        Ok(id) if id == parsed.as_u128()
    ));
}

#[test]
fn parse_uuid_names_the_field_it_refuses() {
    assert!(matches!(
        parse_uuid("not-a-uuid", "post id"),
        Err(AppError::BadRequest(m)) if m == "Invalid post id"
    ));
    assert!(matches!(
        parse_uuid("", "playlist id"),
        Err(AppError::BadRequest(m)) if m == "Invalid playlist id"
    ));
    assert!(matches!(
        parse_uuid("a1a2a3a4-b1b2-c1c2-d1d2-d3d4d5d6d7d", "file id"),
        Err(AppError::BadRequest(m)) if m == "Invalid file id"
    ));
}

#[test]
fn uuid_or_bad_request_keeps_what_was_read() {
    assert!(matches!(uuid_or_bad_request(Ok::<u128, ()>(5), "x"), Ok(5)));
    assert!(matches!(
        uuid_or_bad_request(Err::<u128, &str>("broken"), "tag id"),
        Err(AppError::BadRequest(m)) if m == "Invalid tag id"
    ));
}

#[test]
fn user_comes_from_the_session() {
    assert!(matches!(resolve_user_id(None), Err(AppError::Unauthorized(m)) if m == "Unauthorized"));
    assert!(matches!(
        resolve_user_id(Some("00000000-0000-0000-0000-00000000002a")),
        Ok(42)
    ));
    assert!(matches!(
        resolve_user_id(Some("someone")),
        Err(AppError::BadRequest(m)) if m == "Invalid user id"
    ));
}

#[test]
fn post_search_goes_by_mode_and_filters() {
    let all_offset = SearchQueryParams {
        text_query: None,
        tag_query: None,
        cursor: Some(cursor_params(Some(PaginationMode::Offset))),
    };
    assert!(matches!(route_post_search(all_offset), PostSearch::OffsetAll(Cursor { page: 4 })));
    let search_offset = SearchQueryParams {
        text_query: None,
        tag_query: Some(tag_params(&["a"], &["b"], &["c"])),
        cursor: Some(cursor_params(Some(PaginationMode::Offset))),
    };
    match route_post_search(search_offset) {
        PostSearch::OffsetSearch(query, cursor) => {
            assert_eq!(query.must, vec!["a"]);
            assert_eq!(query.should, vec!["b"]);
            assert_eq!(query.must_not, vec!["c"]);
            assert_eq!(cursor, Cursor { page: 4 });
        }
        other => panic!("unexpected route {:?}", other),
    }
    let all_keyset = SearchQueryParams {
        text_query: None,
        tag_query: Some(tag_params(&[], &[], &[])),
        cursor: Some(cursor_params(None)),
    };
    match route_post_search(all_keyset) {
        PostSearch::KeysetAll(cursor) => {
            assert_eq!(cursor.mode, Some(PaginationMode::Keyset));
            assert_eq!(cursor.last_id, Some(77));
            assert_eq!(cursor.last_score, Some(2));
            assert_eq!(cursor.limit, Some(15));
            assert_eq!(cursor.direction, Some(KeysetDirection::Prev));
        }
        other => panic!("unexpected route {:?}", other),
    }
    let search_keyset = SearchQueryParams {
        text_query: Some("ignored for posts".to_string()),
        tag_query: Some(tag_params(&[], &["b"], &[])),
        cursor: None,
    };
    match route_post_search(search_keyset) {
        PostSearch::KeysetSearch(query, cursor) => {
            assert_eq!(query.should, vec!["b"]);
            assert!(query.must.is_empty() && query.must_not.is_empty());
            assert_eq!(cursor.mode, Some(PaginationMode::Keyset));
            assert!(cursor.last_id.is_none() && cursor.limit.is_none());
        }
        other => panic!("unexpected route {:?}", other),
    }
}

#[test]
fn request_without_anything_lists_all_posts_by_keyset() {
    let bare = SearchQueryParams { text_query: None, tag_query: None, cursor: None };
    assert!(matches!(route_post_search(bare), PostSearch::KeysetAll(_)));
}

#[test]
fn offset_page_defaults_to_zero() {
    let params = SearchQueryParams {
        text_query: None,
        tag_query: None,
        cursor: Some(SearchCursorParams {
            mode: Some(PaginationMode::Offset),
            ..SearchCursorParams::default()
        }),
    };
    assert!(matches!(route_post_search(params), PostSearch::OffsetAll(Cursor { page: 0 })));
}

#[test]
fn playlists_refuse_offset_mode() {
    let params = SearchQueryParams {
        text_query: Some("x".to_string()),
        tag_query: None,
        cursor: Some(cursor_params(Some(PaginationMode::Offset))),
    };
    assert!(matches!(
        route_playlist_search(params),
        Err(AppError::BadRequest(m)) if m == "Offset mode doesn't support in playlist"
    ));
}

#[test]
fn playlist_search_goes_by_text_and_tags() {
    let bare = SearchQueryParams { text_query: None, tag_query: None, cursor: None };
    assert!(matches!(route_playlist_search(bare), Ok(PlaylistSearch::All(_))));
    let text_only = SearchQueryParams {
        text_query: Some(" mix".to_string()),
        tag_query: None,
        cursor: Some(cursor_params(None)),
    };
    match route_playlist_search(text_only) {
        Ok(PlaylistSearch::Search(query, cursor)) => {
            assert_eq!(query.text, " mix");
            assert!(query.tags.must.is_empty());
            assert_eq!(cursor.last_id, Some(77));
        }
        other => panic!("unexpected route {:?}", other),
    }
    let tags_only = SearchQueryParams {
        text_query: Some(String::new()),
        tag_query: Some(tag_params(&[], &[], &["c"])),
        cursor: None,
    };
    match route_playlist_search(tags_only) {
        Ok(PlaylistSearch::Search(query, _)) => {
            assert_eq!(query.text, "");
            assert_eq!(query.tags.must_not, vec!["c"]);
        }
        other => panic!("unexpected route {:?}", other),
    }
}

#[test]
fn cursor_params_convert_to_both_cursors() {
    let params = cursor_params(Some(PaginationMode::Offset));
    let keyset = KeysetCursor::from(params);
    assert_eq!(keyset.mode, Some(PaginationMode::Keyset));
    assert_eq!(keyset.last_id, Some(77));
    assert_eq!(keyset.limit, Some(15));
    assert_eq!(Cursor::from(params), Cursor { page: 4 });
    assert_eq!(Cursor::from(SearchCursorParams::default()), Cursor { page: 0 });
    let query = TagQuery::from(tag_params(&["a"], &[], &["c"]));
    assert_eq!(query.must, vec!["a"]);
    assert!(query.should.is_empty());
    assert_eq!(query.must_not, vec!["c"]);
}

#[test]
fn tag_search_needs_a_text() {
    assert_eq!(TAG_SEARCH_LIMIT, 10);
    assert!(matches!(check_tag_search(&SearchParams { query: "ca".to_string() }), Ok(10)));
    assert!(matches!(
        check_tag_search(&SearchParams { query: String::new() }),
        Err(AppError::BadRequest(m)) if m == "No query given"
    ));
}

#[test]
fn upload_tags_are_general() {
    let meta =
        CreatePostMeta { title: "t".to_string(), tags: vec!["a".to_string(), "b".to_string()] };
    let tags = new_tags_from_meta(&meta);
    assert_eq!(tags.len(), 2);
    assert_eq!(tags[0].value, "a");
    assert_eq!(tags[1].value, "b");
    assert_eq!(tags[0].category, TagCategory::General);
    assert_eq!(tags[1].category, TagCategory::General);
    assert!(new_tags_from_meta(&CreatePostMeta { title: String::new(), tags: vec![] }).is_empty());
}

#[test]
fn upload_wants_meta_before_file() {
    assert_eq!(classify_upload_field("meta"), UploadField::Meta);
    assert_eq!(classify_upload_field("file"), UploadField::File);
    assert_eq!(classify_upload_field("Meta"), UploadField::Other);
    assert_eq!(classify_upload_field(""), UploadField::Other);
    assert!(matches!(upload_step(false, UploadField::Meta), Ok(UploadAction::ReadMeta)));
    assert!(matches!(upload_step(true, UploadField::Meta), Ok(UploadAction::ReadMeta)));
    assert!(matches!(upload_step(true, UploadField::File), Ok(UploadAction::StoreFile)));
    assert!(matches!(
        upload_step(false, UploadField::File),
        Err(AppError::BadRequest(m)) if m == "Meta must be before file"
    ));
    assert!(matches!(upload_step(false, UploadField::Other), Ok(UploadAction::Skip)));
    assert!(matches!(upload_without_file(), AppError::BadRequest(m) if m == "Missing file"));
}

#[test]
fn auth_request_makes_the_new_user() {
    let request = AuthRequest::new("ann".to_string(), "pw".to_string());
    assert_eq!(request.username(), "ann");
    assert_eq!(request.password(), "pw");
    let user = request.new_user("hash".to_string());
    assert_eq!(user.username, "ann");
    assert_eq!(user.password_hash, "hash");
}

#[test]
fn tag_pattern_is_the_lowercase_prefix() {
    assert_eq!(tag_search_pattern("Sky"), "sky%");
    assert_eq!(tag_search_pattern(""), "%");
    assert_eq!(tag_search_pattern("ÄB c"), "äb c%");
}

#[test]
fn text_filter_is_off_for_blank_text() {
    let off = playlist_text_filter("  \t ");
    assert!(!off.use_text_filter);
    assert_eq!(off.pattern, "%%");
    let on = playlist_text_filter("  Summer Mix ");
    assert!(on.use_text_filter);
    assert_eq!(on.pattern, "%Summer Mix%");
    assert!(!playlist_text_filter("").use_text_filter);
}
