use memvid::lookup::{memvid_get_frame, GetFrameRequest};
use memvid::paging::{memvid_timeline, TimelineRequest};
use memvid::respond::{memvid_search, SearchRequestInput};
use memvid::store::FrameStore;
use memvid::tools::{
    memvid_create, memvid_delete_frame, memvid_put, memvid_update_frame, open_for_write,
    resolve_path, DeleteFrameRequest, PutContent, PutContentKind, PutOptionsInput, PutRequest,
    UpdateFrameRequest,
};

fn text_put(text: &str, uri: Option<&str>, mime: Option<&str>) -> PutRequest {
    PutRequest {
        content: PutContent {
            kind: PutContentKind::Text,
            text: Some(text.to_string()),
            data_base64: None,
            mime: mime.map(|m| m.to_string()),
        },
        options: uri.map(|u| PutOptionsInput {
            uri: Some(u.to_string()),
            ..PutOptionsInput::default()
        }),
        commit: Some(true),
        create_if_missing: Some(false),
    }
}

fn page(limit: u64, cursor: Option<&str>) -> TimelineRequest {
    TimelineRequest {
        limit: Some(limit),
        since: None,
        until: None,
        reverse: None,
        cursor: cursor.map(|c| c.to_string()),
    }
}

fn get_by_id(frame_id: u64, payload: bool) -> GetFrameRequest {
    GetFrameRequest { frame_id: Some(frame_id), uri: None, include_payload_base64: Some(payload) }
}

fn decode(text: &str) -> Vec<u8> {
    base64::Engine::decode(&base64::engine::general_purpose::STANDARD, text).expect("decode payload")
}

#[test]
fn test_memvid_crud_tools() {
    let path_string = "crud.mv2".to_string();
    let (mut store, create) = memvid_create(&path_string, false, Some(true)).expect("create");
    assert_eq!(create.path, path_string);

    let put = memvid_put(
        &mut store,
        text_put("hello world", Some("mv2://tests/crud"), Some("text/plain")),
        1_700_000_000,
    )
    .expect("put");
    assert!(put.seq_no > 0);
    assert!(put.committed);

    let timeline = memvid_timeline(&store, &page(10, None)).expect("timeline");
    assert!(!timeline.entries.is_empty());
    let frame_id = timeline.entries[0].frame_id;

    let get = memvid_get_frame(&store, &get_by_id(frame_id, true)).expect("get");
    assert_eq!(get.frame.status, "active");
    assert_eq!(get.frame.metadata.expect("metadata").mime.as_deref(), Some("text/plain"));
    let payload = decode(&get.payload_base64.expect("payload"));
    assert_eq!(payload, b"hello world");

    let search = memvid_search(
        &store,
        SearchRequestInput {
            query: "hello".to_string(),
            top_k: Some(5),
            snippet_chars: None,
            uri: None,
            scope: None,
            cursor: None,
            no_sketch: None,
            as_of_frame: None,
            as_of_ts: None,
        },
        &None,
        0,
    )
    .expect("search");
    assert!(!search.hits.is_empty());
    assert!(search.hits.iter().any(|hit| hit.frame_id == frame_id));
    assert!(search.hits.iter().all(|hit| hit.matches >= 1));

    let update = memvid_update_frame(
        &mut store,
        UpdateFrameRequest {
            frame_id,
            text: Some("updated".to_string()),
            data_base64: None,
            options: None,
            commit: Some(true),
        },
        1_700_000_001,
    )
    .expect("update");
    assert_eq!(update.frame_id, frame_id);
    assert!(update.seq_no > put.seq_no);

    let get_updated = memvid_get_frame(
        &store,
        &GetFrameRequest {
            frame_id: None,
            uri: Some("mv2://tests/crud".to_string()),
            include_payload_base64: Some(true),
        },
    )
    .expect("get updated");
    let updated_frame_id = get_updated.frame.frame_id;
    assert_ne!(updated_frame_id, frame_id);
    assert_eq!(get_updated.frame.status, "active");
    let updated_payload = decode(&get_updated.payload_base64.expect("updated payload"));
    assert_eq!(updated_payload, b"updated");

    let old = memvid_get_frame(&store, &get_by_id(frame_id, false)).expect("get old");
    assert_eq!(old.frame.status, "superseded");

    let delete = memvid_delete_frame(
        &mut store,
        DeleteFrameRequest { frame_id: updated_frame_id, commit: Some(true) },
        1_700_000_002,
    )
    .expect("delete");
    assert_eq!(delete.frame_id, updated_frame_id);
    assert!(delete.seq_no > update.seq_no);

    let get_deleted =
        memvid_get_frame(&store, &get_by_id(updated_frame_id, false)).expect("get deleted");
    assert_eq!(get_deleted.frame.status, "deleted");
}

#[test]
fn test_default_path_env_fallback() {
    let path_string = "default-path.mv2".to_string();
    let (mut store, _) = memvid_create(&path_string, false, Some(true)).expect("create");
    memvid_put(&mut store, text_put("env fallback", None, None), 10).expect("put");

    let resolved = resolve_path(None, Some(path_string.clone())).expect("fallback path");
    assert_eq!(resolved, path_string);
    let store = open_for_write(&resolved, Some(store), false).expect("open");
    let timeline = memvid_timeline(&store, &page(10, None)).expect("timeline");
    assert!(!timeline.entries.is_empty());
}

#[test]
fn test_missing_default_path_errors() {
    let result = resolve_path(None, None);
    let err = match result {
        Ok(_) => panic!("missing path error"),
        Err(err) => err,
    };
    assert!(err.contains("path is required"));
}

#[test]
fn test_timeline_invalid_cursor() {
    let (store, _) = memvid_create("cursor.mv2", false, Some(true)).expect("create");
    let result = memvid_timeline(&store, &page(10, Some("bad-cursor")));
    let err = match result {
        Ok(_) => panic!("invalid cursor"),
        Err(err) => err,
    };
    assert!(err.contains("invalid cursor"));
}

#[test]
fn test_put_invalid_base64() {
    let (mut store, _) = memvid_create("base64.mv2", false, Some(true)).expect("create");
    let result = memvid_put(
        &mut store,
        PutRequest {
            content: PutContent {
                kind: PutContentKind::Base64,
                text: None,
                data_base64: Some("not_base64??".to_string()),
                mime: None,
            },
            options: None,
            commit: Some(true),
            create_if_missing: Some(false),
        },
        0,
    );
    let err = match result {
        Ok(_) => panic!("invalid base64"),
        Err(err) => err,
    };
    assert!(err.contains("invalid base64 payload"));
    assert!(err.len() > "invalid base64 payload: ".len());
    assert_eq!(store.frame_count(), 0);
}

#[test]
fn put_accepts_base64_content() {
    let mut store = FrameStore::new();
    let put = memvid_put(
        &mut store,
        PutRequest {
            content: PutContent {
                kind: PutContentKind::Base64,
                text: None,
                data_base64: Some("aGVsbG8gd29ybGQ=".to_string()),
                mime: None,
            },
            options: None,
            commit: None,
            create_if_missing: None,
        },
        5,
    )
    .expect("put");
    assert_eq!(put.seq_no, 1);
    assert!(put.committed);
    assert_eq!(store.frame_canonical_payload(0), Ok(b"hello world".to_vec()));
    let get = memvid_get_frame(&store, &get_by_id(0, true)).expect("get");
    assert_eq!(get.payload_base64.as_deref(), Some("aGVsbG8gd29ybGQ="));
    assert_eq!(get.frame.search_text.as_deref(), Some("hello world"));
}

#[test]
fn put_content_must_match_its_kind() {
    let mut store = FrameStore::new();
    let request = |kind, text: Option<&str>, data: Option<&str>| PutRequest {
        content: PutContent {
            kind,
            text: text.map(|t| t.to_string()),
            data_base64: data.map(|t| t.to_string()),
            mime: None,
        },
        options: None,
        commit: None,
        create_if_missing: None,
    };
    assert_eq!(
        memvid_put(&mut store, request(PutContentKind::Text, Some("a"), Some("YQ==")), 0),
        Err("content.data_base64 must be empty when kind=text".to_string())
    );
    assert_eq!(
        memvid_put(&mut store, request(PutContentKind::Text, None, None), 0),
        Err("content.text is required when kind=text".to_string())
    );
    assert_eq!(
        memvid_put(&mut store, request(PutContentKind::Base64, Some("a"), Some("YQ==")), 0),
        Err("content.text must be empty when kind=base64".to_string())
    );
    assert_eq!(
        memvid_put(&mut store, request(PutContentKind::Base64, None, None), 0),
        Err("content.data_base64 is required when kind=base64".to_string())
    );
    assert_eq!(store.frame_count(), 0);
}

#[test]
fn uncommitted_put_is_dropped_by_rollback() {
    let mut store = FrameStore::new();
    let mut request = text_put("kept", Some("u1"), None);
    memvid_put(&mut store, request.clone(), 1).expect("first");
    request.commit = Some(false);
    request.content.text = Some("pending".to_string());
    request.options = None;
    let put = memvid_put(&mut store, request, 2).expect("second");
    assert!(!put.committed);
    assert_eq!(store.frame_count(), 2);
    store.rollback();
    assert_eq!(store.frame_count(), 1);
    assert_eq!(store.last_seq(), 1);
}

#[test]
fn update_takes_one_payload_at_most() {
    let mut store = FrameStore::new();
    memvid_put(&mut store, text_put("one", Some("u"), None), 1).expect("put");
    let both = memvid_update_frame(
        &mut store,
        UpdateFrameRequest {
            frame_id: 0,
            text: Some("a".to_string()),
            data_base64: Some("YQ==".to_string()),
            options: None,
            commit: None,
        },
        2,
    );
    assert_eq!(both, Err("provide only one of text or data_base64".to_string()));
    let bad = memvid_update_frame(
        &mut store,
        UpdateFrameRequest {
            frame_id: 0,
            text: None,
            data_base64: Some("???".to_string()),
            options: None,
            commit: None,
        },
        2,
    );
    assert!(bad.unwrap_err().starts_with("invalid base64 payload: "));
    let missing = memvid_update_frame(
        &mut store,
        UpdateFrameRequest {
            frame_id: 9,
            text: Some("a".to_string()),
            data_base64: None,
            options: None,
            commit: None,
        },
        2,
    );
    assert_eq!(missing, Err("frame not found".to_string()));
    let metadata_only = memvid_update_frame(
        &mut store,
        UpdateFrameRequest {
            frame_id: 0,
            text: None,
            data_base64: None,
            options: Some(PutOptionsInput {
                title: Some("Title".to_string()),
                ..PutOptionsInput::default()
            }),
            commit: None,
        },
        3,
    )
    .expect("metadata update");
    assert_eq!(metadata_only.seq_no, 2);
    let current = store.frame_by_uri("u").expect("current");
    assert_eq!(current.id, 1);
    assert_eq!(current.title.as_deref(), Some("Title"));
    assert_eq!(current.search_text.as_deref(), Some("one"));
    assert_eq!(store.frame_canonical_payload(1), Ok(b"one".to_vec()));
}

#[test]
fn delete_of_a_missing_frame_is_refused() {
    let mut store = FrameStore::new();
    assert_eq!(
        memvid_delete_frame(&mut store, DeleteFrameRequest { frame_id: 0, commit: None }, 5),
        Err("frame not found".to_string())
    );
}

#[test]
fn get_frame_needs_exactly_one_key() {
    let store = FrameStore::new();
    let neither = GetFrameRequest { frame_id: None, uri: None, include_payload_base64: None };
    let both = GetFrameRequest {
        frame_id: Some(0),
        uri: Some("u".to_string()),
        include_payload_base64: None,
    };
    for request in [neither, both] {
        assert_eq!(
            memvid_get_frame(&store, &request).map(|r| r.frame.frame_id),
            Err("provide exactly one of frame_id or uri".to_string())
        );
    }
    assert_eq!(
        memvid_get_frame(&store, &get_by_id(3, false)).map(|r| r.frame.frame_id),
        Err("frame not found".to_string())
    );
}

#[test]
fn create_refuses_an_existing_container_without_overwrite() {
    assert_eq!(
        memvid_create("m.mv2", true, None).map(|c| c.1.path),
        Err("memvid file already exists at m.mv2".to_string())
    );
    assert_eq!(
        memvid_create("m.mv2", true, Some(false)).map(|c| c.1.path),
        Err("memvid file already exists at m.mv2".to_string())
    );
    let (store, response) = memvid_create("m.mv2", true, Some(true)).expect("overwrite");
    assert_eq!(store.frame_count(), 0);
    assert_eq!(response.version, "0.1.0");
}

#[test]
fn open_for_write_creates_only_on_request() {
    assert_eq!(
        open_for_write("x.mv2", None, false).map(|s| s.frame_count()),
        Err("memvid file not found at x.mv2".to_string())
    );
    assert_eq!(open_for_write("x.mv2", None, true).map(|s| s.frame_count()), Ok(0));
    let mut found = FrameStore::new();
    memvid_put(&mut found, text_put("a", None, None), 1).expect("put");
    assert_eq!(open_for_write("x.mv2", Some(found), false).map(|s| s.frame_count()), Ok(1));
}

#[test]
fn resolve_path_trims_and_falls_back() {
    assert_eq!(resolve_path(Some("  a.mv2\n".to_string()), None), Ok("a.mv2".to_string()));
    assert_eq!(
        resolve_path(Some("   ".to_string()), Some(" b.mv2 ".to_string())),
        Ok("b.mv2".to_string())
    );
    assert_eq!(
        resolve_path(Some("a.mv2".to_string()), Some("b.mv2".to_string())),
        Ok("a.mv2".to_string())
    );
    assert_eq!(
        resolve_path(None, Some("  ".to_string())),
        Err("path is required or set MEMVID_DEFAULT_PATH".to_string())
    );
}

#[test]
fn input_options_override_the_defaults() {
    let options = PutOptionsInput {
        timestamp: Some(7),
        tags: Some(vec!["a".to_string(), "b".to_string()]),
        extra_metadata: Some(vec![("k".to_string(), "v".to_string())]),
        dedup: Some(true),
        extraction_budget_ms: Some(250),
        ..PutOptionsInput::default()
    }
    .into_put_options();
    assert_eq!(options.timestamp, Some(7));
    assert_eq!(options.tags, vec!["a", "b"]);
    assert!(options.labels.is_empty());
    assert_eq!(options.extra_metadata, vec![("k".to_string(), "v".to_string())]);
    assert!(options.dedup);
    assert!(!options.no_raw);
    assert_eq!(options.extraction_budget_ms, 250);
    assert!(options.metadata.is_none());
    let blank = PutOptionsInput::default().into_put_options();
    assert!(blank.uri.is_none() && blank.tags.is_empty() && !blank.dedup);
    assert_eq!(blank.extraction_budget_ms, 0);
}
