use memvid::checksum::{checksum, verify_checksum};
use memvid::error::{describe, ErrorKind};
use memvid::frame::{
    canonical_encoding_label, frame_role_label, frame_status_label, CanonicalEncoding, DocMetadata,
    Frame, FrameRole, FrameStatus, Retirement,
};
use memvid::lookup::{checksum_bytes, encode_payload, FrameOutput};
use memvid::options::PutOptions;
use memvid::store::FrameStore;

fn with_uri(uri: &str) -> PutOptions {
    PutOptions { uri: Some(uri.to_string()), ..PutOptions::default() }
}

#[test]
fn digest_is_fnv1a_64() {
    assert_eq!(checksum(b""), 0xcbf29ce484222325);
    assert_eq!(checksum(b"a"), 0xaf63dc4c8601ec8c);
    assert_eq!(checksum(b"hello"), 0xa430d84680aabd0b);
    assert!(verify_checksum(b"hello", 0xa430d84680aabd0b));
    assert!(!verify_checksum(b"hellp", 0xa430d84680aabd0b));
}

#[test]
fn put_round_trips_payload_and_digest() {
    let mut store = FrameStore::new();
    let payload: Vec<u8> = vec![0, 159, 146, 150, 255];
    let seq = store.put(&payload, PutOptions::default(), 42).expect("put");
    assert_eq!(seq, 1);
    let frame = store.frame_by_id(0).expect("frame");
    assert_eq!(frame.id, 0);
    assert_eq!(frame.seq_no, 1);
    assert_eq!(frame.timestamp, 42);
    assert_eq!(frame.role, FrameRole::Document);
    assert_eq!(frame.status, FrameStatus::Active);
    assert_eq!(frame.canonical_encoding, CanonicalEncoding::Plain);
    assert_eq!(frame.canonical_length, None);
    assert_eq!(frame.payload_length, 5);
    assert_eq!(frame.checksum, checksum(&payload));
    assert_eq!(frame.search_text, None);
    assert_eq!(store.frame_canonical_payload(0), Ok(payload));
}

#[test]
fn put_takes_timestamp_and_text_from_the_options() {
    let mut store = FrameStore::new();
    let options = PutOptions {
        timestamp: Some(-7),
        title: Some("T".to_string()),
        kind: Some("note".to_string()),
        track: Some("main".to_string()),
        search_text: Some("indexed words".to_string()),
        tags: vec!["x".to_string()],
        labels: vec!["y".to_string()],
        extra_metadata: vec![("k".to_string(), "v".to_string())],
        metadata: Some(DocMetadata { mime: Some("text/plain".to_string()) }),
        ..PutOptions::default()
    };
    store.put(b"raw text", options, 99).expect("put");
    let frame = store.frame_by_id(0).expect("frame");
    assert_eq!(frame.timestamp, -7);
    assert_eq!(frame.title.as_deref(), Some("T"));
    assert_eq!(frame.kind.as_deref(), Some("note"));
    assert_eq!(frame.track.as_deref(), Some("main"));
    assert_eq!(frame.search_text.as_deref(), Some("indexed words"));
    assert_eq!(frame.tags, vec!["x"]);
    assert_eq!(frame.labels, vec!["y"]);
    assert_eq!(frame.extra_metadata, vec![("k".to_string(), "v".to_string())]);
    assert_eq!(frame.metadata.expect("metadata").mime.as_deref(), Some("text/plain"));
    assert!(frame.content_dates.is_empty());
}

#[test]
fn text_payload_is_its_own_search_text() {
    let mut store = FrameStore::new();
    store.put("héllo 世界".as_bytes(), PutOptions::default(), 0).expect("put");
    assert_eq!(store.frame_by_id(0).expect("frame").search_text.as_deref(), Some("héllo 世界"));
    store.put(&[0xff, 0xfe], PutOptions::default(), 0).expect("put");
    assert_eq!(store.frame_by_id(1).expect("frame").search_text, None);
}

#[test]
fn sequence_numbers_strictly_increase() {
    let mut store = FrameStore::new();
    let a = store.put(b"a", with_uri("u"), 1).expect("put");
    let b = store.update(0, Some(b"b".to_vec()), PutOptions::default(), 2).expect("update");
    let c = store.put(b"c", PutOptions::default(), 3).expect("put");
    let d = store.delete(2, 1000).expect("delete");
    assert_eq!((a, b, c, d), (1, 2, 3, 4));
    assert_eq!(store.last_seq(), 4);
    assert_eq!(store.delete(2, 1000), Err(ErrorKind::NotFound));
    assert_eq!(store.last_seq(), 4);
    assert!(store.has_room());
}

#[test]
fn uri_has_one_active_owner() {
    let mut store = FrameStore::new();
    store.put(b"first", with_uri("u1"), 1).expect("put");
    assert_eq!(store.put(b"second", with_uri("u1"), 2), Err(ErrorKind::UriConflict));
    assert_eq!(store.frame_count(), 1);
    store.put(b"other", with_uri("u2"), 3).expect("put");
    assert_eq!(
        store.update(1, None, with_uri("u1"), 4),
        Err(ErrorKind::UriConflict)
    );
    store.delete(0, 1000).expect("delete");
    store.put(b"third", with_uri("u1"), 5).expect("put after delete");
    let current = store.frame_by_uri("u1").expect("current");
    assert_eq!(current.id, 2);
    assert_eq!(current.status, FrameStatus::Active);
}

#[test]
fn dedup_put_returns_the_existing_write() {
    let mut store = FrameStore::new();
    store.put(b"other", PutOptions::default(), 1).expect("put");
    let first = store.put(b"same", PutOptions::default(), 2).expect("put");
    store.put(b"more", PutOptions::default(), 3).expect("put");
    let dedup = PutOptions { dedup: true, ..PutOptions::default() };
    assert_eq!(store.put(b"same", dedup.clone(), 4), Ok(first));
    assert_eq!(store.frame_count(), 3);
    assert_eq!(store.last_seq(), 3);
    assert_eq!(store.put(b"new", dedup, 5), Ok(4));
    assert_eq!(store.frame_count(), 4);
}

#[test]
fn dedup_put_supersedes_the_owner_of_its_uri() {
    let mut store = FrameStore::new();
    store.put(b"old", with_uri("u"), 1).expect("put");
    let options = PutOptions { dedup: true, ..with_uri("u") };
    assert_eq!(store.put(b"new", options, 2), Ok(2));
    assert_eq!(store.frame_by_id(0).expect("old").status, FrameStatus::Superseded);
    let current = store.frame_by_uri("u").expect("current");
    assert_eq!(current.id, 1);
    assert_eq!(store.frame_canonical_payload(1), Ok(b"new".to_vec()));
}

#[test]
fn malformed_options_are_refused() {
    let mut store = FrameStore::new();
    assert_eq!(store.put(b"x", with_uri(""), 1), Err(ErrorKind::InvalidOptions));
    let twice = PutOptions {
        extra_metadata: vec![
            ("k".to_string(), "1".to_string()),
            ("j".to_string(), "2".to_string()),
            ("k".to_string(), "3".to_string()),
        ],
        ..PutOptions::default()
    };
    assert!(!FrameStore::options_ok(&twice));
    assert_eq!(store.put(b"x", twice.clone(), 1), Err(ErrorKind::InvalidOptions));
    store.put(b"x", PutOptions::default(), 1).expect("put");
    assert_eq!(store.update(0, None, twice, 2), Err(ErrorKind::InvalidOptions));
    assert_eq!(store.frame_count(), 1);
    assert!(FrameStore::options_ok(&with_uri("u")));
}

#[test]
fn delete_leaves_a_tombstone() {
    let mut store = FrameStore::new();
    store.put(b"gone", with_uri("u"), 1).expect("put");
    store.commit();
    assert_eq!(store.delete(0, 1000), Ok(2));
    store.commit();
    let frame = store.frame_by_id(0).expect("tombstone");
    assert_eq!(frame.status, FrameStatus::Deleted);
    assert_eq!(store.frame_canonical_payload(0), Ok(b"gone".to_vec()));
    assert_eq!(store.frame_by_uri("u").expect("by uri").status, FrameStatus::Deleted);
    assert_eq!(store.delete(0, 1000), Err(ErrorKind::NotFound));
    assert_eq!(store.update(0, None, PutOptions::default(), 3), Err(ErrorKind::NotFound));
}

#[test]
fn update_supersedes_and_merges() {
    let mut store = FrameStore::new();
    let options = PutOptions {
        title: Some("old title".to_string()),
        tags: vec!["a".to_string()],
        extra_metadata: vec![("k".to_string(), "v".to_string())],
        ..with_uri("u")
    };
    store.put(b"old", options, 1).expect("put");
    let change = PutOptions {
        title: Some("new title".to_string()),
        labels: vec!["l".to_string()],
        ..PutOptions::default()
    };
    assert_eq!(store.update(0, Some(b"new".to_vec()), change, 9), Ok(2));
    let old = store.frame_by_id(0).expect("old");
    assert_eq!(old.status, FrameStatus::Superseded);
    assert_eq!(old.title.as_deref(), Some("old title"));
    let new = store.frame_by_id(1).expect("new");
    assert_eq!(new.status, FrameStatus::Active);
    assert_eq!(new.seq_no, 2);
    assert_eq!(new.timestamp, 9);
    assert_eq!(new.uri.as_deref(), Some("u"));
    assert_eq!(new.title.as_deref(), Some("new title"));
    assert_eq!(new.tags, vec!["a"]);
    assert_eq!(new.labels, vec!["l"]);
    assert_eq!(new.extra_metadata, vec![("k".to_string(), "v".to_string())]);
    assert_eq!(new.search_text.as_deref(), Some("new"));
    assert_eq!(store.frame_canonical_payload(1), Ok(b"new".to_vec()));
    assert_eq!(store.frame_by_uri("u").expect("current").id, 1);
}

#[test]
fn lookups_miss_with_not_found() {
    let store = FrameStore::new();
    assert_eq!(store.frame_by_id(0).map(|f| f.id), Err(ErrorKind::NotFound));
    assert_eq!(store.frame_by_uri("nobody").map(|f| f.id), Err(ErrorKind::NotFound));
    assert_eq!(store.frame_canonical_payload(0), Err(ErrorKind::NotFound));
}

#[test]
fn long_payload_is_written_with_chunks() {
    let mut store = FrameStore::new();
    let payload: Vec<u8> = (0..10_000u32).map(|i| (i % 251) as u8).collect();
    assert_eq!(store.put(&payload, with_uri("big"), 5), Ok(1));
    assert_eq!(store.frame_count(), 4);
    let parent = store.frame_by_id(0).expect("parent");
    assert_eq!(parent.chunk_count, Some(3));
    assert_eq!(parent.parent_id, None);
    assert_eq!(store.frame_canonical_payload(0), Ok(payload.clone()));
    let sizes = [4096usize, 4096, 1808];
    for k in 0..3u64 {
        let chunk = store.frame_by_id(1 + k).expect("chunk");
        assert_eq!(chunk.role, FrameRole::DocumentChunk);
        assert_eq!(chunk.parent_id, Some(0));
        assert_eq!(chunk.chunk_index, Some(k as u32));
        assert_eq!(chunk.chunk_count, Some(3));
        assert_eq!(chunk.seq_no, 1);
        assert_eq!(chunk.uri, None);
        let from = 4096 * k as usize;
        assert_eq!(
            store.frame_canonical_payload(1 + k),
            Ok(payload[from..from + sizes[k as usize]].to_vec())
        );
    }
    store.delete(0, 1000).expect("delete");
    assert_eq!(store.frame_by_id(0).expect("frame").status, FrameStatus::Deleted);
    for id in 1..4 {
        assert_eq!(store.frame_by_id(id).expect("frame").status, FrameStatus::Active);
    }
}

#[test]
fn payload_of_one_chunk_is_not_split() {
    let mut store = FrameStore::new();
    store.put(&vec![7u8; 4096], PutOptions::default(), 0).expect("put");
    assert_eq!(store.frame_count(), 1);
    assert_eq!(store.frame_by_id(0).expect("frame").chunk_count, None);
    store.put(&vec![7u8; 4097], PutOptions::default(), 0).expect("put");
    assert_eq!(store.frame_count(), 4);
    assert_eq!(store.frame_by_id(1).expect("frame").chunk_count, Some(2));
    assert_eq!(store.frame_canonical_payload(3), Ok(vec![7u8]));
}

#[test]
fn commit_and_rollback_bound_what_is_durable() {
    let mut store = FrameStore::new();
    store.put(b"a", with_uri("u"), 1).expect("put");
    store.commit();
    store.update(0, Some(b"b".to_vec()), PutOptions::default(), 2).expect("update");
    store.put(b"c", PutOptions::default(), 3).expect("put");
    let (frames, payloads, seq) = store.snapshot();
    assert_eq!(frames.len(), 1);
    assert_eq!(frames[0].status, FrameStatus::Active);
    assert_eq!(payloads, vec![b"a".to_vec()]);
    assert_eq!(seq, 1);
    store.rollback();
    assert_eq!(store.frame_count(), 1);
    assert_eq!(store.last_seq(), 1);
    assert_eq!(store.frame_by_id(0).expect("frame").status, FrameStatus::Active);
    assert_eq!(store.frame_by_uri("u").expect("current").id, 0);
    store.delete(0, 1000).expect("delete");
    store.commit();
    store.rollback();
    assert_eq!(store.frame_by_id(0).expect("frame").status, FrameStatus::Deleted);
    assert_eq!(store.last_seq(), 2);
}

fn plain_frame(id: u64, seq_no: u64, payload: &[u8]) -> Frame {
    Frame {
        id,
        seq_no,
        timestamp: 0,
        role: FrameRole::Document,
        status: FrameStatus::Active,
        canonical_encoding: CanonicalEncoding::Plain,
        canonical_length: None,
        payload_length: payload.len() as u64,
        checksum: checksum(payload),
        uri: None,
        title: None,
        kind: None,
        track: None,
        tags: Vec::new(),
        labels: Vec::new(),
        extra_metadata: Vec::new(),
        content_dates: Vec::new(),
        parent_id: None,
        chunk_index: None,
        chunk_count: None,
        search_text: None,
        metadata: None,
        retired: None,
    }
}

#[test]
fn snapshot_restores_to_the_same_store() {
    let mut store = FrameStore::new();
    store.put(&vec![1u8; 5000], with_uri("big"), 1).expect("put");
    store.put(b"small", with_uri("small"), 2).expect("put");
    store.delete(3, 1000).expect("delete");
    store.commit();
    let (frames, payloads, seq) = store.snapshot();
    let restored = FrameStore::restore(frames, payloads, seq).expect("restore");
    assert_eq!(restored.frame_count(), 4);
    assert_eq!(restored.last_seq(), 3);
    assert_eq!(restored.frame_by_id(3).expect("frame").status, FrameStatus::Deleted);
    assert_eq!(restored.frame_by_uri("big").expect("frame").chunk_count, Some(2));
    assert_eq!(restored.frame_canonical_payload(2), Ok(vec![1u8; 904]));
}

#[test]
fn restore_refuses_a_malformed_log() {
    let ok = |frames: Vec<Frame>, payloads: Vec<Vec<u8>>, seq: u64| {
        FrameStore::restore(frames, payloads, seq).map(|s| s.frame_count())
    };
    assert_eq!(ok(vec![plain_frame(0, 1, b"a")], vec![b"a".to_vec()], 1), Ok(1));
    assert_eq!(ok(vec![plain_frame(1, 1, b"a")], vec![b"a".to_vec()], 1), Err(ErrorKind::CorruptFrame));
    assert_eq!(ok(vec![plain_frame(0, 2, b"a")], vec![b"a".to_vec()], 1), Err(ErrorKind::CorruptFrame));
    assert_eq!(ok(vec![plain_frame(0, 0, b"a")], vec![b"a".to_vec()], 1), Err(ErrorKind::CorruptFrame));
    assert_eq!(ok(vec![plain_frame(0, 1, b"a")], vec![b"ab".to_vec()], 1), Err(ErrorKind::CorruptFrame));
    assert_eq!(ok(vec![plain_frame(0, 1, b"a")], vec![], 1), Err(ErrorKind::CorruptFrame));
    assert_eq!(
        ok(
            vec![plain_frame(0, 2, b"a"), plain_frame(1, 1, b"b")],
            vec![b"a".to_vec(), b"b".to_vec()],
            2
        ),
        Err(ErrorKind::CorruptFrame)
    );
    let mut first = plain_frame(0, 1, b"a");
    let mut second = plain_frame(1, 2, b"b");
    first.uri = Some("u".to_string());
    second.uri = Some("u".to_string());
    assert_eq!(
        ok(vec![first.clone(), second.clone()], vec![b"a".to_vec(), b"b".to_vec()], 2),
        Err(ErrorKind::CorruptFrame)
    );
    second.status = FrameStatus::Superseded;
    second.retired = Some(Retirement { seq_no: 3, timestamp: 7 });
    assert_eq!(ok(vec![first, second], vec![b"a".to_vec(), b"b".to_vec()], 3), Ok(2));
    let mut orphan = plain_frame(0, 1, b"a");
    orphan.parent_id = Some(3);
    assert_eq!(ok(vec![orphan], vec![b"a".to_vec()], 1), Err(ErrorKind::CorruptFrame));
    let mut lonely = plain_frame(0, 1, b"a");
    lonely.chunk_count = Some(1);
    assert_eq!(ok(vec![lonely], vec![b"a".to_vec()], 1), Err(ErrorKind::CorruptFrame));
}

#[test]
fn corrupt_payload_is_reported_when_read() {
    let mut frame = plain_frame(0, 1, b"good");
    frame.checksum ^= 1;
    let store = FrameStore::restore(vec![frame], vec![b"good".to_vec()], 1).expect("restore");
    assert_eq!(store.frame_by_id(0).map(|f| f.id), Ok(0));
    assert_eq!(store.frame_canonical_payload(0), Err(ErrorKind::CorruptFrame));
}

#[test]
fn labels_name_every_variant() {
    assert_eq!(frame_role_label(FrameRole::Document), "document");
    assert_eq!(frame_role_label(FrameRole::DocumentChunk), "document_chunk");
    assert_eq!(frame_role_label(FrameRole::ExtractedImage), "extracted_image");
    assert_eq!(frame_status_label(FrameStatus::Active), "active");
    assert_eq!(frame_status_label(FrameStatus::Superseded), "superseded");
    assert_eq!(frame_status_label(FrameStatus::Deleted), "deleted");
    assert_eq!(canonical_encoding_label(CanonicalEncoding::Plain), "plain");
    assert_eq!(canonical_encoding_label(CanonicalEncoding::Zstd), "zstd");
}

#[test]
fn every_error_kind_has_its_words() {
    assert_eq!(describe(ErrorKind::AlreadyExists), "container already exists");
    assert_eq!(describe(ErrorKind::NotFound), "frame not found");
    assert_eq!(describe(ErrorKind::InvalidOptions), "invalid options");
    assert_eq!(describe(ErrorKind::UriConflict), "uri is already owned by an active frame");
    assert_eq!(describe(ErrorKind::CorruptFrame), "frame payload does not match its checksum");
    assert_eq!(describe(ErrorKind::InvalidRequest), "invalid request");
    assert_eq!(describe(ErrorKind::IoFailure), "storage failure");
    assert_eq!(describe(ErrorKind::IndexUnavailable), "primary index unavailable");
    assert_eq!(describe(ErrorKind::QueryMalformed), "malformed query");
}

#[test]
fn frame_output_renders_names_and_hex_digest() {
    let mut store = FrameStore::new();
    store.put(b"hello", with_uri("u"), 12).expect("put");
    let frame = store.frame_by_id(0).expect("frame");
    let output = FrameOutput::try_from_frame(&frame).expect("output");
    assert_eq!(output.frame_id, 0);
    assert_eq!(output.timestamp, 12);
    assert_eq!(output.role, "document");
    assert_eq!(output.status, "active");
    assert_eq!(output.canonical_encoding, "plain");
    assert_eq!(output.payload_length, 5);
    assert_eq!(output.checksum_hex, "a430d84680aabd0b");
    assert_eq!(output.uri.as_deref(), Some("u"));
    assert_eq!(output.search_text.as_deref(), Some("hello"));
    assert_eq!(checksum_bytes(0x0102030405060708), vec![1, 2, 3, 4, 5, 6, 7, 8]);
    assert_eq!(checksum_bytes(0x00000000000000ff), vec![0, 0, 0, 0, 0, 0, 0, 255]);
}

#[test]
fn payload_is_encoded_as_padded_base64() {
    assert_eq!(encode_payload(&b"hello world".to_vec()).as_deref(), Some("aGVsbG8gd29ybGQ="));
    assert_eq!(encode_payload(&Vec::new()).as_deref(), Some(""));
    assert_eq!(encode_payload(&vec![0xfb, 0xff]).as_deref(), Some("+/8="));
}

#[test]
fn retirement_names_the_write_that_ended_a_frame() {
    let mut store = FrameStore::new();
    store.put(b"a", with_uri("u"), 10).expect("put");
    store.put(&vec![1u8; 5000], PutOptions::default(), 20).expect("put");
    assert_eq!(store.frame_by_id(0).expect("frame").retired, None);
    store.update(0, Some(b"b".to_vec()), PutOptions::default(), 30).expect("update");
    assert_eq!(
        store.frame_by_id(0).expect("frame").retired,
        Some(Retirement { seq_no: 3, timestamp: 30 })
    );
    assert_eq!(store.frame_by_id(4).expect("frame").retired, None);
    store.delete(1, 40).expect("delete");
    let deleted = store.frame_by_id(1).expect("frame");
    assert_eq!(deleted.status, FrameStatus::Deleted);
    assert_eq!(deleted.retired, Some(Retirement { seq_no: 4, timestamp: 40 }));
    for id in 2..4 {
        let chunk = store.frame_by_id(id).expect("frame");
        assert_eq!(chunk.status, FrameStatus::Active);
        assert_eq!(chunk.retired, None);
    }
    let dedup = PutOptions { dedup: true, ..with_uri("u") };
    store.put(b"c", dedup, 50).expect("put");
    assert_eq!(
        store.frame_by_id(4).expect("frame").retired,
        Some(Retirement { seq_no: 5, timestamp: 50 })
    );
    store.rollback();
    assert_eq!(store.frame_count(), 0);
}

#[test]
fn rollback_revives_what_was_retired_since_the_commit() {
    let mut store = FrameStore::new();
    store.put(b"a", with_uri("u"), 10).expect("put");
    store.commit();
    store.delete(0, 20).expect("delete");
    assert!(store.frame_by_id(0).expect("frame").retired.is_some());
    store.rollback();
    let frame = store.frame_by_id(0).expect("frame");
    assert_eq!(frame.status, FrameStatus::Active);
    assert_eq!(frame.retired, None);
}

#[test]
fn restore_refuses_a_broken_lifecycle() {
    let ok = |frame: Frame, seq: u64| {
        FrameStore::restore(vec![frame], vec![b"a".to_vec()], seq).map(|s| s.frame_count())
    };
    let mut ended = plain_frame(0, 1, b"a");
    ended.status = FrameStatus::Deleted;
    ended.retired = Some(Retirement { seq_no: 2, timestamp: 0 });
    assert_eq!(ok(ended.clone(), 2), Ok(1));
    assert_eq!(ok(ended.clone(), 1), Err(ErrorKind::CorruptFrame));
    let mut early = ended.clone();
    early.retired = Some(Retirement { seq_no: 1, timestamp: 0 });
    assert_eq!(ok(early, 2), Err(ErrorKind::CorruptFrame));
    let mut unmarked = ended.clone();
    unmarked.retired = None;
    assert_eq!(ok(unmarked, 2), Err(ErrorKind::CorruptFrame));
    let mut undead = ended;
    undead.status = FrameStatus::Active;
    assert_eq!(ok(undead, 2), Err(ErrorKind::CorruptFrame));
}

fn record(frame: &Frame) -> String {
    format!("{:?}", frame)
}

#[test]
fn delete_changes_no_other_frame() {
    let mut store = FrameStore::new();
    let long: Vec<u8> = (0..9000u32).map(|i| (i % 251) as u8).collect();
    store.put(b"first", with_uri("a"), 10).expect("put");
    store.put(&long, with_uri("b"), 20).expect("put");
    store.put(b"last", with_uri("c"), 30).expect("put");
    store.commit();
    assert_eq!(store.frame_count(), 6);
    let before: Vec<Frame> = (0..6).map(|id| store.frame_by_id(id).expect("frame")).collect();
    assert_eq!(store.delete(1, 40), Ok(4));
    store.commit();
    assert_eq!(store.frame_count(), 6);
    for id in 0..6u64 {
        let after = store.frame_by_id(id).expect("frame");
        if id == 1 {
            let was = &before[1];
            assert_eq!(after.status, FrameStatus::Deleted);
            assert_eq!(after.retired, Some(Retirement { seq_no: 4, timestamp: 40 }));
            assert_eq!(after.id, was.id);
            assert_eq!(after.seq_no, was.seq_no);
            assert_eq!(after.timestamp, was.timestamp);
            assert_eq!(after.checksum, was.checksum);
            assert_eq!(after.uri, was.uri);
            assert_eq!(after.chunk_count, was.chunk_count);
        } else {
            assert_eq!(record(&after), record(&before[id as usize]));
        }
    }
    assert_eq!(store.frame_canonical_payload(1), Ok(long.clone()));
    assert_eq!(store.frame_canonical_payload(2), Ok(long[..4096].to_vec()));
    assert_eq!(store.frame_canonical_payload(4), Ok(long[8192..].to_vec()));
}

#[test]
fn update_changes_no_other_frame() {
    let mut store = FrameStore::new();
    let long: Vec<u8> = vec![7u8; 5000];
    store.put(&long, with_uri("a"), 10).expect("put");
    store.put(b"other", with_uri("b"), 20).expect("put");
    let before: Vec<Frame> = (0..4).map(|id| store.frame_by_id(id).expect("frame")).collect();
    assert_eq!(store.update(0, Some(b"short".to_vec()), PutOptions::default(), 30), Ok(3));
    assert_eq!(store.frame_count(), 5);
    assert_eq!(store.frame_by_id(0).expect("frame").status, FrameStatus::Superseded);
    for id in 1..4u64 {
        let after = store.frame_by_id(id).expect("frame");
        assert_eq!(record(&after), record(&before[id as usize]));
    }
    let fresh = store.frame_by_uri("a").expect("current");
    assert_eq!(fresh.id, 4);
    assert_eq!(fresh.status, FrameStatus::Active);
    assert_eq!(store.frame_canonical_payload(4), Ok(b"short".to_vec()));
}
