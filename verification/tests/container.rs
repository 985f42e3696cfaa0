use memvid::checksum::checksum;
use memvid::codec::{push_le, read_cells, read_le, write_cells, Cell};
use memvid::container::{cells_to_store, store_to_cells};
use memvid::error::ErrorKind;
use memvid::frame::{DocMetadata, FrameStatus};
use memvid::options::PutOptions;
use memvid::store::FrameStore;

fn as_pairs(cells: &[Cell]) -> Vec<(Option<u64>, Option<Vec<u8>>)> {
    cells
        .iter()
        .map(|c| match c {
            Cell::Num(v) => (Some(*v), None),
            Cell::Bytes(b) => (None, Some(b.clone())),
        })
        .collect()
}

fn sample() -> FrameStore {
    let mut store = FrameStore::new();
    let options = PutOptions {
        timestamp: Some(-42),
        uri: Some("mv2://a/é".to_string()),
        title: Some("Title".to_string()),
        kind: Some("note".to_string()),
        track: Some("main".to_string()),
        search_text: Some("searchable 世界".to_string()),
        tags: vec!["t1".to_string(), "".to_string()],
        labels: vec!["l1".to_string()],
        extra_metadata: vec![("k1".to_string(), "v1".to_string()), ("k2".to_string(), "".to_string())],
        metadata: Some(DocMetadata { mime: Some("text/plain".to_string()) }),
        ..PutOptions::default()
    };
    store.put(b"first payload", options, 1).expect("put");
    store.put(&vec![9u8; 9000], PutOptions::default(), i64::MAX).expect("put");
    let bare = PutOptions { metadata: Some(DocMetadata { mime: None }), ..PutOptions::default() };
    store.put(&[0xff, 0x00], bare, i64::MIN).expect("put");
    store.update(0, None, PutOptions::default(), 5).expect("update");
    store.delete(4, 1000).expect("delete");
    store.commit();
    store
}

#[test]
fn numbers_are_written_least_significant_byte_first() {
    let mut out = vec![7u8];
    push_le(&mut out, 0x0102030405060708);
    assert_eq!(out, vec![7, 8, 7, 6, 5, 4, 3, 2, 1]);
    assert_eq!(read_le(&out, 1), 0x0102030405060708);
    let mut max = Vec::new();
    push_le(&mut max, u64::MAX);
    assert_eq!(max, vec![255u8; 8]);
    assert_eq!(read_le(&max, 0), u64::MAX);
    let mut zero = Vec::new();
    push_le(&mut zero, 0);
    assert_eq!(read_le(&zero, 0), 0);
}

#[test]
fn cells_are_written_with_tag_and_length() {
    let cells = vec![Cell::Num(258), Cell::Bytes(vec![0xaa, 0xbb]), Cell::Bytes(Vec::new())];
    let bytes = write_cells(&cells);
    assert_eq!(
        bytes,
        vec![
            0, 2, 1, 0, 0, 0, 0, 0, 0, //
            1, 2, 0, 0, 0, 0, 0, 0, 0, 0xaa, 0xbb, //
            1, 0, 0, 0, 0, 0, 0, 0, 0,
        ]
    );
    assert_eq!(read_cells(&bytes).map(|c| as_pairs(&c)), Some(as_pairs(&cells)));
    assert_eq!(read_cells(&[]).map(|c| c.len()), Some(0));
}

#[test]
fn broken_cells_are_not_read() {
    let bytes = write_cells(&[Cell::Num(1), Cell::Bytes(vec![1, 2, 3])].to_vec());
    for cut in 1..bytes.len() {
        if cut == 9 {
            continue;
        }
        assert!(read_cells(&bytes[..cut]).is_none(), "cut at {cut}");
    }
    assert_eq!(read_cells(&bytes[..9]).map(|c| c.len()), Some(1));
    let mut bad_tag = bytes.clone();
    bad_tag[0] = 2;
    assert!(read_cells(&bad_tag).is_none());
    let mut too_long = bytes.clone();
    too_long[10] = 4;
    assert!(read_cells(&too_long).is_none());
}

#[test]
fn empty_container_is_header_and_digest() {
    let bytes = FrameStore::new().to_bytes();
    let mut body = Vec::new();
    for number in [0x0a32_564d_4d45_4d89u64, 1, 0, 0] {
        body.push(0u8);
        body.extend_from_slice(&number.to_le_bytes());
    }
    let mut expected = body.clone();
    expected.extend_from_slice(&checksum(&body).to_le_bytes());
    assert_eq!(bytes.len(), 44);
    assert_eq!(bytes, expected);
    let store = FrameStore::from_bytes(&bytes).expect("read");
    assert_eq!(store.frame_count(), 0);
    assert_eq!(store.last_seq(), 0);
}

#[test]
fn container_round_trips_every_field() {
    let store = sample();
    let bytes = store.to_bytes();
    let read = FrameStore::from_bytes(&bytes).expect("read");
    assert_eq!(read.frame_count(), store.frame_count());
    assert_eq!(read.last_seq(), store.last_seq());
    for id in 0..store.frame_count() as u64 {
        let a = store.frame_by_id(id).expect("frame");
        let b = read.frame_by_id(id).expect("frame");
        assert_eq!(format!("{a:?}"), format!("{b:?}"));
        assert_eq!(store.frame_canonical_payload(id), read.frame_canonical_payload(id));
    }
    assert_eq!(read.frame_by_id(0).expect("frame").status, FrameStatus::Superseded);
    assert_eq!(read.frame_by_id(4).expect("frame").status, FrameStatus::Deleted);
    assert_eq!(read.frame_by_id(5).expect("frame").timestamp, i64::MIN);
    assert_eq!(read.frame_by_id(1).expect("frame").timestamp, i64::MAX);
    assert_eq!(read.to_bytes(), bytes);
}

#[test]
fn container_holds_only_what_is_durable() {
    let mut store = sample();
    let durable = store.to_bytes();
    store.put(b"pending", PutOptions::default(), 7).expect("put");
    store.delete(1, 1000).expect("delete");
    assert_eq!(store.to_bytes(), durable);
    store.commit();
    assert_ne!(store.to_bytes(), durable);
}

#[test]
fn damaged_container_is_refused() {
    let bytes = sample().to_bytes();
    assert_eq!(FrameStore::from_bytes(&[]).map(|s| s.frame_count()), Err(ErrorKind::CorruptFrame));
    assert_eq!(
        FrameStore::from_bytes(&bytes[..bytes.len() - 1]).map(|s| s.frame_count()),
        Err(ErrorKind::CorruptFrame)
    );
    for at in [0usize, 1, 20, 40, 100, bytes.len() - 9, bytes.len() - 1] {
        let mut damaged = bytes.clone();
        damaged[at] ^= 0x40;
        assert_eq!(
            FrameStore::from_bytes(&damaged).map(|s| s.frame_count()),
            Err(ErrorKind::CorruptFrame),
            "flip at {at}"
        );
    }
}

fn sealed(cells: &[Cell]) -> Vec<u8> {
    let mut bytes = write_cells(&cells.to_vec());
    let sum = checksum(&bytes);
    push_le(&mut bytes, sum);
    bytes
}

#[test]
fn foreign_or_malformed_logs_are_refused() {
    let refuse = |cells: &[Cell]| {
        assert_eq!(
            FrameStore::from_bytes(&sealed(cells)).map(|s| s.frame_count()),
            Err(ErrorKind::CorruptFrame)
        );
    };
    let header = |magic: u64, version: u64, seq: u64, count: u64| {
        vec![Cell::Num(magic), Cell::Num(version), Cell::Num(seq), Cell::Num(count)]
    };
    let magic = 0x0a32_564d_4d45_4d89u64;
    assert_eq!(FrameStore::from_bytes(&sealed(&header(magic, 1, 5, 0))).map(|s| s.last_seq()), Ok(5));
    refuse(&header(magic + 1, 1, 0, 0));
    refuse(&header(magic, 2, 0, 0));
    refuse(&header(magic, 1, 0, 1));
    refuse(&header(magic, 1, 0, 0)[..3]);
    let mut surplus = header(magic, 1, 0, 0);
    surplus.push(Cell::Num(0));
    refuse(&surplus);

    let store = sample();
    let (frames, payloads, seq) = store.snapshot();
    let good = store_to_cells(&frames, &payloads, seq);
    assert!(cells_to_store(&good).is_some());
    assert_eq!(FrameStore::from_bytes(&sealed(&good)).map(|s| s.frame_count()), Ok(7));
    let mut bad_role = good.clone();
    bad_role[4 + 3] = Cell::Num(3);
    refuse(&bad_role);
    let mut bad_flag = good.clone();
    bad_flag[4 + 6] = Cell::Num(2);
    refuse(&bad_flag);
    let mut bad_text = good.clone();
    bad_text[4 + 17] = Cell::Bytes(vec![0xff]);
    refuse(&bad_text);
    let mut wide_index = good.clone();
    wide_index[4 + 12] = Cell::Num(1);
    wide_index[4 + 13] = Cell::Num(1 << 32);
    refuse(&wide_index);
    let mut wrong_id = good.clone();
    wrong_id[4] = Cell::Num(9);
    assert!(cells_to_store(&wrong_id).is_some());
    refuse(&wrong_id);
}
