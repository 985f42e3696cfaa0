use memvid::cursor::TimelineEntryOutput;
use memvid::error::ErrorKind;
use memvid::options::PutOptions;
use memvid::paging::{memvid_timeline, TimelineRequest};
use memvid::store::FrameStore;
use memvid::timeline::{comes_before, TimelineQuery};

fn at(timestamp: i64) -> PutOptions {
    PutOptions { timestamp: Some(timestamp), ..PutOptions::default() }
}

fn store_with(timestamps: &[i64]) -> FrameStore {
    let mut store = FrameStore::new();
    for (i, ts) in timestamps.iter().enumerate() {
        store.put(format!("entry {i}").as_bytes(), at(*ts), 0).expect("put");
    }
    store
}

fn query(limit: u64, since: Option<i64>, until: Option<i64>, reverse: bool) -> TimelineQuery {
    TimelineQuery { limit, since, until, reverse }
}

fn request(limit: u64, reverse: bool, cursor: Option<String>) -> TimelineRequest {
    TimelineRequest { limit: Some(limit), since: None, until: None, reverse: Some(reverse), cursor }
}

fn ids(entries: &[TimelineEntryOutput]) -> Vec<u64> {
    entries.iter().map(|e| e.frame_id).collect()
}

#[test]
fn three_puts_make_a_short_page() {
    let mut store = FrameStore::new();
    store.put(b"one", PutOptions::default(), 100).expect("put");
    store.put(b"two", PutOptions::default(), 200).expect("put");
    store.put(b"three", PutOptions::default(), 300).expect("put");
    let page = memvid_timeline(&store, &request(10, false, None)).expect("timeline");
    assert_eq!(page.entries.len(), 3);
    assert_eq!(ids(&page.entries), vec![0, 1, 2]);
    let stamps: Vec<i64> = page.entries.iter().map(|e| e.timestamp).collect();
    assert_eq!(stamps, vec![100, 200, 300]);
    assert_eq!(page.next_cursor, None);
    assert_eq!(page.entries[0].preview, "one");
}

#[test]
fn scan_orders_by_timestamp_then_id() {
    let store = store_with(&[30, 10, 20, 10, 30]);
    let scan = |q: TimelineQuery| -> Vec<u64> {
        store.timeline(&q).expect("scan").iter().map(|e| e.frame_id).collect()
    };
    assert_eq!(scan(query(10, None, None, false)), vec![1, 3, 2, 0, 4]);
    assert_eq!(scan(query(10, None, None, true)), vec![4, 0, 2, 3, 1]);
    assert_eq!(scan(query(2, None, None, false)), vec![1, 3]);
    assert_eq!(scan(query(10, Some(20), None, false)), vec![2, 0, 4]);
    assert_eq!(scan(query(10, None, Some(20), false)), vec![1, 3, 2]);
    assert_eq!(scan(query(10, Some(11), Some(29), true)), vec![2]);
    assert_eq!(scan(query(10, Some(31), None, false)), Vec::<u64>::new());
}

#[test]
fn scan_refuses_a_zero_limit() {
    let store = store_with(&[1]);
    assert_eq!(
        store.timeline(&query(0, None, None, false)).map(|e| e.len()),
        Err(ErrorKind::InvalidRequest)
    );
    assert_eq!(
        memvid_timeline(
            &store,
            &TimelineRequest { limit: Some(0), since: None, until: None, reverse: None, cursor: None }
        )
        .map(|p| p.entries.len()),
        Err("limit must be greater than 0".to_string())
    );
}

#[test]
fn scan_skips_frames_that_are_not_active_and_chunks() {
    let mut store = store_with(&[1, 2, 3]);
    store.delete(1, 1000).expect("delete");
    store.update(2, Some(b"new".to_vec()), PutOptions::default(), 9).expect("update");
    store.put(&vec![b'x'; 9000], at(5), 0).expect("chunked");
    let entries = store.timeline(&query(10, None, None, false)).expect("scan");
    let found: Vec<u64> = entries.iter().map(|e| e.frame_id).collect();
    assert_eq!(found, vec![0, 4, 3]);
    assert_eq!(entries[1].child_frames, vec![5, 6, 7]);
    assert!(entries[0].child_frames.is_empty());
}

#[test]
fn preview_shows_the_first_characters() {
    let mut store = FrameStore::new();
    let long: String = "é".repeat(150);
    store.put(long.as_bytes(), PutOptions::default(), 1).expect("put");
    store.put(&[0xff], PutOptions::default(), 2).expect("put");
    let entries = store.timeline(&query(10, None, None, false)).expect("scan");
    assert_eq!(entries[0].preview, "é".repeat(120));
    assert_eq!(entries[1].preview, "");
}

#[test]
fn pages_concatenate_to_the_whole_scan() {
    let stamps: Vec<i64> = (0..23).map(|i| [5, 5, 7, 5, 9, 7][i % 6] as i64).collect();
    let store = store_with(&stamps);
    for reverse in [false, true] {
        let all = memvid_timeline(&store, &request(100, reverse, None)).expect("all");
        assert_eq!(all.entries.len(), 23);
        assert_eq!(all.next_cursor, None);
        for limit in [1u64, 2, 3, 5, 23, 24] {
            let mut seen: Vec<u64> = Vec::new();
            let mut cursor: Option<String> = None;
            loop {
                let page = memvid_timeline(&store, &request(limit, reverse, cursor)).expect("page");
                assert!(page.entries.len() as u64 <= limit);
                seen.extend(ids(&page.entries));
                if page.next_cursor.is_none() {
                    assert!((page.entries.len() as u64) < limit);
                    break;
                }
                assert_eq!(page.entries.len() as u64, limit);
                cursor = page.next_cursor;
            }
            assert_eq!(seen, ids(&all.entries));
        }
    }
}

#[test]
fn cursor_names_the_last_entry_of_a_full_page() {
    let store = store_with(&[10, 10, 10, 20]);
    let first = memvid_timeline(&store, &request(2, false, None)).expect("first");
    assert_eq!(ids(&first.entries), vec![0, 1]);
    assert_eq!(first.next_cursor.as_deref(), Some("10:1"));
    let second = memvid_timeline(&store, &request(2, false, first.next_cursor)).expect("second");
    assert_eq!(ids(&second.entries), vec![2, 3]);
    assert_eq!(second.next_cursor.as_deref(), Some("20:3"));
    let third = memvid_timeline(&store, &request(2, false, second.next_cursor)).expect("third");
    assert!(third.entries.is_empty());
    assert_eq!(third.next_cursor, None);
    let back = memvid_timeline(&store, &request(3, true, Some("10:2".to_string()))).expect("back");
    assert_eq!(ids(&back.entries), vec![1, 0]);
    assert_eq!(back.next_cursor, None);
}

#[test]
fn page_honours_bounds_beside_the_cursor() {
    let store = store_with(&[1, 2, 3, 4, 5, 6]);
    let page = memvid_timeline(
        &store,
        &TimelineRequest {
            limit: Some(10),
            since: Some(2),
            until: Some(5),
            reverse: None,
            cursor: Some("3:2".to_string()),
        },
    )
    .expect("page");
    assert_eq!(ids(&page.entries), vec![3, 4]);
    let default_limit = memvid_timeline(
        &store,
        &TimelineRequest { limit: None, since: None, until: None, reverse: None, cursor: None },
    )
    .expect("default");
    assert_eq!(default_limit.entries.len(), 6);
}

#[test]
fn a_crowded_timestamp_cuts_a_page_short() {
    let store = store_with(&vec![7i64; 2003]);
    let far = memvid_timeline(&store, &request(10, false, Some("7:1994".to_string()))).expect("far");
    assert_eq!(ids(&far.entries), vec![1995, 1996, 1997, 1998, 1999]);
    assert_eq!(far.next_cursor, None);
    let near = memvid_timeline(&store, &request(10, false, Some("7:1989".to_string()))).expect("near");
    assert_eq!(near.entries.len(), 10);
    assert_eq!(near.next_cursor.as_deref(), Some("7:1999"));
}

#[test]
fn order_of_places() {
    assert!(comes_before((1, 9), (2, 0), false));
    assert!(comes_before((1, 1), (1, 2), false));
    assert!(!comes_before((1, 2), (1, 2), false));
    assert!(comes_before((2, 0), (1, 9), true));
    assert!(comes_before((1, 2), (1, 1), true));
    assert!(!comes_before((1, 1), (1, 2), true));
}
