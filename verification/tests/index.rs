use memvid::index::{index_clause, index_query};
use memvid::options::PutOptions;
use memvid::query::parse_query;
use memvid::store::FrameStore;
use memvid::text::chars_to_string;

#[test]
fn documents_stand_for_the_active_top_level_frames() {
    let mut store = FrameStore::new();
    let options = PutOptions {
        uri: Some("u0".to_string()),
        tags: vec!["t".to_string()],
        labels: vec!["l".to_string()],
        track: Some("k".to_string()),
        timestamp: Some(5),
        ..PutOptions::default()
    };
    store.put(b"zero", options, 0).expect("put");
    store.put(b"one", PutOptions::default(), 1).expect("put");
    store.put(&vec![b'x'; 5000], PutOptions::default(), 2).expect("put");
    store.put(&[0xff], PutOptions::default(), 3).expect("put");
    store.delete(1, 1000).expect("delete");
    let documents = store.index_documents();
    let ids: Vec<u64> = documents.iter().map(|d| d.frame_id).collect();
    assert_eq!(ids, vec![0, 2, 5]);
    assert_eq!(documents[0].timestamp, 5);
    assert_eq!(documents[0].content.as_deref(), Some("zero"));
    assert_eq!(documents[0].tags, vec!["t"]);
    assert_eq!(documents[0].labels, vec!["l"]);
    assert_eq!(documents[0].track.as_deref(), Some("k"));
    assert_eq!(documents[0].uri.as_deref(), Some("u0"));
    assert_eq!(documents[1].content.as_deref().map(|c| c.len()), Some(5000));
    assert_eq!(documents[2].content, None);
}

#[test]
fn query_is_asked_as_tokens_of_its_terms() {
    let query = parse_query("Running DOGS tag:Pets NOT Cats OR 北京大学 scope:mv2:// OR uri:x").expect("query");
    let lists = index_query(&query);
    assert_eq!(lists.len(), 3);
    assert_eq!(lists[0], vec!["run", "dog"]);
    assert!(lists[1].contains(&"北京大学".to_string()));
    assert!(lists[2].is_empty());
    assert_eq!(index_clause(&query.clauses[0]), lists[0]);
    assert!(index_query(&parse_query("").expect("query")).is_empty());
    assert_eq!(index_query(&parse_query("?!").expect("query")), vec![Vec::<String>::new()]);
}

#[test]
fn characters_spell_their_text() {
    assert_eq!(chars_to_string(&"héllo 世界".chars().collect()), "héllo 世界");
    assert_eq!(chars_to_string(&Vec::new()), "");
}
