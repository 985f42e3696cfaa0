use memvid::error::ErrorKind;
use memvid::lexical::{count_matches, find_first, fold_str, frame_matches, lower_char};
use memvid::options::PutOptions;
use memvid::query::{parse_query, Atom, Query};
use memvid::respond::{memvid_search, SearchRequestInput, SearchResponseOutput};
use memvid::search::{
    parse_search_cursor, search, search_cursor, search_engine_label, RankedHit, SearchEngineKind,
    SearchRequest, SearchResponse,
};
use memvid::store::FrameStore;

fn chars(s: &str) -> Vec<char> {
    s.chars().collect()
}

fn doc(store: &mut FrameStore, text: &str, uri: &str, tags: &[&str], ts: i64) {
    let options = PutOptions {
        uri: Some(uri.to_string()),
        title: Some(format!("title of {uri}")),
        tags: tags.iter().map(|t| t.to_string()).collect(),
        labels: vec!["Shelf".to_string()],
        track: Some("Main".to_string()),
        timestamp: Some(ts),
        ..PutOptions::default()
    };
    store.put(text.as_bytes(), options, 0).expect("put");
}

fn library() -> FrameStore {
    let mut store = FrameStore::new();
    doc(&mut store, "The quick brown fox jumps over the lazy dog", "mv2://a/fox", &["animal"], 10);
    doc(&mut store, "A lazy afternoon; the DOG sleeps, the dog dreams", "mv2://a/dog", &["animal", "nap"], 20);
    doc(&mut store, "Quarterly report: revenue grew", "mv2://b/report", &["finance"], 30);
    doc(&mut store, "北京大学 is a university in Beijing", "mv2://b/pku", &[], 40);
    store
}

fn ask(query: &str, top_k: usize) -> SearchRequest {
    SearchRequest {
        query: query.to_string(),
        top_k,
        snippet_chars: 200,
        uri: None,
        scope: None,
        cursor: None,
        as_of_frame: None,
        as_of_ts: None,
        no_sketch: false,
    }
}

fn run(store: &FrameStore, request: &SearchRequest) -> SearchResponse {
    search(store, request, &None).expect("search")
}

fn ids(response: &SearchResponse) -> Vec<u64> {
    response.hits.iter().map(|h| h.frame_id).collect()
}

#[test]
fn query_words_are_terms_filters_and_operators() {
    let shape = |text: &str| -> Vec<Vec<(bool, String)>> {
        parse_query(text)
            .expect("query")
            .clauses
            .iter()
            .map(|clause| {
                clause
                    .iter()
                    .map(|l| {
                        let text = match &l.atom {
                            Atom::Term(v) => format!("term {}", v.iter().collect::<String>()),
                            Atom::Tag(v) => format!("tag {}", v.iter().collect::<String>()),
                            Atom::Label(v) => format!("label {}", v.iter().collect::<String>()),
                            Atom::Track(v) => format!("track {}", v.iter().collect::<String>()),
                            Atom::Uri(v) => format!("uri {}", v.iter().collect::<String>()),
                            Atom::Scope(v) => format!("scope {}", v.iter().collect::<String>()),
                        };
                        (l.negated, text)
                    })
                    .collect()
            })
            .collect()
    };
    let t = |s: &str| (false, s.to_string());
    let n = |s: &str| (true, s.to_string());
    assert_eq!(shape("lazy dog"), vec![vec![t("term lazy"), t("term dog")]]);
    assert_eq!(shape("  lazy \t AND\ndog "), vec![vec![t("term lazy"), t("term dog")]]);
    assert_eq!(shape("fox OR dog NOT lazy"), vec![vec![t("term fox")], vec![t("term dog"), n("term lazy")]]);
    assert_eq!(
        shape("tag:nap label:x track:y uri:mv2://a scope:mv2://"),
        vec![vec![t("tag nap"), t("label x"), t("track y"), t("uri mv2://a"), t("scope mv2://")]]
    );
    assert_eq!(shape("tagg:nap a:b:c or"), vec![vec![t("term tagg:nap"), t("term a:b:c"), t("term or")]]);
    assert_eq!(shape(""), Vec::<Vec<(bool, String)>>::new());
    assert_eq!(shape("OR OR"), Vec::<Vec<(bool, String)>>::new());
    assert_eq!(shape("a NOT"), vec![vec![t("term a")]]);
    assert_eq!(shape("NOT OR a"), vec![vec![t("term a")]]);
}

#[test]
fn known_field_without_value_is_malformed() {
    for text in ["tag:", "a label:", "uri: b", "scope:", "x OR track:"] {
        assert_eq!(parse_query(text).map(|q| q.clauses.len()), Err(ErrorKind::QueryMalformed));
    }
    let store = library();
    assert_eq!(
        search(&store, &ask("tag:", 5), &None).map(|r| r.total_hits),
        Err(ErrorKind::QueryMalformed)
    );
}

#[test]
fn matcher_ignores_ascii_case_only() {
    assert_eq!(lower_char('A'), 'a');
    assert_eq!(lower_char('Z'), 'z');
    assert_eq!(lower_char('@'), '@');
    assert_eq!(lower_char('['), '[');
    assert_eq!(lower_char('É'), 'É');
    assert_eq!(fold_str("Hello WORLD É"), chars("hello world É"));
    assert_eq!(find_first(&chars("dog"), &chars("hotdog dog")), Some(3));
    assert_eq!(find_first(&chars("cat"), &chars("hotdog")), None);
    assert_eq!(find_first(&chars("aa"), &chars("a")), None);
    assert_eq!(count_matches(&chars("aa"), &chars("aaaa")), 3);
    assert_eq!(count_matches(&chars("dog"), &chars("dog hotdog")), 2);
    assert_eq!(count_matches(&chars("x"), &chars("")), 0);
}

#[test]
fn frames_meet_queries() {
    let store = library();
    let dog = store.frame_by_id(1).expect("frame");
    let meets = |text: &str| frame_matches(&dog, &parse_query(text).expect("query"));
    assert!(meets("dog"));
    assert!(meets("DOG lazy"));
    assert!(!meets("dog fox"));
    assert!(meets("dog fox OR dreams"));
    assert!(meets("NOT fox"));
    assert!(!meets("NOT dog"));
    assert!(meets("tag:NAP"));
    assert!(!meets("tag:na"));
    assert!(meets("label:shelf track:main"));
    assert!(meets("uri:mv2://a/dog"));
    assert!(!meets("uri:mv2://a/DOG"));
    assert!(meets("scope:mv2://a/"));
    assert!(!meets("scope:mv2://b/"));
    assert!(meets(""));
    assert!(frame_matches(&dog, &Query { clauses: Vec::new() }));
}

#[test]
fn lexical_search_finds_verbatim_substrings() {
    let store = library();
    for (query, id) in [("uick brown fo", 0u64), ("the DOG sleeps,", 1), ("report: revenue", 2), ("京大学 is", 3)] {
        let response = run(&store, &ask(query, 10));
        assert!(ids(&response).contains(&id), "{query}");
        assert_eq!(response.engine, SearchEngineKind::LexFallback);
    }
}

#[test]
fn hits_without_ranking_come_newest_first_and_have_no_score() {
    let store = library();
    let response = run(&store, &ask("lazy", 10));
    assert_eq!(ids(&response), vec![1, 0]);
    assert_eq!(response.total_hits, 2);
    assert_eq!(response.next_cursor, None);
    assert_eq!(response.query, "lazy");
    assert_eq!(response.params.top_k, 10);
    assert_eq!(response.params.snippet_chars, 200);
    assert_eq!(response.elapsed_ms, 0);
    let hit = &response.hits[0];
    assert_eq!(hit.rank, 1);
    assert_eq!(hit.score, None);
    assert_eq!(hit.uri, "mv2://a/dog");
    assert_eq!(hit.title.as_deref(), Some("title of mv2://a/dog"));
    assert_eq!(hit.matches, 1);
    assert_eq!(hit.range, (2, 48));
    assert_eq!(hit.text, "lazy afternoon; the DOG sleeps, the dog dreams");
    assert_eq!(hit.chunk_range, None);
    let metadata = hit.metadata.as_ref().expect("metadata");
    assert_eq!(metadata.matches, 1);
    assert_eq!(metadata.tags, vec!["animal", "nap"]);
    assert_eq!(metadata.labels, vec!["Shelf"]);
    assert_eq!(metadata.track.as_deref(), Some("Main"));
    assert_eq!(metadata.created_at.as_deref(), Some("20"));
    assert!(metadata.entities.is_empty());
    assert_eq!(response.hits[1].rank, 2);
    assert_eq!(
        response.context,
        "lazy afternoon; the DOG sleeps, the dog dreams\nlazy dog\n"
    );
}

#[test]
fn snippet_starts_at_the_first_term_found_and_counts_all() {
    let store = library();
    let mut request = ask("cat dog OR the", 10);
    request.snippet_chars = 9;
    let response = run(&store, &request);
    assert_eq!(ids(&response), vec![1, 0]);
    let dog = &response.hits[0];
    assert_eq!(dog.range, (22, 31));
    assert_eq!(dog.text, "DOG sleep");
    assert_eq!(dog.matches, 4);
    let fox = &response.hits[1];
    assert_eq!(fox.range, (40, 43));
    assert_eq!(fox.text, "dog");
    assert_eq!(fox.matches, 3);
    let mut none = ask("tag:finance", 10);
    none.snippet_chars = 0;
    let response = run(&store, &none);
    assert_eq!(ids(&response), vec![2]);
    assert_eq!(response.hits[0].range, (0, 0));
    assert_eq!(response.hits[0].text, "");
    assert_eq!(response.hits[0].matches, 0);
}

#[test]
fn primary_hits_lead_and_the_matcher_supplements() {
    let store = library();
    let primary = Some(vec![vec![
        RankedHit { frame_id: 2, score: 0x3f800000 },
        RankedHit { frame_id: 0, score: 0x40000000 },
        RankedHit { frame_id: 0, score: 0x3f000000 },
        RankedHit { frame_id: 77, score: 0x41000000 },
    ]]);
    let response = search(&store, &ask("lazy", 10), &primary).expect("search");
    assert_eq!(ids(&response), vec![0, 2, 1]);
    assert_eq!(response.total_hits, 3);
    assert_eq!(response.engine, SearchEngineKind::Hybrid);
    assert_eq!(response.hits[0].score, Some(0x40000000));
    assert_eq!(response.hits[1].score, Some(0x3f800000));
    assert_eq!(response.hits[1].matches, 0);
    assert_eq!(response.hits[2].score, None);

    let only_primary =
        search(&store, &ask("revenue", 10), &Some(vec![vec![RankedHit { frame_id: 2, score: 5 }]]))
            .expect("search");
    assert_eq!(ids(&only_primary), vec![2]);
    assert_eq!(only_primary.engine, SearchEngineKind::Tantivy);

    let empty_primary = search(&store, &ask("revenue", 10), &Some(Vec::new())).expect("search");
    assert_eq!(ids(&empty_primary), vec![2]);
    assert_eq!(empty_primary.engine, SearchEngineKind::LexFallback);

    let nothing = search(&store, &ask("zebra", 10), &Some(Vec::new())).expect("search");
    assert!(nothing.hits.is_empty());
    assert_eq!(nothing.total_hits, 0);
    assert_eq!(nothing.engine, SearchEngineKind::Tantivy);
    assert_eq!(nothing.context, "");
}

#[test]
fn equal_scores_rank_the_newest_first() {
    let store = library();
    let primary = Some(vec![vec![
        RankedHit { frame_id: 0, score: 9 },
        RankedHit { frame_id: 3, score: 9 },
        RankedHit { frame_id: 1, score: 9 },
    ]]);
    let response = search(&store, &ask("zebra", 10), &primary).expect("search");
    assert_eq!(ids(&response), vec![3, 1, 0]);
    assert_eq!(response.engine, SearchEngineKind::Tantivy);
}

#[test]
fn pages_follow_the_cursor() {
    let store = library();
    let primary = Some(vec![vec![RankedHit { frame_id: 2, score: 7 }]]);
    let mut request = ask("e", 2);
    let first = search(&store, &request, &primary).expect("first");
    assert_eq!(ids(&first), vec![2, 3]);
    assert_eq!(first.total_hits, 4);
    assert_eq!(first.next_cursor.as_deref(), Some("0:3"));
    assert_eq!(first.engine, SearchEngineKind::Hybrid);
    request.cursor = first.next_cursor.clone();
    let second = search(&store, &request, &primary).expect("second");
    assert_eq!(ids(&second), vec![1, 0]);
    assert_eq!(second.hits[0].rank, 1);
    assert_eq!(second.next_cursor, None);
    assert_eq!(second.params.cursor.as_deref(), Some("0:3"));
    assert_eq!(second.engine, SearchEngineKind::LexFallback);
    let again = search(&store, &request, &primary).expect("again");
    assert_eq!(ids(&again), ids(&second));
    request.cursor = Some("8:2".to_string());
    let behind_first = search(&store, &request, &primary).expect("behind first");
    assert_eq!(ids(&behind_first), vec![3, 1]);
    request.cursor = Some("9:0".to_string());
    let from_top = search(&store, &request, &primary).expect("from top");
    assert_eq!(ids(&from_top), vec![2, 3]);
}

#[test]
fn search_cursor_round_trips() {
    assert_eq!(search_cursor((0, 3)), "0:3");
    assert_eq!(search_cursor((4294967296, u64::MAX)), "4294967296:18446744073709551615");
    assert_eq!(parse_search_cursor("0:3"), Some((0, 3)));
    assert_eq!(parse_search_cursor("4294967296:18446744073709551615"), Some((4294967296, u64::MAX)));
    for bad in ["", "3", ":", "1:", ":1", "-1:2", "1:2:3", "a:b", "1:18446744073709551616"] {
        assert_eq!(parse_search_cursor(bad), None, "{bad}");
    }
}

#[test]
fn invalid_requests_are_refused() {
    let store = library();
    assert_eq!(search(&store, &ask("dog", 0), &None).map(|r| r.total_hits), Err(ErrorKind::InvalidRequest));
    let mut bad_cursor = ask("dog", 5);
    bad_cursor.cursor = Some("nope".to_string());
    assert_eq!(search(&store, &bad_cursor, &None).map(|r| r.total_hits), Err(ErrorKind::InvalidRequest));
}

#[test]
fn request_filters_narrow_the_sight() {
    let store = library();
    let mut by_uri = ask("", 10);
    by_uri.uri = Some("mv2://a/fox".to_string());
    assert_eq!(ids(&run(&store, &by_uri)), vec![0]);
    let mut by_scope = ask("", 10);
    by_scope.scope = Some("mv2://b/".to_string());
    assert_eq!(ids(&run(&store, &by_scope)), vec![3, 2]);
    let mut as_of_frame = ask("", 10);
    as_of_frame.as_of_frame = Some(1);
    assert_eq!(ids(&run(&store, &as_of_frame)), vec![1, 0]);
    let mut as_of_ts = ask("", 10);
    as_of_ts.as_of_ts = Some(30);
    assert_eq!(ids(&run(&store, &as_of_ts)), vec![2, 1, 0]);
    as_of_ts.query = "is".to_string();
    let primary = Some(vec![vec![RankedHit { frame_id: 3, score: 1 }, RankedHit { frame_id: 2, score: 1 }]]);
    assert_eq!(ids(&search(&store, &as_of_ts, &primary).expect("search")), vec![2]);
}

#[test]
fn search_hides_deleted_superseded_and_chunk_frames() {
    let mut store = library();
    store.delete(0, 1000).expect("delete");
    store.update(1, Some(b"the dog woke up".to_vec()), PutOptions::default(), 50).expect("update");
    store.put(&vec![b'd'; 5000], PutOptions::default(), 60).expect("chunked");
    let listed = vec![
        RankedHit { frame_id: 0, score: 100 },
        RankedHit { frame_id: 1, score: 90 },
        RankedHit { frame_id: 6, score: 80 },
    ];
    let primary = Some(vec![listed.clone(), listed.clone(), listed]);
    let response = search(&store, &ask("dog OR fox OR d", 10), &primary).expect("search");
    assert_eq!(ids(&response), vec![5, 4]);
    assert_eq!(response.total_hits, 2);
    assert_eq!(response.engine, SearchEngineKind::LexFallback);
}

fn input(query: &str) -> SearchRequestInput {
    SearchRequestInput {
        query: query.to_string(),
        top_k: None,
        snippet_chars: None,
        uri: None,
        scope: None,
        cursor: None,
        no_sketch: None,
        as_of_frame: None,
        as_of_ts: None,
    }
}

#[test]
fn search_request_defaults_and_renders() {
    let store = library();
    let primary = Some(vec![vec![RankedHit { frame_id: 1, score: 0x3fc00000 }]]);
    let output: SearchResponseOutput =
        memvid_search(&store, input("lazy"), &primary, 12).expect("search");
    assert_eq!(output.query, "lazy");
    assert_eq!(output.elapsed_ms, 12);
    assert_eq!(output.total_hits, 2);
    assert_eq!(output.params.top_k, 10);
    assert_eq!(output.params.snippet_chars, 200);
    assert_eq!(output.params.cursor, None);
    assert_eq!(output.engine, "hybrid");
    assert_eq!(output.next_cursor, None);
    let found: Vec<u64> = output.hits.iter().map(|h| h.frame_id).collect();
    assert_eq!(found, vec![1, 0]);
    assert_eq!(output.hits[0].rank, 1);
    assert_eq!(output.hits[0].score, Some(0x3fc00000));
    assert_eq!(output.hits[1].rank, 2);
    assert_eq!(output.hits[1].score, None);
    assert_eq!(output.hits[1].text, "lazy dog");
    assert_eq!(output.hits[1].metadata.as_ref().expect("metadata").tags, vec!["animal"]);
    assert_eq!(output.context, "lazy afternoon; the DOG sleeps, the dog dreams\nlazy dog\n");

    let capped = memvid_search(&store, input("lazy"), &None, u128::MAX).expect("search");
    assert_eq!(capped.elapsed_ms, u64::MAX);
    assert_eq!(capped.engine, "lexical-fallback");

    let mut zero = input("lazy");
    zero.top_k = Some(0);
    assert_eq!(
        memvid_search(&store, zero, &None, 0).map(|o| o.total_hits),
        Err("top_k must be greater than 0".to_string())
    );
    assert_eq!(
        memvid_search(&store, input("tag:"), &None, 0).map(|o| o.total_hits),
        Err("malformed query".to_string())
    );
    let mut bad = input("lazy");
    bad.cursor = Some("x".to_string());
    assert_eq!(
        memvid_search(&store, bad, &None, 0).map(|o| o.total_hits),
        Err("invalid request".to_string())
    );
}

#[test]
fn primary_hits_count_clause_by_clause() {
    let store = library();
    let fox = vec![RankedHit { frame_id: 0, score: 10 }, RankedHit { frame_id: 1, score: 30 }];
    let report = vec![RankedHit { frame_id: 2, score: 20 }, RankedHit { frame_id: 0, score: 40 }];
    let primary = Some(vec![fox.clone(), report.clone()]);
    let both = search(&store, &ask("foxes NOT tag:nap OR reports tag:finance", 10), &primary)
        .expect("search");
    assert_eq!(ids(&both), vec![2, 0]);
    assert_eq!(both.hits[0].score, Some(20));
    assert_eq!(both.hits[1].score, Some(10));
    assert_eq!(both.engine, SearchEngineKind::Tantivy);
    let first_only = search(&store, &ask("foxes OR reports", 10), &Some(vec![fox.clone()]))
        .expect("search");
    assert_eq!(ids(&first_only), vec![1, 0]);
    let surplus = search(&store, &ask("foxes", 10), &Some(vec![fox, report])).expect("search");
    assert_eq!(ids(&surplus), vec![1, 0]);
    assert_eq!(surplus.hits[1].score, Some(10));
    let no_clause = search(&store, &ask("", 10), &Some(vec![vec![RankedHit { frame_id: 0, score: 1 }]]))
        .expect("search");
    assert_eq!(ids(&no_clause), vec![3, 2, 1, 0]);
    assert!(no_clause.hits.iter().all(|hit| hit.score.is_none()));
}

#[test]
fn engines_have_names() {
    assert_eq!(search_engine_label(SearchEngineKind::Tantivy), "primary");
    assert_eq!(search_engine_label(SearchEngineKind::LexFallback), "lexical-fallback");
    assert_eq!(search_engine_label(SearchEngineKind::Hybrid), "hybrid");
}

#[test]
fn search_looks_back_to_a_frame_or_a_time() {
    let mut store = FrameStore::new();
    let put = |store: &mut FrameStore, text: &str, uri: &str, ts: i64| {
        let options = PutOptions {
            uri: Some(uri.to_string()),
            timestamp: Some(ts),
            ..PutOptions::default()
        };
        store.put(text.as_bytes(), options, ts).expect("put");
    };
    put(&mut store, "alpha one", "a", 10);
    put(&mut store, "beta one", "b", 20);
    store.update(0, Some(b"alpha two".to_vec()), PutOptions::default(), 30).expect("update");
    store.delete(1, 40).expect("delete");
    put(&mut store, "gamma one", "c", 50);

    let at = |frame: Option<u64>, ts: Option<i64>| {
        let mut request = ask("", 10);
        request.as_of_frame = frame;
        request.as_of_ts = ts;
        ids(&run(&store, &request))
    };
    assert_eq!(at(None, None), vec![3, 2]);
    assert_eq!(at(Some(0), None), vec![0]);
    assert_eq!(at(Some(1), None), vec![1, 0]);
    assert_eq!(at(Some(2), None), vec![2, 1]);
    assert_eq!(at(Some(3), None), vec![3, 2]);
    assert_eq!(at(Some(99), None), vec![3, 2]);
    assert_eq!(at(None, Some(9)), Vec::<u64>::new());
    assert_eq!(at(None, Some(10)), vec![0]);
    assert_eq!(at(None, Some(29)), vec![1, 0]);
    assert_eq!(at(None, Some(30)), vec![2, 1]);
    assert_eq!(at(None, Some(40)), vec![2]);
    assert_eq!(at(None, Some(50)), vec![3, 2]);
    assert_eq!(at(Some(1), Some(50)), vec![1, 0]);
    assert_eq!(at(Some(3), Some(25)), vec![1, 0]);

    let mut old_text = ask("one", 10);
    old_text.as_of_frame = Some(1);
    assert_eq!(ids(&run(&store, &old_text)), vec![1, 0]);
    assert_eq!(run(&store, &old_text).hits[1].text, "one");
}

#[test]
fn hit_names_the_chunk_that_holds_its_snippet() {
    let mut store = FrameStore::new();
    let mut text = "a".repeat(5000);
    text.push_str("needle");
    text.push_str(&"b".repeat(4000));
    store.put(text.as_bytes(), PutOptions::default(), 1).expect("put");
    let mut request = ask("needle", 10);
    request.snippet_chars = 6;
    let response = run(&store, &request);
    assert_eq!(ids(&response), vec![0]);
    let hit = &response.hits[0];
    assert_eq!(hit.range, (5000, 5006));
    assert_eq!(hit.text, "needle");
    assert_eq!(hit.chunk_range, Some((4096, 8192)));
    assert_eq!(hit.chunk_text.as_deref(), Some(&text[4096..8192]));

    let first = run(&store, &ask("aaa", 10));
    assert_eq!(first.hits[0].chunk_range, Some((0, 4096)));
    let last = run(&store, &ask("bbbb", 10));
    assert_eq!(last.hits[0].range.0, 5006);
    assert_eq!(last.hits[0].chunk_range, Some((4096, 8192)));

    store.put(b"short text", PutOptions::default(), 2).expect("put");
    let short = run(&store, &ask("short", 10));
    assert_eq!(short.hits[0].chunk_range, None);
    assert_eq!(short.hits[0].chunk_text, None);

    let given = PutOptions { search_text: Some("needle elsewhere".to_string()), ..PutOptions::default() };
    store.put(&vec![b'z'; 9000], given, 3).expect("put");
    let elsewhere = run(&store, &ask("elsewhere", 10));
    assert_eq!(ids(&elsewhere), vec![5]);
    assert_eq!(elsewhere.hits[0].chunk_range, None);

    let wide = "é".repeat(3000);
    store.put(wide.as_bytes(), PutOptions::default(), 4).expect("put");
    let mut split = ask("é", 10);
    split.snippet_chars = 1;
    let hit = &run(&store, &split).hits[0];
    assert_eq!(hit.frame_id, 9);
    assert_eq!(hit.chunk_range, Some((0, 4096)));
    assert_eq!(hit.chunk_text.as_deref(), Some(&wide[..4096]));
}
