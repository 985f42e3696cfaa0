use memvid::schema::{
    analyzer_label, build_schema, initialise_tokenizer, tokenize, Analyzer, FieldKind, IndexRecord,
};

#[test]
fn schema_lists_the_fields_of_the_index() {
    let fields = build_schema();
    let names: Vec<&str> = fields.iter().map(|f| f.name).collect();
    assert_eq!(names, vec!["content", "tags", "labels", "track", "uri", "timestamp", "frame_id"]);
    assert!(fields.iter().all(|f| f.stored));
    assert_eq!(
        fields[0].kind,
        FieldKind::Text { analyzer: Analyzer::Pipeline, record: IndexRecord::WithFreqsAndPositions }
    );
    for keyword in &fields[1..4] {
        assert_eq!(
            keyword.kind,
            FieldKind::Text { analyzer: Analyzer::Pipeline, record: IndexRecord::Basic }
        );
    }
    assert_eq!(
        fields[4].kind,
        FieldKind::Text { analyzer: Analyzer::Raw, record: IndexRecord::Basic }
    );
    assert_eq!(fields[5].kind, FieldKind::I64 { fast: true });
    assert_eq!(fields[6].kind, FieldKind::U64 { fast: false });
}

#[test]
fn registry_names_both_analyzers() {
    let registry = initialise_tokenizer();
    assert_eq!(registry, vec![("memvid_default", Analyzer::Pipeline), ("raw", Analyzer::Raw)]);
}

#[test]
fn analyzers_tokenize_as_named() {
    let piped: Vec<String> =
        tokenize(Analyzer::Pipeline, "Running, Foxes!").into_iter().map(|t| t.text).collect();
    assert_eq!(piped, vec!["run", "fox"]);
    let raw = tokenize(Analyzer::Raw, "Running, Foxes!");
    assert_eq!(raw.len(), 1);
    assert_eq!(raw[0].text, "Running, Foxes!");
    assert_eq!(raw[0].offset_to, 15);
}

#[test]
fn analyzers_are_asked_for_by_their_names() {
    assert_eq!(analyzer_label(Analyzer::Pipeline), "memvid_default");
    assert_eq!(analyzer_label(Analyzer::Raw), "raw");
    for (name, analyzer) in initialise_tokenizer() {
        assert_eq!(name, analyzer_label(analyzer));
    }
}
