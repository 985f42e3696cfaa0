use memvid::tokenizer::{analyze, has_alphanumeric, raw_token, retain_alphanumeric, Token};

fn texts(tokens: &[Token]) -> Vec<String> {
    tokens.iter().map(|t| t.text.clone()).collect()
}

#[test]
fn pipeline_lowercases_and_stems_latin_words() {
    let tokens = analyze("Dogs are RUNNING!");
    assert_eq!(texts(&tokens), vec!["dog", "are", "run"]);
}

#[test]
fn pipeline_keeps_segment_positions_and_offsets() {
    let tokens = analyze("Hello, World");
    assert_eq!(texts(&tokens), vec!["hello", "world"]);
    assert_eq!(tokens[0].offset_from, 0);
    assert_eq!(tokens[0].offset_to, 5);
    assert_eq!(tokens[0].position, 0);
    assert_eq!(tokens[1].offset_from, 7);
    assert_eq!(tokens[1].offset_to, 12);
    assert!(tokens[1].position > tokens[0].position);
}

#[test]
fn pipeline_segments_chinese_and_leaves_it_unstemmed() {
    let tokens = analyze("我们都有光明的前途");
    let found = texts(&tokens);
    assert!(found.contains(&"我们".to_string()));
    assert!(found.contains(&"光明".to_string()));
    assert!(found.contains(&"前途".to_string()));
}

#[test]
fn pipeline_is_deterministic() {
    let a = analyze("The quick brown foxes; 北京大学 jumped.");
    let b = analyze("The quick brown foxes; 北京大学 jumped.");
    assert_eq!(texts(&a), texts(&b));
    assert!(a.iter().all(|t| has_alphanumeric(&t.text)));
}

#[test]
fn filter_drops_punctuation_only_tokens() {
    let token = |text: &str, position: usize| Token {
        offset_from: 0,
        offset_to: text.len(),
        position,
        position_length: 1,
        text: text.to_string(),
    };
    let kept = retain_alphanumeric(vec![token("a1", 0), token("；", 1), token(" ", 2), token("é", 3)]);
    assert_eq!(texts(&kept), vec!["a1", "é"]);
    assert_eq!(kept[1].position, 3);
    assert!(!has_alphanumeric("?!"));
    assert!(has_alphanumeric("x"));
    assert!(!has_alphanumeric(""));
}

#[test]
fn raw_token_is_the_value_itself() {
    let token = raw_token("mv2://Tests/CRUD");
    assert_eq!(token.text, "mv2://Tests/CRUD");
    assert_eq!(token.offset_from, 0);
    assert_eq!(token.offset_to, 16);
    assert_eq!(token.position, 0);
    assert_eq!(token.position_length, 1);
}
