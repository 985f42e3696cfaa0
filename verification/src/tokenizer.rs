//! The tokenizer pipeline: segmentation, the alphanumeric filter,
//! lower-casing and stemming, in this order, for indexing and for queries
//! alike.

use crate::text::str_chars;
use vstd::prelude::*;

verus! {

/// One token of a text.
#[derive(Clone, Debug)]
pub struct Token {
    /// The byte offset of the token's first character in the text.
    pub offset_from: usize,
    /// The byte offset behind the token's last character.
    pub offset_to: usize,
    /// The ordinal of the token among the segments of the text.
    pub position: usize,
    /// The number of positions that the token spans.
    pub position_length: usize,
    /// The text of the token.
    pub text: String,
}

/// The mathematical content of a [`Token`].
pub struct TokenView {
    pub offset_from: nat,
    pub offset_to: nat,
    pub position: nat,
    pub position_length: nat,
    pub text: Seq<char>,
}

impl View for Token {
    type V = TokenView;

    open spec fn view(&self) -> TokenView {
        TokenView {
            offset_from: self.offset_from as nat,
            offset_to: self.offset_to as nat,
            position: self.position as nat,
            position_length: self.position_length as nat,
            text: self.text@,
        }
    }
}

/// The content of each token of a list.
pub open spec fn token_views(tokens: Seq<Token>) -> Seq<TokenView> {
    Seq::new(tokens.len(), |i: int| tokens[i]@)
}

/// The segments that the dictionary-based segmenter cuts `text` into, in
/// search mode, with ordinal positions.
pub uninterp spec fn segmented(text: Seq<char>) -> Seq<TokenView>;

/// `text` in lower case.
pub uninterp spec fn lowercased(text: Seq<char>) -> Seq<char>;

/// The stem of the English word `text`.
pub uninterp spec fn stemmed(text: Seq<char>) -> Seq<char>;

/// Whether `c` is a letter or a digit.
pub uninterp spec fn alphanumeric(c: char) -> bool;

/// `text` holds a letter or a digit.
pub open spec fn contains_alphanumeric(text: Seq<char>) -> bool {
    exists|i: int| 0 <= i < text.len() && alphanumeric(#[trigger] text[i])
}

/// The tokens that hold a letter or a digit, in their order.
pub open spec fn kept(tokens: Seq<TokenView>) -> Seq<TokenView>
    decreases tokens.len(),
{
    if tokens.len() == 0 {
        Seq::empty()
    } else if contains_alphanumeric(tokens.last().text) {
        kept(tokens.drop_last()).push(tokens.last())
    } else {
        kept(tokens.drop_last())
    }
}

/// The token with its text in lower case and stemmed; offsets and
/// position stay.
pub open spec fn finished(t: TokenView) -> TokenView {
    TokenView { text: stemmed(lowercased(t.text)), ..t }
}

/// The tokens of `text`: its segments, without those that hold no letter
/// or digit, each in lower case and stemmed.
pub open spec fn analyzed(text: Seq<char>) -> Seq<TokenView> {
    let survivors = kept(segmented(text));
    Seq::new(survivors.len(), |i: int| finished(survivors[i]))
}

/// The one token that an exact-match field makes of its value.
pub open spec fn raw_token_of(text: Seq<char>, bytes: nat) -> TokenView {
    TokenView { offset_from: 0, offset_to: bytes, position: 0, position_length: 1, text }
}

/// `JiebaTokenizer::token_stream` of `tantivy_jieba`, in search mode and
/// with ordinal positions, drained into a list. The contract only names
/// the result.
#[verifier::external_body]
pub(crate) fn segment(text: &str) -> (tokens: Vec<Token>)
    ensures
        token_views(tokens@) == segmented(text@),
{
    let mut tokenizer = tantivy_jieba::JiebaTokenizer::new();
    tokenizer.set_ordinal_position_mode(true);
    let mut stream = tantivy::tokenizer::Tokenizer::token_stream(&mut tokenizer, text);
    let mut tokens: Vec<Token> = Vec::new();
    while let Some(t) = tantivy::tokenizer::TokenStream::next(&mut stream) {
        let (offset_from, offset_to, text) = (t.offset_from, t.offset_to, t.text.clone());
        let (position, position_length) = (t.position, t.position_length);
        tokens.push(Token { offset_from, offset_to, position, position_length, text });
    }
    tokens
}

/// `tantivy`'s `LowerCaser` applied to one token. The contract only names
/// the result.
#[verifier::external_body]
pub(crate) fn lowercase(text: &str) -> (r: String)
    ensures
        r@ == lowercased(text@),
{
    let mut analyzer = tantivy::tokenizer::TextAnalyzer::builder(
        tantivy::tokenizer::RawTokenizer::default(),
    ).filter(tantivy::tokenizer::LowerCaser).build();
    let mut stream = analyzer.token_stream(text);
    match tantivy::tokenizer::TokenStream::next(&mut stream) {
        Some(t) => t.text.clone(),
        None => String::new(),
    }
}

/// `tantivy`'s English `Stemmer` applied to one token. The contract only
/// names the result.
#[verifier::external_body]
pub(crate) fn stem(text: &str) -> (r: String)
    ensures
        r@ == stemmed(text@),
{
    let mut analyzer = tantivy::tokenizer::TextAnalyzer::builder(
        tantivy::tokenizer::RawTokenizer::default(),
    ).filter(tantivy::tokenizer::Stemmer::new(tantivy::tokenizer::Language::English)).build();
    let mut stream = analyzer.token_stream(text);
    match tantivy::tokenizer::TokenStream::next(&mut stream) {
        Some(t) => t.text.clone(),
        None => String::new(),
    }
}

/// `char::is_alphanumeric`. The contract only names the result.
#[verifier::external_body]
pub(crate) fn is_alphanumeric(c: char) -> (b: bool)
    ensures
        b == alphanumeric(c),
{
    c.is_alphanumeric()
}

/// For each character of a text, whether it is a letter or a digit.
fn alphanumeric_marks(text: &str) -> (marks: Vec<bool>)
    ensures
        marks.len() == text@.len(),
        forall|i: int| 0 <= i < marks.len() ==> marks[i] == alphanumeric(#[trigger] text@[i]),
{
    let chars: Vec<char> = str_chars(text);
    let mut marks: Vec<bool> = Vec::new();
    let mut i: usize = 0;
    while i < chars.len()
        invariant
            i <= chars.len(),
            chars@ == text@,
            marks.len() == i,
            forall|j: int| 0 <= j < i ==> marks[j] == alphanumeric(#[trigger] text@[j]),
        decreases chars.len() - i,
    {
        marks.push(is_alphanumeric(chars[i]));
        i = i + 1;
    }
    marks
}

/// Whether one of the marks is set.
pub fn any_marked(marks: &Vec<bool>) -> (b: bool)
    ensures
        b == (exists|i: int| 0 <= i < marks.len() && #[trigger] marks[i]),
{
    let mut i: usize = 0;
    while i < marks.len()
        invariant
            i <= marks.len(),
            forall|j: int| 0 <= j < i ==> !(#[trigger] marks[j]),
        decreases marks.len() - i,
    {
        if marks[i] {
            return true;
        }
        i = i + 1;
    }
    false
}

/// Whether a token text holds a letter or a digit.
pub fn has_alphanumeric(text: &str) -> (b: bool)
    ensures
        b == contains_alphanumeric(text@),
{
    let marks: Vec<bool> = alphanumeric_marks(text);
    let b: bool = any_marked(&marks);
    proof {
        if b {
            let i = choose|i: int| 0 <= i < marks.len() && #[trigger] marks[i];
            assert(alphanumeric(text@[i]));
        } else {
            assert forall|i: int| 0 <= i < text@.len() implies !alphanumeric(
                #[trigger] text@[i],
            ) by {
                assert(!marks[i]);
            }
        }
    }
    b
}

/// Drops the tokens that hold no letter or digit.
pub fn retain_alphanumeric(tokens: Vec<Token>) -> (out: Vec<Token>)
    ensures
        token_views(out@) == kept(token_views(tokens@)),
{
    let mut out: Vec<Token> = Vec::new();
    let mut i: usize = 0;
    proof {
        assert(token_views(tokens@).take(0) =~= Seq::<TokenView>::empty());
        assert(token_views(out@) =~= Seq::<TokenView>::empty());
    }
    while i < tokens.len()
        invariant
            i <= tokens.len(),
            token_views(out@) == kept(token_views(tokens@).take(i as int)),
        decreases tokens.len() - i,
    {
        let t: &Token = &tokens[i];
        let ghost before = token_views(out@);
        proof {
            let next = token_views(tokens@).take(i + 1);
            assert(next.drop_last() =~= token_views(tokens@).take(i as int));
            assert(next.last() == t@);
        }
        if has_alphanumeric(t.text.as_str()) {
            out.push(
                Token {
                    offset_from: t.offset_from,
                    offset_to: t.offset_to,
                    position: t.position,
                    position_length: t.position_length,
                    text: t.text.clone(),
                },
            );
            assert(token_views(out@) =~= before.push(t@));
        }
        i = i + 1;
    }
    proof {
        assert(token_views(tokens@).take(tokens.len() as int) =~= token_views(tokens@));
    }
    out
}

/// Runs the whole pipeline on `text`.
pub fn analyze(text: &str) -> (tokens: Vec<Token>)
    ensures
        token_views(tokens@) == analyzed(text@),
{
    let survivors: Vec<Token> = retain_alphanumeric(segment(text));
    let mut out: Vec<Token> = Vec::new();
    let mut i: usize = 0;
    while i < survivors.len()
        invariant
            i <= survivors.len(),
            out.len() == i,
            forall|j: int| 0 <= j < i ==> (#[trigger] out[j])@ == finished(survivors[j]@),
        decreases survivors.len() - i,
    {
        let t: &Token = &survivors[i];
        let lower: String = lowercase(t.text.as_str());
        out.push(
            Token {
                offset_from: t.offset_from,
                offset_to: t.offset_to,
                position: t.position,
                position_length: t.position_length,
                text: stem(lower.as_str()),
            },
        );
        i = i + 1;
    }
    assert(token_views(out@) =~= analyzed(text@));
    out
}

/// The one token of an exact-match field: the value itself, unchanged.
pub fn raw_token(text: &str) -> (token: Token)
    ensures
        token@ == raw_token_of(text@, text.len() as nat),
{
    Token {
        offset_from: 0,
        offset_to: text.len(),
        position: 0,
        position_length: 1,
        text: text.to_owned(),
    }
}

/// Every token that survives the filter holds a letter or a digit.
pub proof fn lemma_kept_alphanumeric(tokens: Seq<TokenView>, i: int)
    requires
        0 <= i < kept(tokens).len(),
    ensures
        contains_alphanumeric(kept(tokens)[i].text),
    decreases tokens.len(),
{
    if tokens.len() > 0 {
        if contains_alphanumeric(tokens.last().text) {
            if i < kept(tokens.drop_last()).len() {
                lemma_kept_alphanumeric(tokens.drop_last(), i);
            }
        } else {
            lemma_kept_alphanumeric(tokens.drop_last(), i);
        }
    }
}

/// The same text always gives the same tokens, whoever analyzes it and
/// when: the tokens of two equal texts are equal, and each of them stems
/// from a segment that holds a letter or a digit.
pub proof fn lemma_analysis_deterministic(a: Seq<char>, b: Seq<char>)
    requires
        a == b,
    ensures
        analyzed(a) == analyzed(b),
        analyzed(a).len() == kept(segmented(a)).len(),
        forall|i: int|
            0 <= i < analyzed(a).len() ==> contains_alphanumeric(
                (#[trigger] kept(segmented(a))[i]).text,
            ),
{
    assert forall|i: int| 0 <= i < analyzed(a).len() implies contains_alphanumeric(
        (#[trigger] kept(segmented(a))[i]).text,
    ) by {
        lemma_kept_alphanumeric(segmented(a), i);
    }
}

} // verus!
