//! The layout of the primary index: its fields, how each is indexed, and
//! the analyzers that the fields name.

use crate::tokenizer::{analyze, analyzed, raw_token, raw_token_of, token_views, Token, TokenView};
use vstd::prelude::*;

verus! {

/// The name of the analyzer that runs the whole pipeline.
pub const DEFAULT_TOKENIZER: &'static str = "memvid_default";

/// The name of the analyzer that keeps a value as one token.
pub const RAW_TOKENIZER: &'static str = "raw";

/// What an analyzer does with a text.
#[derive(Clone, Copy, Debug, PartialEq, Eq, Structural)]
pub enum Analyzer {
    /// Segmentation, the alphanumeric filter, lower-casing and stemming.
    Pipeline,
    /// The text itself is the one token.
    Raw,
}

/// What is kept of a term in the index.
#[derive(Clone, Copy, Debug, PartialEq, Eq, Structural)]
pub enum IndexRecord {
    /// Which documents hold the term.
    Basic,
    /// Also how often, and at which positions.
    WithFreqsAndPositions,
}

/// How a field is indexed.
#[derive(Clone, Copy, Debug, PartialEq, Eq, Structural)]
pub enum FieldKind {
    /// Text, analyzed by the named analyzer.
    Text { analyzer: Analyzer, record: IndexRecord },
    /// A signed number, indexed; `fast` where it can be sorted and ranged over.
    I64 { fast: bool },
    /// An unsigned number, indexed; `fast` where it can be sorted and ranged over.
    U64 { fast: bool },
}

/// One field of the index.
#[derive(Clone, Copy, Debug)]
pub struct FieldSpec {
    pub name: &'static str,
    pub kind: FieldKind,
    /// Whether the value can be read back from the index.
    pub stored: bool,
}

/// The mathematical content of a [`FieldSpec`].
pub struct FieldSpecView {
    pub name: Seq<char>,
    pub kind: FieldKind,
    pub stored: bool,
}

impl View for FieldSpec {
    type V = FieldSpecView;

    open spec fn view(&self) -> FieldSpecView {
        FieldSpecView { name: self.name@, kind: self.kind, stored: self.stored }
    }
}

/// The content of each field of a list.
pub open spec fn field_views(fields: Seq<FieldSpec>) -> Seq<FieldSpecView> {
    Seq::new(fields.len(), |i: int| fields[i]@)
}

/// A keyword field: analyzed by the pipeline, presence only, stored.
pub open spec fn keyword_field(name: Seq<char>) -> FieldSpecView {
    FieldSpecView {
        name,
        kind: FieldKind::Text { analyzer: Analyzer::Pipeline, record: IndexRecord::Basic },
        stored: true,
    }
}

/// The fields of the index: the content with frequencies and positions;
/// tags, labels and track as keywords; the URI as one raw token; the
/// timestamp as a sortable number; the frame id. All of them are stored.
pub open spec fn schema_spec() -> Seq<FieldSpecView> {
    seq![
        FieldSpecView {
            name: "content"@,
            kind: FieldKind::Text {
                analyzer: Analyzer::Pipeline,
                record: IndexRecord::WithFreqsAndPositions,
            },
            stored: true,
        },
        keyword_field("tags"@),
        keyword_field("labels"@),
        keyword_field("track"@),
        FieldSpecView {
            name: "uri"@,
            kind: FieldKind::Text { analyzer: Analyzer::Raw, record: IndexRecord::Basic },
            stored: true,
        },
        FieldSpecView { name: "timestamp"@, kind: FieldKind::I64 { fast: true }, stored: true },
        FieldSpecView { name: "frame_id"@, kind: FieldKind::U64 { fast: false }, stored: true },
    ]
}

/// The name under which an analyzer is registered.
pub open spec fn analyzer_name(analyzer: Analyzer) -> Seq<char> {
    match analyzer {
        Analyzer::Pipeline => DEFAULT_TOKENIZER@,
        Analyzer::Raw => RAW_TOKENIZER@,
    }
}

/// The name under which an analyzer is registered, and by which a field
/// of the index asks for it.
pub fn analyzer_label(analyzer: Analyzer) -> (label: &'static str)
    ensures
        label@ == analyzer_name(analyzer),
{
    match analyzer {
        Analyzer::Pipeline => DEFAULT_TOKENIZER,
        Analyzer::Raw => RAW_TOKENIZER,
    }
}

/// The tokens that an analyzer makes of a text of `bytes` bytes.
pub open spec fn tokens_of(analyzer: Analyzer, text: Seq<char>, bytes: nat) -> Seq<TokenView> {
    match analyzer {
        Analyzer::Pipeline => analyzed(text),
        Analyzer::Raw => seq![raw_token_of(text, bytes)],
    }
}

/// Lays out the index.
pub fn build_schema() -> (fields: Vec<FieldSpec>)
    ensures
        field_views(fields@) == schema_spec(),
{
    let keyword = FieldKind::Text { analyzer: Analyzer::Pipeline, record: IndexRecord::Basic };
    let mut fields: Vec<FieldSpec> = Vec::new();
    fields.push(
        FieldSpec {
            name: "content",
            kind: FieldKind::Text {
                analyzer: Analyzer::Pipeline,
                record: IndexRecord::WithFreqsAndPositions,
            },
            stored: true,
        },
    );
    fields.push(FieldSpec { name: "tags", kind: keyword, stored: true });
    fields.push(FieldSpec { name: "labels", kind: keyword, stored: true });
    fields.push(FieldSpec { name: "track", kind: keyword, stored: true });
    fields.push(
        FieldSpec {
            name: "uri",
            kind: FieldKind::Text { analyzer: Analyzer::Raw, record: IndexRecord::Basic },
            stored: true,
        },
    );
    fields.push(FieldSpec { name: "timestamp", kind: FieldKind::I64 { fast: true }, stored: true });
    fields.push(FieldSpec { name: "frame_id", kind: FieldKind::U64 { fast: false }, stored: true });
    assert(field_views(fields@) =~= schema_spec());
    fields
}

/// The analyzers of the index, each under its name: the pipeline, and the
/// raw analyzer.
pub fn initialise_tokenizer() -> (registry: Vec<(&'static str, Analyzer)>)
    ensures
        registry.len() == 2,
        registry[0].1 == Analyzer::Pipeline,
        registry[1].1 == Analyzer::Raw,
        forall|i: int| 0 <= i < 2 ==> (#[trigger] registry[i]).0@ == analyzer_name(registry[i].1),
{
    let mut registry: Vec<(&'static str, Analyzer)> = Vec::new();
    registry.push((analyzer_label(Analyzer::Pipeline), Analyzer::Pipeline));
    registry.push((analyzer_label(Analyzer::Raw), Analyzer::Raw));
    registry
}

/// Runs an analyzer on a text.
pub fn tokenize(analyzer: Analyzer, text: &str) -> (tokens: Vec<Token>)
    ensures
        token_views(tokens@) == tokens_of(analyzer, text@, text.len() as nat),
{
    match analyzer {
        Analyzer::Pipeline => analyze(text),
        Analyzer::Raw => {
            let mut tokens: Vec<Token> = Vec::new();
            tokens.push(raw_token(text));
            assert(token_views(tokens@) =~= seq![raw_token_of(text@, text.len() as nat)]);
            tokens
        },
    }
}

} // verus!
