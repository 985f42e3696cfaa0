//! The options that accompany a put or an update.

use crate::frame::{opt_metadata, DocMetadata, DocMetadataView};
use crate::text::{opt_text, str_eq, text_pairs, texts};
use vstd::prelude::*;

verus! {

/// What a caller may say about the frame that a put or an update writes.
/// Every field is independent of the others.
#[derive(Clone, Debug)]
pub struct PutOptions {
    pub timestamp: Option<i64>,
    pub track: Option<String>,
    pub kind: Option<String>,
    pub uri: Option<String>,
    pub title: Option<String>,
    pub search_text: Option<String>,
    pub tags: Vec<String>,
    pub labels: Vec<String>,
    pub extra_metadata: Vec<(String, String)>,
    pub metadata: Option<DocMetadata>,
    pub enable_embedding: bool,
    pub auto_tag: bool,
    pub extract_dates: bool,
    pub extract_triplets: bool,
    pub no_raw: bool,
    pub source_path: Option<String>,
    pub dedup: bool,
    pub instant_index: bool,
    pub extraction_budget_ms: u64,
}

/// The mathematical content of [`PutOptions`].
pub struct PutOptionsView {
    pub timestamp: Option<i64>,
    pub track: Option<Seq<char>>,
    pub kind: Option<Seq<char>>,
    pub uri: Option<Seq<char>>,
    pub title: Option<Seq<char>>,
    pub search_text: Option<Seq<char>>,
    pub tags: Seq<Seq<char>>,
    pub labels: Seq<Seq<char>>,
    pub extra_metadata: Seq<(Seq<char>, Seq<char>)>,
    pub metadata: Option<DocMetadataView>,
    pub enable_embedding: bool,
    pub auto_tag: bool,
    pub extract_dates: bool,
    pub extract_triplets: bool,
    pub no_raw: bool,
    pub source_path: Option<Seq<char>>,
    pub dedup: bool,
    pub instant_index: bool,
    pub extraction_budget_ms: u64,
}

impl View for PutOptions {
    type V = PutOptionsView;

    open spec fn view(&self) -> PutOptionsView {
        PutOptionsView {
            timestamp: self.timestamp,
            track: opt_text(self.track),
            kind: opt_text(self.kind),
            uri: opt_text(self.uri),
            title: opt_text(self.title),
            search_text: opt_text(self.search_text),
            tags: texts(self.tags@),
            labels: texts(self.labels@),
            extra_metadata: text_pairs(self.extra_metadata@),
            metadata: opt_metadata(self.metadata),
            enable_embedding: self.enable_embedding,
            auto_tag: self.auto_tag,
            extract_dates: self.extract_dates,
            extract_triplets: self.extract_triplets,
            no_raw: self.no_raw,
            source_path: opt_text(self.source_path),
            dedup: self.dedup,
            instant_index: self.instant_index,
            extraction_budget_ms: self.extraction_budget_ms,
        }
    }
}

/// The options of a caller who says nothing: no field set, no list filled,
/// every toggle off.
pub open spec fn default_options() -> PutOptionsView {
    PutOptionsView {
        timestamp: None,
        track: None,
        kind: None,
        uri: None,
        title: None,
        search_text: None,
        tags: Seq::empty(),
        labels: Seq::empty(),
        extra_metadata: Seq::empty(),
        metadata: None,
        enable_embedding: false,
        auto_tag: false,
        extract_dates: false,
        extract_triplets: false,
        no_raw: false,
        source_path: None,
        dedup: false,
        instant_index: false,
        extraction_budget_ms: 0,
    }
}

impl Default for PutOptions {
    fn default() -> (options: PutOptions)
        ensures
            options@ == default_options(),
    {
        let options = PutOptions {
            timestamp: None,
            track: None,
            kind: None,
            uri: None,
            title: None,
            search_text: None,
            tags: Vec::new(),
            labels: Vec::new(),
            extra_metadata: Vec::new(),
            metadata: None,
            enable_embedding: false,
            auto_tag: false,
            extract_dates: false,
            extract_triplets: false,
            no_raw: false,
            source_path: None,
            dedup: false,
            instant_index: false,
            extraction_budget_ms: 0,
        };
        assert(options@.tags =~= Seq::<Seq<char>>::empty());
        assert(options@.labels =~= Seq::<Seq<char>>::empty());
        assert(options@.extra_metadata =~= Seq::<(Seq<char>, Seq<char>)>::empty());
        options
    }
}

/// No key occurs twice among the pairs.
pub open spec fn keys_distinct(pairs: Seq<(Seq<char>, Seq<char>)>) -> bool {
    forall|i: int, j: int|
        0 <= i < j < pairs.len() ==> (#[trigger] pairs[i]).0 != (#[trigger] pairs[j]).0
}

/// The options are well formed: a URI, where given, is not empty, and no
/// metadata key is given twice.
pub open spec fn options_valid(o: PutOptionsView) -> bool {
    &&& o.uri != Some(Seq::<char>::empty())
    &&& keys_distinct(o.extra_metadata)
}

/// Whether no key occurs twice among the pairs.
pub fn pairs_distinct(pairs: &Vec<(String, String)>) -> (ok: bool)
    ensures
        ok == keys_distinct(text_pairs(pairs@)),
{
    let ghost v = text_pairs(pairs@);
    let mut j: usize = 0;
    while j < pairs.len()
        invariant
            j <= pairs.len(),
            v == text_pairs(pairs@),
            forall|a: int, b: int| 0 <= a < b < j ==> (#[trigger] v[a]).0 != (#[trigger] v[b]).0,
        decreases pairs.len() - j,
    {
        let mut i: usize = 0;
        while i < j
            invariant
                i <= j < pairs.len(),
                v == text_pairs(pairs@),
                forall|a: int| 0 <= a < i ==> (#[trigger] v[a]).0 != v[j as int].0,
            decreases j - i,
        {
            if str_eq(pairs[i].0.as_str(), pairs[j].0.as_str()) {
                assert(v[i as int].0 == v[j as int].0);
                return false;
            }
            i = i + 1;
        }
        j = j + 1;
    }
    true
}

} // verus!
