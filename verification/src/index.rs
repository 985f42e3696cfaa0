//! What the primary index is fed and asked: the documents that stand for
//! the frames of a store, and the tokens that stand for a query.

use crate::frame::{Frame, FrameStatus, FrameView};
use crate::lexical::asks_term;
use crate::model::{is_active, StoreModel};
use crate::query::{clause_view, Atom, Literal, LiteralView, Query};
use crate::store::FrameStore;
use crate::text::{chars_to_string, clone_opt, clone_texts, opt_text, texts};
use crate::tokenizer::{analyze, analyzed, Token};
use vstd::prelude::*;

verus! {

/// What the primary index holds of one frame.
#[derive(Clone, Debug)]
pub struct IndexDocument {
    pub frame_id: u64,
    pub timestamp: i64,
    pub content: Option<String>,
    pub tags: Vec<String>,
    pub labels: Vec<String>,
    pub track: Option<String>,
    pub uri: Option<String>,
}

/// The mathematical content of an [`IndexDocument`].
pub struct IndexDocumentView {
    pub frame_id: u64,
    pub timestamp: i64,
    pub content: Option<Seq<char>>,
    pub tags: Seq<Seq<char>>,
    pub labels: Seq<Seq<char>>,
    pub track: Option<Seq<char>>,
    pub uri: Option<Seq<char>>,
}

impl View for IndexDocument {
    type V = IndexDocumentView;

    open spec fn view(&self) -> IndexDocumentView {
        IndexDocumentView {
            frame_id: self.frame_id,
            timestamp: self.timestamp,
            content: opt_text(self.content),
            tags: texts(self.tags@),
            labels: texts(self.labels@),
            track: opt_text(self.track),
            uri: opt_text(self.uri),
        }
    }
}

/// The content of each document of a list.
pub open spec fn document_views(documents: Seq<IndexDocument>) -> Seq<IndexDocumentView> {
    Seq::new(documents.len(), |i: int| documents[i]@)
}

/// The document that stands for a frame: its indexed text as the content,
/// and the fields that can be filtered on.
pub open spec fn document_of(f: FrameView) -> IndexDocumentView {
    IndexDocumentView {
        frame_id: f.id,
        timestamp: f.timestamp,
        content: f.search_text,
        tags: f.tags,
        labels: f.labels,
        track: f.track,
        uri: f.uri,
    }
}

/// The frame `i` is indexed: it is active and no chunk of another frame.
pub open spec fn indexable(m: StoreModel, i: int) -> bool {
    is_active(m, i) && m.frames[i].parent_id is None
}

/// The documents of the indexed frames among the first `k`, in the order
/// of the log.
pub open spec fn documents_below(m: StoreModel, k: int) -> Seq<IndexDocumentView>
    decreases k,
{
    if k <= 0 {
        Seq::empty()
    } else if indexable(m, k - 1) {
        documents_below(m, k - 1).push(document_of(m.frames[k - 1]))
    } else {
        documents_below(m, k - 1)
    }
}

/// The texts of the tokens that the pipeline makes of a term.
pub open spec fn term_tokens(term: Seq<char>) -> Seq<Seq<char>> {
    Seq::new(analyzed(term).len(), |k: int| analyzed(term)[k].text)
}

/// The tokens that the index is asked for a clause: those of the terms
/// that the clause asks for, in their order. Filters and negations are
/// left to the store.
pub open spec fn clause_tokens(clause: Seq<LiteralView>) -> Seq<Seq<char>>
    decreases clause.len(),
{
    if clause.len() == 0 {
        Seq::empty()
    } else if asks_term(clause.last()) {
        clause_tokens(clause.drop_last()) + term_tokens(clause.last().atom->Term_0)
    } else {
        clause_tokens(clause.drop_last())
    }
}

/// The tokens that the index is asked for a query, clause by clause.
pub open spec fn query_tokens(q: Seq<Seq<LiteralView>>) -> Seq<Seq<Seq<char>>> {
    Seq::new(q.len(), |c: int| clause_tokens(q[c]))
}

/// The texts of each list of tokens.
pub open spec fn token_lists(lists: Seq<Vec<String>>) -> Seq<Seq<Seq<char>>> {
    Seq::new(lists.len(), |c: int| texts(lists[c]@))
}

impl FrameStore {
    /// The documents to index: one for each active frame that is no chunk
    /// of another, in the order of the log.
    pub fn index_documents(&self) -> (documents: Vec<IndexDocument>)
        requires
            self.wf(),
        ensures
            document_views(documents@) == documents_below(self@, self@.frames.len() as int),
    {
        let n: usize = self.frame_count();
        let mut documents: Vec<IndexDocument> = Vec::new();
        let mut i: usize = 0;
        proof {
            assert(document_views(documents@) =~= Seq::<IndexDocumentView>::empty());
        }
        while i < n
            invariant
                self.wf(),
                i <= n,
                n == self@.frames.len(),
                document_views(documents@) == documents_below(self@, i as int),
            decreases n - i,
        {
            let f: &Frame = self.frame_at(i);
            if f.status == FrameStatus::Active && f.parent_id.is_none() {
                let ghost before = document_views(documents@);
                let document = IndexDocument {
                    frame_id: f.id,
                    timestamp: f.timestamp,
                    content: clone_opt(&f.search_text),
                    tags: clone_texts(&f.tags),
                    labels: clone_texts(&f.labels),
                    track: clone_opt(&f.track),
                    uri: clone_opt(&f.uri),
                };
                let ghost added = document@;
                documents.push(document);
                assert(document_views(documents@) =~= before.push(added));
            }
            i = i + 1;
        }
        documents
    }
}

/// Appends the texts of the tokens of a term to a list.
fn push_term_tokens(out: &mut Vec<String>, term: &Vec<char>)
    ensures
        texts(final(out)@) == texts(old(out)@) + term_tokens(term@),
{
    let text: String = chars_to_string(term);
    let tokens: Vec<Token> = analyze(text.as_str());
    let ghost base = texts(out@);
    let mut k: usize = 0;
    proof {
        assert(term_tokens(term@).take(0) =~= Seq::<Seq<char>>::empty());
        assert(base + term_tokens(term@).take(0) =~= base);
    }
    while k < tokens.len()
        invariant
            k <= tokens.len(),
            tokens.len() == term_tokens(term@).len(),
            forall|j: int| 0 <= j < tokens.len() ==> (#[trigger] tokens[j]).text@ == term_tokens(
                term@,
            )[j],
            texts(out@) == base + term_tokens(term@).take(k as int),
        decreases tokens.len() - k,
    {
        let ghost before = texts(out@);
        out.push(tokens[k].text.clone());
        k = k + 1;
        assert(texts(out@) =~= before.push(term_tokens(term@)[k - 1]));
        assert(base + term_tokens(term@).take(k as int) =~= before.push(
            term_tokens(term@)[k - 1],
        ));
    }
    proof {
        assert(term_tokens(term@).take(tokens.len() as int) =~= term_tokens(term@));
    }
}

/// The tokens that the index is asked for a clause.
pub fn index_clause(clause: &Vec<Literal>) -> (tokens: Vec<String>)
    ensures
        texts(tokens@) == clause_tokens(clause_view(clause@)),
{
    let mut tokens: Vec<String> = Vec::new();
    let ghost cv = clause_view(clause@);
    let mut k: usize = 0;
    proof {
        assert(cv.take(0) =~= Seq::<LiteralView>::empty());
        assert(texts(tokens@) =~= Seq::<Seq<char>>::empty());
    }
    while k < clause.len()
        invariant
            k <= clause.len(),
            cv == clause_view(clause@),
            texts(tokens@) == clause_tokens(cv.take(k as int)),
        decreases clause.len() - k,
    {
        proof {
            let next = cv.take(k + 1);
            assert(next.drop_last() =~= cv.take(k as int));
            assert(next.last() == clause[k as int]@);
        }
        match &clause[k].atom {
            Atom::Term(term) => {
                if !clause[k].negated {
                    push_term_tokens(&mut tokens, term);
                }
            },
            _ => {},
        }
        k = k + 1;
    }
    proof {
        assert(cv.take(clause.len() as int) =~= cv);
    }
    tokens
}

/// The tokens that the index is asked for a query: for each clause, in
/// the order of the clauses, what the pipeline makes of its terms.
pub fn index_query(q: &Query) -> (lists: Vec<Vec<String>>)
    ensures
        token_lists(lists@) == query_tokens(q@),
{
    let mut lists: Vec<Vec<String>> = Vec::new();
    let mut c: usize = 0;
    while c < q.clauses.len()
        invariant
            c <= q.clauses.len(),
            lists.len() == c,
            forall|j: int| 0 <= j < c ==> texts((#[trigger] lists[j])@) == clause_tokens(q@[j]),
        decreases q.clauses.len() - c,
    {
        lists.push(index_clause(&q.clauses[c]));
        c = c + 1;
    }
    assert(token_lists(lists@) =~= query_tokens(q@));
    lists
}

} // verus!
