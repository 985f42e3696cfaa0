//! The hybrid search engine: the hits of the primary index, as far as the
//! store vouches for them, followed by what only the lexical matcher
//! finds, in pages.

use crate::cursor::{first_colon, first_colon_at, has_colon, lemma_first_colon};
use crate::decimal::{
    decimal_digits, decimal_signed, lemma_decimal_digits, parse_u64, parse_u64_spec, push_decimal,
    push_decimal_signed, strip_plus,
};
use crate::encoding::utf8_text;
use crate::error::ErrorKind;
use crate::frame::{Frame, FrameView, Retirement};
use crate::lexical::{
    anchor, count_matches, find_first, fold, folded_text, frame_matches, lemma_first_match,
    match_total, positive_terms, query_holds, query_terms, rest_holds, rest_matches, starts_with,
};
use crate::model::{text_of, StoreModel, CHUNK_BYTES};
use crate::query::{clause_view, parse_query, parse_query_spec, Literal, LiteralView, Query};
use crate::ranking::{
    best_of, eligible, has_best, hits_behind, lemma_best_unique, lemma_ranked_len,
    lemma_ranked_split, next_best, rank_key, ranked, RankKey,
};
use crate::store::FrameStore;
use crate::text::{bytes_eq, chars_range, clone_opt, clone_texts, opt_text, str_chars, texts};
use vstd::prelude::*;
use vstd::string::{StrSliceExecFns, StringExecFns};
use vstd::utf8::encode_utf8;

verus! {

/// Which engine served a search.
#[derive(Clone, Copy, Debug, PartialEq, Eq, Structural)]
pub enum SearchEngineKind {
    /// The primary index alone.
    Tantivy,
    /// The lexical matcher alone.
    LexFallback,
    /// Both: the hits of the primary index, then what only the matcher found.
    Hybrid,
}

/// The label under which a response records the path that served it.
pub open spec fn engine_label(engine: SearchEngineKind) -> Seq<char> {
    match engine {
        SearchEngineKind::Tantivy => "primary"@,
        SearchEngineKind::LexFallback => "lexical-fallback"@,
        SearchEngineKind::Hybrid => "hybrid"@,
    }
}

/// The label of the path that served a request.
pub fn search_engine_label(engine: SearchEngineKind) -> (label: &'static str)
    ensures
        label@ == engine_label(engine),
{
    match engine {
        SearchEngineKind::Tantivy => "primary",
        SearchEngineKind::LexFallback => "lexical-fallback",
        SearchEngineKind::Hybrid => "hybrid",
    }
}

/// What a search asks for.
#[derive(Clone, Debug)]
pub struct SearchRequest {
    pub query: String,
    /// The number of hits of a page; zero is refused.
    pub top_k: usize,
    /// The number of characters of a snippet at most.
    pub snippet_chars: usize,
    /// Only the frame with this URI.
    pub uri: Option<String>,
    /// Only frames whose URI begins with this.
    pub scope: Option<String>,
    /// Where the page before this one ended.
    pub cursor: Option<String>,
    /// The store as it was when this frame was made: frames with an id up
    /// to this one, without what later writes retired.
    pub as_of_frame: Option<u64>,
    /// The store as it was at this time: frames with a timestamp up to this
    /// one, without what was retired later.
    pub as_of_ts: Option<i64>,
    /// Whether to bypass probabilistic pre-filtering; this engine has none.
    pub no_sketch: bool,
}

/// One hit of the primary index: a frame id and its relevance, given as
/// the bits of a non-negative single-precision number, which order as
/// the numbers do.
#[derive(Clone, Copy, Debug, PartialEq, Eq, Structural)]
pub struct RankedHit {
    pub frame_id: u64,
    pub score: u32,
}

/// The parameters that a search ran with.
#[derive(Clone, Debug)]
pub struct SearchParams {
    pub top_k: usize,
    pub snippet_chars: usize,
    pub cursor: Option<String>,
}

/// An entity detected in the text of a hit.
#[derive(Clone, Debug)]
pub struct SearchHitEntity {
    pub name: String,
    pub kind: String,
    /// The bits of a single-precision number between zero and one.
    pub confidence: Option<u32>,
}

/// What a hit echoes of its frame.
#[derive(Clone, Debug)]
pub struct SearchHitMetadata {
    pub matches: usize,
    pub tags: Vec<String>,
    pub labels: Vec<String>,
    pub track: Option<String>,
    pub created_at: Option<String>,
    pub content_dates: Vec<String>,
    pub entities: Vec<SearchHitEntity>,
}

/// One hit of a search.
#[derive(Debug)]
pub struct SearchHit {
    /// The place of the hit on its page, from one.
    pub rank: usize,
    pub frame_id: u64,
    pub uri: String,
    pub title: Option<String>,
    /// The characters of the frame's text that the snippet shows.
    pub range: (usize, usize),
    /// The snippet.
    pub text: String,
    pub matches: usize,
    pub chunk_range: Option<(usize, usize)>,
    pub chunk_text: Option<String>,
    /// The relevance that the primary index gave, as bits; none for a hit
    /// that only the lexical matcher found.
    pub score: Option<u32>,
    pub metadata: Option<SearchHitMetadata>,
}

/// The answer to a search.
#[derive(Debug)]
pub struct SearchResponse {
    pub query: String,
    pub elapsed_ms: u128,
    pub total_hits: usize,
    pub params: SearchParams,
    pub hits: Vec<SearchHit>,
    pub context: String,
    pub next_cursor: Option<String>,
    pub engine: SearchEngineKind,
}

/// The mathematical content of a [`SearchHit`], its metadata included.
pub struct SearchHitView {
    pub rank: nat,
    pub frame_id: u64,
    pub uri: Seq<char>,
    pub title: Option<Seq<char>>,
    pub range: (nat, nat),
    pub text: Seq<char>,
    pub matches: nat,
    pub chunk_range: Option<(nat, nat)>,
    pub chunk_text: Option<Seq<char>>,
    pub score: Option<u32>,
    pub tags: Seq<Seq<char>>,
    pub labels: Seq<Seq<char>>,
    pub track: Option<Seq<char>>,
    pub created_at: Option<Seq<char>>,
    pub content_dates: Seq<Seq<char>>,
    pub entities: nat,
}

impl SearchHit {
    /// The hit carries metadata, with the same match count as the hit.
    pub open spec fn has_metadata(&self) -> bool {
        self.metadata is Some && self.metadata->0.matches == self.matches
    }
}

impl View for SearchHit {
    type V = SearchHitView;

    open spec fn view(&self) -> SearchHitView {
        SearchHitView {
            rank: self.rank as nat,
            frame_id: self.frame_id,
            uri: self.uri@,
            title: opt_text(self.title),
            range: (self.range.0 as nat, self.range.1 as nat),
            text: self.text@,
            matches: self.matches as nat,
            chunk_range: match self.chunk_range {
                Some(r) => Some((r.0 as nat, r.1 as nat)),
                None => None,
            },
            chunk_text: opt_text(self.chunk_text),
            score: self.score,
            tags: texts(self.metadata->0.tags@),
            labels: texts(self.metadata->0.labels@),
            track: opt_text(self.metadata->0.track),
            created_at: opt_text(self.metadata->0.created_at),
            content_dates: texts(self.metadata->0.content_dates@),
            entities: self.metadata->0.entities.len() as nat,
        }
    }
}

/// The frames that a search may see.
pub struct Sight {
    pub uri: Option<Seq<char>>,
    pub scope: Option<Seq<char>>,
    pub as_of_frame: Option<u64>,
    pub as_of_ts: Option<i64>,
}

/// The mathematical content of a [`SearchRequest`].
pub struct SearchAsk {
    pub query: Seq<char>,
    pub top_k: usize,
    pub snippet_chars: usize,
    pub sight: Sight,
    pub cursor: Option<Seq<char>>,
}

impl SearchRequest {
    /// The frames that the request may see.
    pub open spec fn sight(&self) -> Sight {
        Sight {
            uri: opt_text(self.uri),
            scope: opt_text(self.scope),
            as_of_frame: self.as_of_frame,
            as_of_ts: self.as_of_ts,
        }
    }
}

impl View for SearchRequest {
    type V = SearchAsk;

    open spec fn view(&self) -> SearchAsk {
        SearchAsk {
            query: self.query@,
            top_k: self.top_k,
            snippet_chars: self.snippet_chars,
            sight: self.sight(),
            cursor: opt_text(self.cursor),
        }
    }
}

/// The retirement lies in the past of the request: it is by a write no
/// later than the one that made the frame that the request names, and at
/// a time no later than the one that the request names. A request that
/// names neither looks at the store as it is, with every retirement in
/// its past.
pub open spec fn in_past(m: StoreModel, s: Sight, by: Retirement) -> bool {
    &&& s.as_of_frame is Some && s.as_of_frame->0 < m.frames.len() ==> by.seq_no
        <= m.frames[s.as_of_frame->0 as int].seq_no
    &&& s.as_of_ts is Some ==> by.timestamp <= s.as_of_ts->0
}

/// The frame `i` is in sight: no chunk of another frame, within every
/// restriction of the request, made no later than the request looks, and
/// not retired in its past.
pub open spec fn visible(m: StoreModel, s: Sight, i: int) -> bool {
    &&& 0 <= i < m.frames.len()
    &&& m.frames[i].parent_id is None
    &&& s.uri is Some ==> m.frames[i].uri == s.uri
    &&& s.scope is Some ==> m.frames[i].uri is Some && starts_with(m.frames[i].uri->0, s.scope->0)
    &&& s.as_of_frame is Some ==> i <= s.as_of_frame->0
    &&& s.as_of_ts is Some ==> m.frames[i].timestamp <= s.as_of_ts->0
    &&& m.frames[i].retired is Some ==> !in_past(m, s, m.frames[i].retired->0)
}

/// The higher of two optional relevances; one that is there beats one
/// that is not.
pub open spec fn higher(a: Option<u32>, b: Option<u32>) -> Option<u32> {
    if a is None {
        b
    } else if b is None {
        a
    } else if a->0 >= b->0 {
        a
    } else {
        b
    }
}

/// The best relevance that a list of hits gives the frame `id`.
pub open spec fn best_score(hits: Seq<RankedHit>, id: u64) -> Option<u32>
    decreases hits.len(),
{
    if hits.len() == 0 {
        None
    } else {
        higher(
            best_score(hits.drop_last(), id),
            if hits.last().frame_id == id {
                Some(hits.last().score)
            } else {
                None
            },
        )
    }
}

/// The relevance of a frame for one clause: the best that the primary
/// index gives it for the terms of the clause, as far as the frame meets
/// the rest of the clause.
pub open spec fn clause_score(
    f: FrameView,
    clause: Seq<LiteralView>,
    hits: Seq<RankedHit>,
    id: u64,
) -> Option<u32> {
    if rest_holds(f, clause) {
        best_score(hits, id)
    } else {
        None
    }
}

/// The relevance of the frame `i` for the first `c` clauses of a query:
/// the best over the clauses for which the primary index gives a list.
pub open spec fn query_score(
    m: StoreModel,
    q: Seq<Seq<LiteralView>>,
    lists: Seq<Seq<RankedHit>>,
    i: int,
    c: int,
) -> Option<u32>
    decreases c,
{
    if c <= 0 {
        None
    } else if c <= q.len() && c <= lists.len() {
        higher(
            query_score(m, q, lists, i, c - 1),
            clause_score(m.frames[i], q[c - 1], lists[c - 1], i as u64),
        )
    } else {
        query_score(m, q, lists, i, c - 1)
    }
}

/// The weight of a frame with the relevance `score`: none where it is out
/// of sight; one more than its relevance where it has one; zero where it
/// has none and the lexical matcher finds it; none where that fails too.
pub open spec fn weight_from(
    m: StoreModel,
    q: Seq<Seq<LiteralView>>,
    s: Sight,
    i: int,
    score: Option<u32>,
) -> Option<u64> {
    if !visible(m, s, i) {
        None
    } else {
        match score {
            Some(score) => Some((score + 1) as u64),
            None => if query_holds(m.frames[i], q) {
                Some(0)
            } else {
                None
            },
        }
    }
}

/// The weight of the frame `i` among the hits.
pub open spec fn weight_of(
    m: StoreModel,
    q: Seq<Seq<LiteralView>>,
    s: Sight,
    lists: Seq<Seq<RankedHit>>,
    i: int,
) -> Option<u64> {
    weight_from(m, q, s, i, query_score(m, q, lists, i, q.len() as int))
}

/// The weight of every frame.
pub open spec fn weights_of(
    m: StoreModel,
    q: Seq<Seq<LiteralView>>,
    s: Sight,
    lists: Seq<Seq<RankedHit>>,
) -> Seq<Option<u64>> {
    Seq::new(m.frames.len(), |i: int| weight_of(m, q, s, lists, i))
}

/// The hits of the primary index, one list for each clause of the query,
/// or none where the index is unavailable.
pub open spec fn primary_lists(primary: Option<Vec<Vec<RankedHit>>>) -> Seq<Seq<RankedHit>> {
    match primary {
        Some(p) => Seq::new(p.len() as nat, |c: int| p[c]@),
        None => Seq::empty(),
    }
}

/// The number of hits, on whatever page.
pub open spec fn total_hits(weights: Seq<Option<u64>>) -> nat {
    hits_behind(weights, None, weights.len() as int)
}

/// The place that a search cursor names: a weight and a frame id, both
/// unsigned decimal numbers, with a colon between them.
pub open spec fn search_cursor_spec(s: Seq<char>) -> Option<RankKey> {
    if !has_colon(s) {
        None
    } else {
        match (parse_u64_spec(s.take(first_colon(s))), parse_u64_spec(s.skip(first_colon(s) + 1))) {
            (Some(weight), Some(id)) => Some((weight, id)),
            _ => None,
        }
    }
}

/// The cursor that names a place.
pub open spec fn search_cursor_text(key: RankKey) -> Seq<char> {
    decimal_digits(key.0 as nat) + seq![':'] + decimal_digits(key.1 as nat)
}

/// The text that a hit shows of.
pub open spec fn shown_text(f: FrameView) -> Seq<char> {
    match f.search_text {
        Some(t) => t,
        None => Seq::empty(),
    }
}

/// Where the snippet of a frame begins.
pub open spec fn snippet_start(f: FrameView, q: Seq<Seq<LiteralView>>) -> nat {
    anchor(shown_text(f), positive_terms(q)) as nat
}

/// Where the snippet of a frame ends: after `snippet_chars` characters or
/// at the end of the text.
pub open spec fn snippet_end(f: FrameView, q: Seq<Seq<LiteralView>>, snippet_chars: nat) -> nat {
    let start = snippet_start(f, q);
    if start + snippet_chars <= shown_text(f).len() {
        start + snippet_chars
    } else {
        shown_text(f).len()
    }
}

/// The number of matches that a hit reports: every place at which a term
/// of the query stands in the text, as far as a machine number holds it.
pub open spec fn match_count(f: FrameView, q: Seq<Seq<LiteralView>>) -> nat {
    let total = match_total(shown_text(f), positive_terms(q));
    if total > usize::MAX {
        usize::MAX as nat
    } else {
        total
    }
}

/// The chunk that holds the character `start` of the text of the frame
/// `i`: its frame, and where its bytes begin and end among the bytes of the
/// frame. There is one where the frame is written with chunks, its text is
/// the text of its bytes, and the character lies in one of the chunks.
pub open spec fn chunk_place(m: StoreModel, i: int, start: nat) -> Option<(int, nat, nat)> {
    let f = m.frames[i];
    if f.parent_id is None && f.chunk_count is Some && f.search_text is Some && start
        <= f.search_text->0.len() && encode_utf8(f.search_text->0) == m.payloads[i] {
        let offset = encode_utf8(f.search_text->0.take(start as int)).len();
        let c = offset / (CHUNK_BYTES as nat);
        let from = c * CHUNK_BYTES;
        if c < f.chunk_count->0 && i + 1 + c < m.payloads.len() && from + m.payloads[i + 1
            + c].len() <= usize::MAX {
            Some((i + 1 + c, from as nat, (from + m.payloads[i + 1 + c].len()) as nat))
        } else {
            None
        }
    } else {
        None
    }
}

/// The hit that the frame `i` makes at the place `rank` of a page.
pub open spec fn hit_of(
    m: StoreModel,
    q: Seq<Seq<LiteralView>>,
    snippet_chars: nat,
    weight: u64,
    i: int,
    rank: nat,
) -> SearchHitView {
    let f = m.frames[i];
    SearchHitView {
        rank,
        frame_id: i as u64,
        uri: match f.uri {
            Some(u) => u,
            None => Seq::empty(),
        },
        title: f.title,
        range: (snippet_start(f, q), snippet_end(f, q, snippet_chars)),
        text: shown_text(f).subrange(
            snippet_start(f, q) as int,
            snippet_end(f, q, snippet_chars) as int,
        ),
        matches: match_count(f, q),
        chunk_range: match chunk_place(m, i, snippet_start(f, q)) {
            Some(place) => Some((place.1, place.2)),
            None => None,
        },
        chunk_text: match chunk_place(m, i, snippet_start(f, q)) {
            Some(place) => text_of(m.payloads[place.0]),
            None => None,
        },
        score: if weight > 0 {
            Some((weight - 1) as u32)
        } else {
            None
        },
        tags: f.tags,
        labels: f.labels,
        track: f.track,
        created_at: Some(decimal_signed(f.timestamp as int)),
        content_dates: f.content_dates,
        entities: 0,
    }
}

/// The snippets, each followed by a line break.
pub open spec fn context_of(snippets: Seq<Seq<char>>) -> Seq<char>
    decreases snippets.len(),
{
    if snippets.len() == 0 {
        Seq::empty()
    } else {
        context_of(snippets.drop_last()) + snippets.last() + seq!['\n']
    }
}

/// The snippet of each hit.
pub open spec fn snippets_of(hits: Seq<SearchHit>) -> Seq<Seq<char>> {
    Seq::new(hits.len(), |k: int| hits[k].text@)
}

/// Which engines a page stems from: the lexical matcher alone where the
/// primary index is unavailable or gave none of the hits; the primary index
/// alone where the matcher gave none; both where each gave some.
pub open spec fn engine_of(available: bool, weights: Seq<Option<u64>>, page: Seq<int>)
    -> SearchEngineKind {
    let lexical = exists|k: int| 0 <= k < page.len() && weights[#[trigger] page[k]] == Some(0u64);
    let ranked = exists|k: int|
        0 <= k < page.len() && weights[#[trigger] page[k]] is Some && weights[page[k]]->0 > 0;
    if !available {
        SearchEngineKind::LexFallback
    } else if lexical && ranked {
        SearchEngineKind::Hybrid
    } else if lexical {
        SearchEngineKind::LexFallback
    } else {
        SearchEngineKind::Tantivy
    }
}

/// What a search finds, before it is rendered.
pub struct Found {
    /// The query as it was read.
    pub query: Seq<Seq<LiteralView>>,
    /// The weight of every frame.
    pub weights: Seq<Option<u64>>,
    /// The frames of the page, in order.
    pub page: Seq<int>,
    /// Where the page ends, where hits remain behind it.
    pub next: Option<RankKey>,
}

/// What a search finds: a zero `top_k` and a malformed cursor are invalid
/// requests, a query that cannot be read is malformed; else the page is
/// the first `top_k` hits behind the cursor.
pub open spec fn search_spec(
    m: StoreModel,
    request: SearchAsk,
    primary: Seq<Seq<RankedHit>>,
) -> Result<
    Found,
    ErrorKind,
> {
    if request.top_k == 0 {
        Err(ErrorKind::InvalidRequest)
    } else if request.cursor is Some && search_cursor_spec(request.cursor->0) is None {
        Err(ErrorKind::InvalidRequest)
    } else {
        match parse_query_spec(request.query) {
            Err(e) => Err(e),
            Ok(q) => {
                let after = match request.cursor {
                    Some(c) => search_cursor_spec(c),
                    None => None,
                };
                let weights = weights_of(m, q, request.sight, primary);
                let page = ranked(weights, after, request.top_k as nat);
                let last = if page.len() > 0 {
                    Some(rank_key(weights, page.last()))
                } else {
                    after
                };
                Ok(
                    Found {
                        query: q,
                        weights,
                        page,
                        next: if page.len() > 0 && has_best(weights, last) {
                            last
                        } else {
                            None
                        },
                    },
                )
            },
        }
    }
}

/// Reading the cursor that names a place gives back the place.
pub proof fn lemma_search_cursor_round_trip(key: RankKey)
    ensures
        search_cursor_spec(search_cursor_text(key)) == Some(key),
{
    let head = decimal_digits(key.0 as nat);
    let tail = decimal_digits(key.1 as nat);
    let s = search_cursor_text(key);
    lemma_decimal_digits(key.0 as nat);
    lemma_decimal_digits(key.1 as nat);
    let at = head.len() as int;
    assert(first_colon_at(s, at));
    lemma_first_colon(s, at);
    assert(s.take(at) =~= head);
    assert(s.skip(at + 1) =~= tail);
    assert(strip_plus(head) =~= head);
    assert(strip_plus(tail) =~= tail);
}

/// The hits that a caller reads who follows the cursors from page to page:
/// those of `pages` pages of `top_k` hits at most, from `after` on.
pub open spec fn hits_walk(
    weights: Seq<Option<u64>>,
    top_k: nat,
    after: Option<RankKey>,
    pages: nat,
) -> Seq<int>
    decreases pages,
{
    if pages == 0 {
        Seq::empty()
    } else {
        let page = ranked(weights, after, top_k);
        if page.len() > 0 && has_best(weights, Some(rank_key(weights, page.last()))) {
            page + hits_walk(
                weights,
                top_k,
                Some(rank_key(weights, page.last())),
                (pages - 1) as nat,
            )
        } else {
            page
        }
    }
}

/// A page that is not full ends the hits: none comes behind its last hit.
pub proof fn lemma_short_page(weights: Seq<Option<u64>>, after: Option<RankKey>, n: nat)
    requires
        ranked(weights, after, n).len() < n,
    ensures
        ranked(weights, after, n).len() == 0 ==> !has_best(weights, after),
        ranked(weights, after, n).len() > 0 ==> !has_best(
            weights,
            Some(rank_key(weights, ranked(weights, after, n).last())),
        ),
    decreases n,
{
    if n > 0 && has_best(weights, after) {
        let i = best_of(weights, after);
        let here = Some(rank_key(weights, i));
        let rest = ranked(weights, here, (n - 1) as nat);
        let all = ranked(weights, after, n);
        assert(all == seq![i] + rest);
        lemma_short_page(weights, here, (n - 1) as nat);
        if rest.len() > 0 {
            assert(all.last() == rest.last());
        } else {
            assert(all.last() == i);
        }
    }
}

/// Pagination of hits: the pages that a caller reads by following the
/// cursors, one after the other, are the beginning of the one list of all
/// hits, with no hit twice and none left out.
pub proof fn lemma_hits_pagination(
    weights: Seq<Option<u64>>,
    top_k: nat,
    after: Option<RankKey>,
    pages: nat,
)
    requires
        top_k > 0,
    ensures
        hits_walk(weights, top_k, after, pages) == ranked(weights, after, pages * top_k),
    decreases pages,
{
    if pages > 0 {
        let page = ranked(weights, after, top_k);
        let fewer: nat = (pages - 1) as nat;
        let rest: nat = fewer * top_k;
        assert(pages * top_k == top_k + rest) by (nonlinear_arith)
            requires
                pages > 0,
                fewer == pages - 1,
                rest == fewer * top_k,
        ;
        lemma_ranked_split(weights, after, top_k, rest);
        lemma_ranked_len(weights, after, top_k);
        if page.len() < top_k {
            lemma_short_page(weights, after, top_k);
        } else {
            let last = Some(rank_key(weights, page.last()));
            if has_best(weights, last) {
                lemma_hits_pagination(weights, top_k, last, fewer);
            } else {
                assert(ranked(weights, last, rest) =~= Seq::<int>::empty());
                assert(page + ranked(weights, last, rest) =~= page);
            }
        }
        assert(ranked(weights, after, pages * top_k) == ranked(weights, after, top_k + rest));
    } else {
        assert(pages * top_k == 0) by (nonlinear_arith)
            requires
                pages == 0,
        ;
    }
}

/// Reads a search cursor.
pub fn parse_search_cursor(text: &str) -> (r: Option<RankKey>)
    ensures
        r == search_cursor_spec(text@),
{
    let chars: Vec<char> = str_chars(text);
    let mut at: usize = 0;
    while at < chars.len() && chars[at] != ':'
        invariant
            at <= chars.len(),
            forall|j: int| 0 <= j < at ==> chars[j] != ':',
        decreases chars.len() - at,
    {
        at = at + 1;
    }
    if at >= chars.len() {
        proof {
            assert forall|i: int| !first_colon_at(chars@, i) by {}
        }
        return None;
    }
    proof {
        lemma_first_colon(chars@, at as int);
        assert(chars@.subrange(0, at as int) =~= chars@.take(at as int));
        assert(chars@.subrange(at + 1, chars.len() as int) =~= chars@.skip(at + 1));
    }
    let head: Vec<char> = chars_range(&chars, 0, at);
    let tail: Vec<char> = chars_range(&chars, at + 1, chars.len());
    match (parse_u64(&head), parse_u64(&tail)) {
        (Some(weight), Some(id)) => Some((weight, id)),
        _ => None,
    }
}

/// Writes the search cursor that names a place.
pub fn search_cursor(key: RankKey) -> (text: String)
    ensures
        text@ == search_cursor_text(key),
{
    let mut text: String = String::new();
    push_decimal(&mut text, key.0);
    proof {
        reveal_strlit(":");
    }
    text.append(":");
    push_decimal(&mut text, key.1);
    assert(text@ =~= search_cursor_text(key));
    text
}

/// Whether the frame at `i` is in sight of the request.
fn in_sight(store: &FrameStore, request: &SearchRequest, i: usize) -> (b: bool)
    requires
        store.wf(),
        i < store@.frames.len(),
    ensures
        b == visible(store@, request.sight(), i as int),
{
    let f: &Frame = store.frame_at(i);
    if f.parent_id.is_some() {
        return false;
    }
    let alive: bool = match f.retired {
        None => true,
        Some(by) => {
            let before_frame: bool = match request.as_of_frame {
                Some(last) => if last < store.frame_count() as u64 {
                    by.seq_no <= store.frame_at(last as usize).seq_no
                } else {
                    true
                },
                None => true,
            };
            let before_time: bool = match request.as_of_ts {
                Some(last) => by.timestamp <= last,
                None => true,
            };
            !(before_frame && before_time)
        },
    };
    if !alive {
        return false;
    }
    let uri_ok: bool = match &request.uri {
        Some(wanted) => crate::text::opt_is(&f.uri, wanted.as_str()),
        None => true,
    };
    if !uri_ok {
        return false;
    }
    let scope_ok: bool = match &request.scope {
        Some(prefix) => match &f.uri {
            Some(uri) => {
                let a: Vec<char> = str_chars(uri.as_str());
                let b: Vec<char> = str_chars(prefix.as_str());
                crate::lexical::begins_with(&a, &b)
            },
            None => false,
        },
        None => true,
    };
    if !scope_ok {
        return false;
    }
    let frame_ok: bool = match request.as_of_frame {
        Some(last) => i as u64 <= last,
        None => true,
    };
    let time_ok: bool = match request.as_of_ts {
        Some(last) => f.timestamp <= last,
        None => true,
    };
    frame_ok && time_ok
}

/// A relevance counts for nothing beyond the clauses that have a list.
pub proof fn lemma_score_beyond(
    m: StoreModel,
    q: Seq<Seq<LiteralView>>,
    lists: Seq<Seq<RankedHit>>,
    i: int,
    from: int,
    c: int,
)
    requires
        0 <= from <= c,
        from >= q.len() || from >= lists.len(),
    ensures
        query_score(m, q, lists, i, c) == query_score(m, q, lists, i, from),
    decreases c,
{
    if c > from {
        lemma_score_beyond(m, q, lists, i, from, c - 1);
    }
}

/// The weight of every frame of the store for a search.
fn compute_weights(
    store: &FrameStore,
    request: &SearchRequest,
    q: &Query,
    lists: &Vec<Vec<RankedHit>>,
    Ghost(given): Ghost<Seq<Seq<RankedHit>>>,
) -> (w: Vec<Option<u64>>)
    requires
        store.wf(),
        given.len() == lists.len(),
        forall|c: int| 0 <= c < lists.len() ==> given[c] == (#[trigger] lists[c])@,
    ensures
        w@ == weights_of(store@, q@, request.sight(), given),
{
    let n: usize = store.frame_count();
    let ghost m = store@;
    let ghost s = request.sight();
    let mut w: Vec<Option<u64>> = Vec::new();
    let mut seen: Vec<bool> = Vec::new();
    let mut i: usize = 0;
    while i < n
        invariant
            store.wf(),
            i <= n,
            n == store@.frames.len(),
            m == store@,
            s == request.sight(),
            w.len() == i,
            seen.len() == i,
            forall|j: int| 0 <= j < i ==> seen[j] == visible(m, s, j),
            forall|j: int| 0 <= j < i ==> (#[trigger] w[j]) == weight_from(m, q@, s, j, None),
        decreases n - i,
    {
        let v: bool = in_sight(store, request, i);
        seen.push(v);
        if v && frame_matches(store.frame_at(i), q) {
            w.push(Some(0));
        } else {
            w.push(None);
        }
        i = i + 1;
    }
    let clauses: usize = if q.clauses.len() < lists.len() {
        q.clauses.len()
    } else {
        lists.len()
    };
    let mut c: usize = 0;
    while c < clauses
        invariant
            store.wf(),
            m == store@,
            c <= clauses,
            clauses <= q.clauses.len(),
            clauses <= lists.len(),
            given.len() == lists.len(),
            forall|k: int| 0 <= k < lists.len() ==> given[k] == (#[trigger] lists[k])@,
            n == m.frames.len(),
            w.len() == n,
            seen.len() == n,
            forall|k: int| 0 <= k < n ==> seen[k] == visible(m, s, k),
            forall|k: int|
                0 <= k < n ==> (#[trigger] w[k]) == weight_from(
                    m,
                    q@,
                    s,
                    k,
                    query_score(m, q@, given, k, c as int),
                ),
        decreases clauses - c,
    {
        let hits: &Vec<RankedHit> = &lists[c];
        let clause: &Vec<Literal> = &q.clauses[c];
        let ghost cv = q@[c as int];
        let mut j: usize = 0;
        proof {
            assert(hits@.take(0) =~= Seq::<RankedHit>::empty());
        }
        while j < hits.len()
            invariant
                store.wf(),
                m == store@,
                j <= hits.len(),
                c < q@.len(),
                c < given.len(),
                given[c as int] == hits@,
                cv == q@[c as int],
                cv == clause_view(clause@),
                n == m.frames.len(),
                w.len() == n,
                seen.len() == n,
                forall|k: int| 0 <= k < n ==> seen[k] == visible(m, s, k),
                forall|k: int|
                    0 <= k < n ==> (#[trigger] w[k]) == weight_from(
                        m,
                        q@,
                        s,
                        k,
                        higher(
                            query_score(m, q@, given, k, c as int),
                            clause_score(m.frames[k], cv, hits@.take(j as int), k as u64),
                        ),
                    ),
            decreases hits.len() - j,
        {
            let hit: RankedHit = hits[j];
            let ghost before = hits@.take(j as int);
            let ghost next = hits@.take(j + 1);
            proof {
                assert(next.drop_last() =~= before);
                assert(next.last() == hit);
            }
            if hit.frame_id < n as u64 {
                let id: usize = hit.frame_id as usize;
                if seen[id] && rest_matches(store.frame_at(id), clause) {
                    let weight: u64 = hit.score as u64 + 1;
                    let heavier: bool = match w[id] {
                        Some(old) => old < weight,
                        None => true,
                    };
                    if heavier {
                        w.set(id, Some(weight));
                    }
                }
            }
            proof {
                assert forall|k: int| 0 <= k < n implies (#[trigger] w[k]) == weight_from(
                    m,
                    q@,
                    s,
                    k,
                    higher(
                        query_score(m, q@, given, k, c as int),
                        clause_score(m.frames[k], cv, next, k as u64),
                    ),
                ) by {
                    if hit.frame_id != k as u64 {
                        assert(best_score(next, k as u64) == best_score(before, k as u64));
                    }
                }
            }
            j = j + 1;
        }
        proof {
            assert(hits@.take(hits.len() as int) =~= hits@);
        }
        c = c + 1;
    }
    proof {
        assert forall|k: int| 0 <= k < n implies (#[trigger] w[k]) == weight_of(
            m,
            q@,
            s,
            given,
            k,
        ) by {
            lemma_score_beyond(m, q@, given, k, clauses as int, q@.len() as int);
        }
        assert(w@ =~= weights_of(m, q@, s, given));
    }
    w
}

/// The number of hits.
fn count_hits(w: &Vec<Option<u64>>) -> (n: usize)
    ensures
        n == hits_behind(w@, None, w.len() as int),
{
    let mut n: usize = 0;
    let mut i: usize = 0;
    while i < w.len()
        invariant
            i <= w.len(),
            n <= i,
            n == hits_behind(w@, None, i as int),
        decreases w.len() - i,
    {
        if w[i].is_some() {
            n = n + 1;
        }
        i = i + 1;
    }
    n
}

/// Where the snippet of a text begins. `terms` are the terms of the query
/// and `hay` is the text, both with their ASCII capitals in lower case.
fn find_anchor(terms: &Vec<Vec<char>>, hay: &Vec<char>, Ghost(text): Ghost<Seq<char>>, Ghost(
    wanted,
): Ghost<Seq<Seq<char>>>) -> (at: usize)
    requires
        hay@ == fold(text),
        terms.len() == wanted.len(),
        forall|i: int| 0 <= i < terms.len() ==> (#[trigger] terms[i])@ == fold(wanted[i]),
    ensures
        at == anchor(text, wanted),
        at <= text.len(),
{
    let mut k: usize = 0;
    proof {
        assert(wanted.skip(0) =~= wanted);
    }
    while k < terms.len()
        invariant
            k <= terms.len(),
            hay@ == fold(text),
            terms.len() == wanted.len(),
            forall|i: int| 0 <= i < terms.len() ==> (#[trigger] terms[i])@ == fold(wanted[i]),
            anchor(text, wanted) == anchor(text, wanted.skip(k as int)),
        decreases terms.len() - k,
    {
        let ghost rest = wanted.skip(k as int);
        proof {
            assert(rest[0] == wanted[k as int]);
            assert(rest.skip(1) =~= wanted.skip(k + 1));
        }
        match find_first(&terms[k], hay) {
            Some(at) => {
                proof {
                    lemma_first_match(fold(wanted[k as int]), fold(text), at as int);
                }
                return at;
            },
            None => {},
        }
        k = k + 1;
    }
    0
}

/// The number of places at which the terms stand in the text.
fn count_all(terms: &Vec<Vec<char>>, hay: &Vec<char>, Ghost(text): Ghost<Seq<char>>, Ghost(
    wanted,
): Ghost<Seq<Seq<char>>>) -> (total: usize)
    requires
        hay@ == fold(text),
        terms.len() == wanted.len(),
        forall|i: int| 0 <= i < terms.len() ==> (#[trigger] terms[i])@ == fold(wanted[i]),
    ensures
        total == (if match_total(text, wanted) > usize::MAX {
            usize::MAX as nat
        } else {
            match_total(text, wanted)
        }),
{
    let mut total: usize = 0;
    let mut k: usize = 0;
    proof {
        assert(wanted.take(0) =~= Seq::<Seq<char>>::empty());
    }
    while k < terms.len()
        invariant
            k <= terms.len(),
            hay@ == fold(text),
            terms.len() == wanted.len(),
            forall|i: int| 0 <= i < terms.len() ==> (#[trigger] terms[i])@ == fold(wanted[i]),
            total == (if match_total(text, wanted.take(k as int)) > usize::MAX {
                usize::MAX as nat
            } else {
                match_total(text, wanted.take(k as int))
            }),
        decreases terms.len() - k,
    {
        proof {
            let next = wanted.take(k + 1);
            assert(next.drop_last() =~= wanted.take(k as int));
            assert(next.last() == wanted[k as int]);
        }
        let here: usize = count_matches(&terms[k], hay);
        total = if here > usize::MAX - total {
            usize::MAX
        } else {
            total + here
        };
        k = k + 1;
    }
    proof {
        assert(wanted.take(terms.len() as int) =~= wanted);
    }
    total
}

/// A chunk as it is found for a hit: where its bytes begin and end among
/// the bytes of its document, and its text where its bytes are text.
struct ChunkFound {
    from: usize,
    to: usize,
    text: Option<String>,
}

/// The chunk that holds the character `start` of the text of the frame at
/// `i`.
fn find_chunk(store: &FrameStore, i: usize, start: usize) -> (r: Option<ChunkFound>)
    requires
        store.wf(),
        i < store@.frames.len(),
    ensures
        match chunk_place(store@, i as int, start as nat) {
            Some(place) => r is Some && r->0.from == place.1 && r->0.to == place.2 && opt_text(
                r->0.text,
            ) == text_of(store@.payloads[place.0]),
            None => r is None,
        },
{
    let f: &Frame = store.frame_at(i);
    if f.parent_id.is_some() {
        return None;
    }
    let count: u32 = match f.chunk_count {
        Some(n) => n,
        None => {
            return None;
        },
    };
    let text: &str = match &f.search_text {
        Some(t) => t.as_str(),
        None => {
            return None;
        },
    };
    if start > text.unicode_len() {
        return None;
    }
    if !bytes_eq(text.as_bytes(), store.payload_at(i).as_slice()) {
        return None;
    }
    let before: &str = text.substring_char(0, start);
    assert(text@.subrange(0, start as int) =~= text@.take(start as int));
    let offset: usize = before.as_bytes().len();
    let c: usize = offset / CHUNK_BYTES;
    if c as u64 >= count as u64 || store.frame_count() - i - 1 <= c {
        proof {
            store.lemma_wf();
        }
        return None;
    }
    proof {
        store.lemma_wf();
    }
    let chunk: &Vec<u8> = store.payload_at(i + 1 + c);
    let from: usize = c * CHUNK_BYTES;
    if chunk.len() > usize::MAX - from {
        return None;
    }
    Some(ChunkFound { from, to: from + chunk.len(), text: utf8_text(chunk.as_slice()) })
}

/// Renders the frame at `i` as the hit at the place `rank` of a page.
fn build_hit(
    store: &FrameStore,
    q: &Query,
    terms: &Vec<Vec<char>>,
    snippet_chars: usize,
    weight: u64,
    i: usize,
    rank: usize,
) -> (hit: SearchHit)
    requires
        store.wf(),
        i < store@.frames.len(),
        weight <= u32::MAX + 1,
        terms.len() == positive_terms(q@).len(),
        forall|k: int|
            0 <= k < terms.len() ==> (#[trigger] terms[k])@ == fold(positive_terms(q@)[k]),
    ensures
        hit@ == hit_of(store@, q@, snippet_chars as nat, weight, i as int, rank as nat),
        hit.has_metadata(),
{
    let f: &Frame = store.frame_at(i);
    let ghost shown = shown_text(f@);
    let folded: Vec<char> = match folded_text(f) {
        Some(t) => t,
        None => Vec::new(),
    };
    assert(folded@ =~= fold(shown));
    let start: usize = find_anchor(terms, &folded, Ghost(shown), Ghost(positive_terms(q@)));
    let matches: usize = count_all(terms, &folded, Ghost(shown), Ghost(positive_terms(q@)));
    let room: usize = folded.len() - start;
    let end: usize = if snippet_chars <= room {
        start + snippet_chars
    } else {
        folded.len()
    };
    let text: String = match &f.search_text {
        Some(t) => t.as_str().substring_char(start, end).to_owned(),
        None => String::new(),
    };
    assert(text@ =~= shown.subrange(start as int, end as int));
    let mut created_at: String = String::new();
    push_decimal_signed(&mut created_at, f.timestamp);
    assert(created_at@ =~= decimal_signed(f.timestamp as int));
    let (chunk_range, chunk_text) = match find_chunk(store, i, start) {
        Some(found) => (Some((found.from, found.to)), found.text),
        None => (None, None),
    };
    SearchHit {
        rank,
        frame_id: i as u64,
        uri: match &f.uri {
            Some(u) => u.clone(),
            None => String::new(),
        },
        title: clone_opt(&f.title),
        range: (start, end),
        text,
        matches,
        chunk_range,
        chunk_text,
        score: if weight > 0 {
            Some((weight - 1) as u32)
        } else {
            None
        },
        metadata: Some(
            SearchHitMetadata {
                matches,
                tags: clone_texts(&f.tags),
                labels: clone_texts(&f.labels),
                track: clone_opt(&f.track),
                created_at: Some(created_at),
                content_dates: clone_texts(&f.content_dates),
                entities: Vec::new(),
            },
        ),
    }
}

/// What the response to a search says of what was found.
pub open spec fn renders(
    response: SearchResponse,
    m: StoreModel,
    request: SearchAsk,
    available: bool,
    found: Found,
) -> bool {
    &&& response.query@ == request.query
    &&& response.elapsed_ms == 0
    &&& response.total_hits == total_hits(found.weights)
    &&& response.params.top_k == request.top_k
    &&& response.params.snippet_chars == request.snippet_chars
    &&& opt_text(response.params.cursor) == request.cursor
    &&& response.hits.len() == found.page.len()
    &&& forall|k: int|
        0 <= k < response.hits.len() ==> (#[trigger] response.hits[k])@ == hit_of(
            m,
            found.query,
            request.snippet_chars as nat,
            found.weights[found.page[k]]->0,
            found.page[k],
            (k + 1) as nat,
        ) && response.hits[k].has_metadata()
    &&& response.context@ == context_of(snippets_of(response.hits@))
    &&& opt_text(response.next_cursor) == (match found.next {
        Some(key) => Some(search_cursor_text(key)),
        None => None,
    })
    &&& response.engine == engine_of(available, found.weights, found.page)
}

/// The snippets of the hits, each followed by a line break.
fn render_context(hits: &Vec<SearchHit>) -> (context: String)
    ensures
        context@ == context_of(snippets_of(hits@)),
{
    let mut context: String = String::new();
    let mut k: usize = 0;
    proof {
        reveal_strlit("\n");
        assert(snippets_of(hits@).take(0) =~= Seq::<Seq<char>>::empty());
    }
    while k < hits.len()
        invariant
            k <= hits.len(),
            "\n"@ == seq!['\n'],
            context@ == context_of(snippets_of(hits@).take(k as int)),
        decreases hits.len() - k,
    {
        proof {
            let next = snippets_of(hits@).take(k + 1);
            assert(next.drop_last() =~= snippets_of(hits@).take(k as int));
            assert(next.last() == hits[k as int].text@);
        }
        context.append(hits[k].text.as_str());
        context.append("\n");
        k = k + 1;
    }
    proof {
        assert(snippets_of(hits@).take(hits.len() as int) =~= snippets_of(hits@));
    }
    context
}

/// Which engines the hits of a page stem from.
fn page_engine(
    available: bool,
    hits: &Vec<SearchHit>,
    Ghost(weights): Ghost<Seq<Option<u64>>>,
    Ghost(page): Ghost<Seq<int>>,
) -> (engine: SearchEngineKind)
    requires
        hits.len() == page.len(),
        forall|k: int|
            0 <= k < page.len() ==> 0 <= (#[trigger] page[k]) < weights.len() && weights[page[k]]
                is Some && ((#[trigger] hits[k]).score is Some <==> weights[page[k]]->0 > 0),
    ensures
        engine == engine_of(available, weights, page),
{
    let mut lexical: bool = false;
    let mut ranked: bool = false;
    let mut k: usize = 0;
    while k < hits.len()
        invariant
            k <= hits.len(),
            hits.len() == page.len(),
            forall|j: int|
                0 <= j < page.len() ==> 0 <= (#[trigger] page[j]) < weights.len()
                    && weights[page[j]] is Some && ((#[trigger] hits[j]).score is Some
                    <==> weights[page[j]]->0 > 0),
            lexical == (exists|j: int|
                0 <= j < k && weights[#[trigger] page[j]] == Some(0u64)),
            ranked == (exists|j: int|
                0 <= j < k && weights[#[trigger] page[j]] is Some && weights[page[j]]->0 > 0),
        decreases hits.len() - k,
    {
        if hits[k].score.is_some() {
            assert(weights[page[k as int]] is Some && weights[page[k as int]]->0 > 0);
            ranked = true;
        } else {
            assert(weights[page[k as int]] == Some(0u64));
            lexical = true;
        }
        k = k + 1;
    }
    if !available {
        SearchEngineKind::LexFallback
    } else if lexical && ranked {
        SearchEngineKind::Hybrid
    } else if lexical {
        SearchEngineKind::LexFallback
    } else {
        SearchEngineKind::Tantivy
    }
}

/// Searches the store. `primary` holds what the primary index finds for
/// the terms of each clause of the query, one list for each clause in the
/// order of the clauses, or nothing where the index is unavailable. The
/// store vouches for each hit: the frame must be in sight and must meet
/// the filters and negations of the clause. The lexical matcher supplies
/// what the index does not name.
pub fn search(
    store: &FrameStore,
    request: &SearchRequest,
    primary: &Option<Vec<Vec<RankedHit>>>,
) -> (r: Result<SearchResponse, ErrorKind>)
    requires
        store.wf(),
    ensures
        match search_spec(store@, request@, primary_lists(*primary)) {
            Ok(found) => r is Ok && renders(r->Ok_0, store@, request@, primary is Some, found),
            Err(e) => r == Err::<SearchResponse, ErrorKind>(e),
        },
{
    if request.top_k == 0 {
        return Err(ErrorKind::InvalidRequest);
    }
    let start: Option<RankKey> = match &request.cursor {
        Some(c) => match parse_search_cursor(c.as_str()) {
            Some(key) => Some(key),
            None => {
                return Err(ErrorKind::InvalidRequest);
            },
        },
        None => None,
    };
    let q: Query = match parse_query(request.query.as_str()) {
        Ok(q) => q,
        Err(e) => {
            return Err(e);
        },
    };
    let none: Vec<Vec<RankedHit>> = Vec::new();
    let named: &Vec<Vec<RankedHit>> = match primary {
        Some(p) => p,
        None => &none,
    };
    let w: Vec<Option<u64>> = compute_weights(
        store,
        request,
        &q,
        named,
        Ghost(primary_lists(*primary)),
    );
    let ghost found = search_spec(store@, request@, primary_lists(*primary))->Ok_0;
    proof {
        store.lemma_wf();
        assert(found.weights == w@);
    }
    let terms: Vec<Vec<char>> = query_terms(&q);
    let mut hits: Vec<SearchHit> = Vec::new();
    let mut after: Option<RankKey> = start;
    let mut count: usize = 0;
    let ghost mut picked: Seq<int> = Seq::empty();
    while count < request.top_k
        invariant
            store.wf(),
            count <= request.top_k,
            w@ == weights_of(store@, q@, request.sight(), primary_lists(*primary)),
            w.len() == store@.frames.len(),
            w.len() <= u64::MAX,
            terms.len() == positive_terms(q@).len(),
            forall|k: int|
                0 <= k < terms.len() ==> (#[trigger] terms[k])@ == fold(positive_terms(q@)[k]),
            hits.len() == count,
            picked.len() == count,
            ranked(w@, start, request.top_k as nat) == picked + ranked(
                w@,
                after,
                (request.top_k - count) as nat,
            ),
            count == 0 ==> after == start,
            count > 0 ==> after == Some(rank_key(w@, picked.last())),
            forall|k: int|
                0 <= k < count ==> 0 <= (#[trigger] picked[k]) < w.len() && w[picked[k]] is Some,
            forall|k: int|
                0 <= k < count ==> (#[trigger] hits[k])@ == hit_of(
                    store@,
                    q@,
                    request.snippet_chars as nat,
                    w[picked[k]]->0,
                    picked[k],
                    (k + 1) as nat,
                ) && hits[k].has_metadata(),
        ensures
            hits.len() == picked.len(),
            ranked(w@, start, request.top_k as nat) == picked,
            picked.len() == 0 ==> after == start,
            picked.len() > 0 ==> after == Some(rank_key(w@, picked.last())),
            forall|k: int|
                0 <= k < picked.len() ==> 0 <= (#[trigger] picked[k]) < w.len() && w[picked[k]]
                    is Some,
            forall|k: int|
                0 <= k < picked.len() ==> (#[trigger] hits[k])@ == hit_of(
                    store@,
                    q@,
                    request.snippet_chars as nat,
                    w[picked[k]]->0,
                    picked[k],
                    (k + 1) as nat,
                ) && hits[k].has_metadata(),
        decreases request.top_k - count,
    {
        let ghost rest = ranked(w@, after, (request.top_k - count) as nat);
        match next_best(&w, after) {
            None => {
                assert(picked + rest =~= picked);
                break ;
            },
            Some(i) => {
                proof {
                    lemma_best_unique(w@, after, i as int);
                    assert(eligible(w@, after, i as int));
                }
                let weight: u64 = match w[i] {
                    Some(weight) => weight,
                    None => 0,
                };
                let hit: SearchHit = build_hit(
                    store,
                    &q,
                    &terms,
                    request.snippet_chars,
                    weight,
                    i,
                    count + 1,
                );
                hits.push(hit);
                proof {
                    let key = rank_key(w@, i as int);
                    let tail = ranked(w@, Some(key), (request.top_k - count - 1) as nat);
                    assert(rest == seq![i as int] + tail);
                    assert(picked + rest =~= picked.push(i as int) + tail);
                    picked = picked.push(i as int);
                }
                after = Some((weight, i as u64));
                count = count + 1;
            },
        }
    }
    proof {
        assert(picked + Seq::<int>::empty() =~= picked);
        assert(found.page == picked);
        assert(found.query == q@);
    }
    let next_cursor: Option<String> = if hits.len() > 0 {
        match next_best(&w, after) {
            Some(i) => {
                proof {
                    lemma_best_unique(w@, after, i as int);
                }
                match after {
                    Some(key) => Some(search_cursor(key)),
                    None => None,
                }
            },
            None => None,
        }
    } else {
        None
    };
    let engine: SearchEngineKind = page_engine(primary.is_some(), &hits, Ghost(w@), Ghost(picked));
    let context: String = render_context(&hits);
    Ok(
        SearchResponse {
            query: request.query.clone(),
            elapsed_ms: 0,
            total_hits: count_hits(&w),
            params: SearchParams {
                top_k: request.top_k,
                snippet_chars: request.snippet_chars,
                cursor: clone_opt(&request.cursor),
            },
            hits,
            context,
            next_cursor,
            engine,
        },
    )
}

} // verus!
