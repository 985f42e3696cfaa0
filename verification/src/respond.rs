//! Search through a request: the defaults of the request, the search
//! itself, and the answer as a response carries it.

use crate::error::describe;
use crate::model::StoreModel;
use crate::search::{
    context_of, engine_label, engine_of, hit_of, primary_lists, search, search_cursor_text,
    search_engine_label, search_spec, snippets_of, total_hits, Found, RankedHit, SearchAsk,
    SearchHit, SearchHitEntity, SearchHitMetadata, SearchHitView, SearchRequest, SearchResponse,
    Sight,
};
use crate::store::FrameStore;
use crate::text::{opt_text, texts};
use crate::tools::{reports, RequestError};
use vstd::prelude::*;

verus! {

/// The number of hits of a page where the request names none.
pub const DEFAULT_TOP_K: usize = 10;

/// The length of a snippet where the request names none.
pub const DEFAULT_SNIPPET_CHARS: usize = 200;

/// A request to search the store.
#[derive(Clone, Debug)]
pub struct SearchRequestInput {
    pub query: String,
    pub top_k: Option<usize>,
    pub snippet_chars: Option<usize>,
    pub uri: Option<String>,
    pub scope: Option<String>,
    pub cursor: Option<String>,
    pub no_sketch: Option<bool>,
    pub as_of_frame: Option<u64>,
    pub as_of_ts: Option<i64>,
}

/// The parameters that a search ran with, as a response carries them.
#[derive(Clone, Debug)]
pub struct SearchParamsOutput {
    pub top_k: usize,
    pub snippet_chars: usize,
    pub cursor: Option<String>,
}

/// An entity of a hit, as a response carries it.
#[derive(Clone, Debug)]
pub struct SearchHitEntityOutput {
    pub name: String,
    pub kind: String,
    pub confidence: Option<u32>,
}

/// The metadata of a hit, as a response carries it.
#[derive(Clone, Debug)]
pub struct SearchHitMetadataOutput {
    pub matches: usize,
    pub tags: Vec<String>,
    pub labels: Vec<String>,
    pub track: Option<String>,
    pub created_at: Option<String>,
    pub content_dates: Vec<String>,
    pub entities: Vec<SearchHitEntityOutput>,
}

/// A hit, as a response carries it.
#[derive(Debug)]
pub struct SearchHitOutput {
    pub rank: usize,
    pub frame_id: u64,
    pub uri: String,
    pub title: Option<String>,
    pub range: (usize, usize),
    pub text: String,
    pub matches: usize,
    pub chunk_range: Option<(usize, usize)>,
    pub chunk_text: Option<String>,
    pub score: Option<u32>,
    pub metadata: Option<SearchHitMetadataOutput>,
}

/// The answer to a search, as a response carries it.
#[derive(Debug)]
pub struct SearchResponseOutput {
    pub query: String,
    pub elapsed_ms: u64,
    pub total_hits: usize,
    pub params: SearchParamsOutput,
    pub hits: Vec<SearchHitOutput>,
    pub context: String,
    pub next_cursor: Option<String>,
    pub engine: String,
}

impl View for SearchHitOutput {
    type V = SearchHitView;

    open spec fn view(&self) -> SearchHitView {
        SearchHitView {
            rank: self.rank as nat,
            frame_id: self.frame_id,
            uri: self.uri@,
            title: opt_text(self.title),
            range: (self.range.0 as nat, self.range.1 as nat),
            text: self.text@,
            matches: self.matches as nat,
            chunk_range: match self.chunk_range {
                Some(r) => Some((r.0 as nat, r.1 as nat)),
                None => None,
            },
            chunk_text: opt_text(self.chunk_text),
            score: self.score,
            tags: texts(self.metadata->0.tags@),
            labels: texts(self.metadata->0.labels@),
            track: opt_text(self.metadata->0.track),
            created_at: opt_text(self.metadata->0.created_at),
            content_dates: texts(self.metadata->0.content_dates@),
            entities: self.metadata->0.entities.len() as nat,
        }
    }
}

/// The entity as a response carries it says what the entity says.
pub open spec fn same_entity(o: SearchHitEntityOutput, e: SearchHitEntity) -> bool {
    o.name@ == e.name@ && o.kind@ == e.kind@ && o.confidence == e.confidence
}

/// The metadata as a response carries it says what the metadata says.
pub open spec fn same_metadata(o: SearchHitMetadataOutput, d: SearchHitMetadata) -> bool {
    &&& o.matches == d.matches
    &&& texts(o.tags@) == texts(d.tags@)
    &&& texts(o.labels@) == texts(d.labels@)
    &&& opt_text(o.track) == opt_text(d.track)
    &&& opt_text(o.created_at) == opt_text(d.created_at)
    &&& texts(o.content_dates@) == texts(d.content_dates@)
    &&& o.entities.len() == d.entities.len()
    &&& forall|k: int|
        0 <= k < o.entities.len() ==> same_entity(#[trigger] o.entities[k], d.entities[k])
}

/// The hit as a response carries it says what the hit says.
pub open spec fn same_hit(o: SearchHitOutput, h: SearchHit) -> bool {
    &&& o.rank == h.rank
    &&& o.frame_id == h.frame_id
    &&& o.uri@ == h.uri@
    &&& opt_text(o.title) == opt_text(h.title)
    &&& o.range == h.range
    &&& o.text@ == h.text@
    &&& o.matches == h.matches
    &&& o.chunk_range == h.chunk_range
    &&& opt_text(o.chunk_text) == opt_text(h.chunk_text)
    &&& o.score == h.score
    &&& match h.metadata {
        Some(d) => o.metadata is Some && same_metadata(o.metadata->0, d),
        None => o.metadata is None,
    }
}

/// The number of milliseconds as far as 64 bits hold it.
pub open spec fn capped(elapsed_ms: u128) -> u64 {
    if elapsed_ms > u64::MAX {
        u64::MAX
    } else {
        elapsed_ms as u64
    }
}

/// The answer as a response carries it says what the answer says: the
/// same fields, the engine by its name, the time as far as 64 bits hold it.
pub open spec fn same_response(o: SearchResponseOutput, r: SearchResponse) -> bool {
    &&& o.query@ == r.query@
    &&& o.elapsed_ms == capped(r.elapsed_ms)
    &&& o.total_hits == r.total_hits
    &&& o.params.top_k == r.params.top_k
    &&& o.params.snippet_chars == r.params.snippet_chars
    &&& opt_text(o.params.cursor) == opt_text(r.params.cursor)
    &&& o.hits.len() == r.hits.len()
    &&& forall|k: int| 0 <= k < o.hits.len() ==> same_hit(#[trigger] o.hits[k], r.hits[k])
    &&& o.context@ == r.context@
    &&& opt_text(o.next_cursor) == opt_text(r.next_cursor)
    &&& o.engine@ == engine_label(r.engine)
}

impl SearchHitMetadataOutput {
    /// Renders the metadata of a hit for a response.
    pub fn from_metadata(metadata: SearchHitMetadata) -> (o: SearchHitMetadataOutput)
        ensures
            same_metadata(o, metadata),
    {
        let mut entities: Vec<SearchHitEntityOutput> = Vec::new();
        let mut k: usize = 0;
        while k < metadata.entities.len()
            invariant
                k <= metadata.entities.len(),
                entities.len() == k,
                forall|j: int|
                    0 <= j < k ==> same_entity(#[trigger] entities[j], metadata.entities[j]),
            decreases metadata.entities.len() - k,
        {
            let entity: &SearchHitEntity = &metadata.entities[k];
            entities.push(
                SearchHitEntityOutput {
                    name: entity.name.clone(),
                    kind: entity.kind.clone(),
                    confidence: entity.confidence,
                },
            );
            k = k + 1;
        }
        SearchHitMetadataOutput {
            matches: metadata.matches,
            tags: metadata.tags,
            labels: metadata.labels,
            track: metadata.track,
            created_at: metadata.created_at,
            content_dates: metadata.content_dates,
            entities,
        }
    }
}

/// Renders a hit for a response.
fn hit_output(hit: SearchHit) -> (o: SearchHitOutput)
    ensures
        same_hit(o, hit),
{
    SearchHitOutput {
        rank: hit.rank,
        frame_id: hit.frame_id,
        uri: hit.uri,
        title: hit.title,
        range: hit.range,
        text: hit.text,
        matches: hit.matches,
        chunk_range: hit.chunk_range,
        chunk_text: hit.chunk_text,
        score: hit.score,
        metadata: match hit.metadata {
            Some(metadata) => Some(SearchHitMetadataOutput::from_metadata(metadata)),
            None => None,
        },
    }
}

impl SearchResponseOutput {
    /// Renders the answer to a search for a response.
    pub fn from_response(response: SearchResponse) -> (o: SearchResponseOutput)
        ensures
            same_response(o, response),
    {
        let ghost given = response;
        let mut response = response;
        let mut rendered: Vec<SearchHitOutput> = Vec::new();
        let mut taken: Vec<SearchHit> = Vec::new();
        std::mem::swap(&mut taken, &mut response.hits);
        let ghost all = taken@;
        assert(all == given.hits@);
        while taken.len() > 0
            invariant
                taken.len() + rendered.len() == all.len(),
                forall|j: int| 0 <= j < taken.len() ==> taken[j] == all[j],
                forall|j: int|
                    0 <= j < rendered.len() ==> same_hit(
                        #[trigger] rendered[j],
                        all[all.len() - 1 - j],
                    ),
            decreases taken.len(),
        {
            match taken.pop() {
                Some(hit) => rendered.push(hit_output(hit)),
                None => {},
            }
        }
        let mut hits: Vec<SearchHitOutput> = Vec::new();
        while rendered.len() > 0
            invariant
                hits.len() + rendered.len() == all.len(),
                forall|j: int|
                    0 <= j < rendered.len() ==> same_hit(
                        #[trigger] rendered[j],
                        all[all.len() - 1 - j],
                    ),
                forall|j: int| 0 <= j < hits.len() ==> same_hit(#[trigger] hits[j], all[j]),
            decreases rendered.len(),
        {
            match rendered.pop() {
                Some(hit) => hits.push(hit),
                None => {},
            }
        }
        let elapsed_ms: u64 = if response.elapsed_ms > u64::MAX as u128 {
            u64::MAX
        } else {
            response.elapsed_ms as u64
        };
        let engine: String = search_engine_label(response.engine).to_string();
        SearchResponseOutput {
            query: response.query,
            elapsed_ms,
            total_hits: response.total_hits,
            params: SearchParamsOutput {
                top_k: response.params.top_k,
                snippet_chars: response.params.snippet_chars,
                cursor: response.params.cursor,
            },
            hits,
            context: response.context,
            next_cursor: response.next_cursor,
            engine,
        }
    }
}

impl SearchHitOutput {
    /// The hit carries metadata, with the same match count as the hit.
    pub open spec fn has_metadata(&self) -> bool {
        self.metadata is Some && self.metadata->0.matches == self.matches
    }
}

impl SearchRequestInput {
    /// The search that the input asks for: what it gives, and the default
    /// of what it leaves out.
    pub open spec fn ask(self) -> SearchAsk {
        SearchAsk {
            query: self.query@,
            top_k: match self.top_k {
                Some(k) => k,
                None => DEFAULT_TOP_K,
            },
            snippet_chars: match self.snippet_chars {
                Some(n) => n,
                None => DEFAULT_SNIPPET_CHARS,
            },
            sight: Sight {
                uri: opt_text(self.uri),
                scope: opt_text(self.scope),
                as_of_frame: self.as_of_frame,
                as_of_ts: self.as_of_ts,
            },
            cursor: opt_text(self.cursor),
        }
    }
}

/// The snippet of each hit.
pub open spec fn output_snippets(hits: Seq<SearchHitOutput>) -> Seq<Seq<char>> {
    Seq::new(hits.len(), |k: int| hits[k].text@)
}

/// What the response to a search request says of what was found.
pub open spec fn renders_output(
    output: SearchResponseOutput,
    m: StoreModel,
    request: SearchAsk,
    available: bool,
    found: Found,
    elapsed_ms: u128,
) -> bool {
    &&& output.query@ == request.query
    &&& output.elapsed_ms == capped(elapsed_ms)
    &&& output.total_hits == total_hits(found.weights)
    &&& output.params.top_k == request.top_k
    &&& output.params.snippet_chars == request.snippet_chars
    &&& opt_text(output.params.cursor) == request.cursor
    &&& output.hits.len() == found.page.len()
    &&& forall|k: int|
        0 <= k < output.hits.len() ==> (#[trigger] output.hits[k])@ == hit_of(
            m,
            found.query,
            request.snippet_chars as nat,
            found.weights[found.page[k]]->0,
            found.page[k],
            (k + 1) as nat,
        ) && output.hits[k].has_metadata()
    &&& output.context@ == context_of(output_snippets(output.hits@))
    &&& opt_text(output.next_cursor) == (match found.next {
        Some(key) => Some(search_cursor_text(key)),
        None => None,
    })
    &&& output.engine@ == engine_label(engine_of(available, found.weights, found.page))
}

/// What a search request returns: a zero `top_k` is refused with its own
/// message, every other refusal with that of the search.
pub open spec fn search_request_spec(
    m: StoreModel,
    request: SearchAsk,
    primary: Seq<Seq<RankedHit>>,
) -> Result<Found, RequestError> {
    if request.top_k == 0 {
        Err(RequestError::ZeroTopK)
    } else {
        match search_spec(m, request, primary) {
            Ok(found) => Ok(found),
            Err(e) => Err(RequestError::Store(e)),
        }
    }
}

/// Searches the store for `input`, with what the primary index finds for
/// each clause of the query, or nothing where the index is unavailable,
/// and the time that the caller took to get it.
pub fn memvid_search(
    store: &FrameStore,
    input: SearchRequestInput,
    primary: &Option<Vec<Vec<RankedHit>>>,
    elapsed_ms: u128,
) -> (r: Result<SearchResponseOutput, String>)
    requires
        store.wf(),
    ensures
        match search_request_spec(store@, input.ask(), primary_lists(*primary)) {
            Ok(found) => r is Ok && renders_output(
                r->Ok_0,
                store@,
                input.ask(),
                primary is Some,
                found,
                elapsed_ms,
            ),
            Err(e) => r is Err && reports(r->Err_0@, e),
        },
{
    let top_k: usize = match input.top_k {
        Some(k) => k,
        None => DEFAULT_TOP_K,
    };
    if top_k == 0 {
        return Err("top_k must be greater than 0".to_string());
    }
    let snippet_chars: usize = match input.snippet_chars {
        Some(n) => n,
        None => DEFAULT_SNIPPET_CHARS,
    };
    let ghost ask = input.ask();
    let request = SearchRequest {
        query: input.query,
        top_k,
        snippet_chars,
        uri: input.uri,
        scope: input.scope,
        cursor: input.cursor,
        as_of_frame: input.as_of_frame,
        as_of_ts: input.as_of_ts,
        no_sketch: match input.no_sketch {
            Some(b) => b,
            None => false,
        },
    };
    assert(request@ == ask);
    match search(store, &request, primary) {
        Err(kind) => Err(describe(kind).to_string()),
        Ok(response) => {
            let ghost found = search_spec(store@, ask, primary_lists(*primary))->Ok_0;
            let ghost plain = response;
            let mut response = response;
            response.elapsed_ms = elapsed_ms;
            let ghost timed = response;
            let output = SearchResponseOutput::from_response(response);
            proof {
                assert forall|k: int| 0 <= k < output.hits.len() implies (#[trigger] output.hits[k])@
                    == hit_of(
                    store@,
                    found.query,
                    ask.snippet_chars as nat,
                    found.weights[found.page[k]]->0,
                    found.page[k],
                    (k + 1) as nat,
                ) && output.hits[k].has_metadata() by {
                    assert(same_hit(output.hits[k], timed.hits[k]));
                    assert(timed.hits[k] == plain.hits[k]);
                    assert(plain.hits[k].has_metadata());
                    assert(output.hits[k]@ == plain.hits[k]@);
                }
                assert(output_snippets(output.hits@) =~= snippets_of(plain.hits@)) by {
                    assert forall|k: int| 0 <= k < output.hits.len() implies output.hits[k].text@
                        == plain.hits[k].text@ by {
                        assert(same_hit(output.hits[k], timed.hits[k]));
                    }
                }
            }
            Ok(output)
        },
    }
}

} // verus!
