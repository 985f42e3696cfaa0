//! What holds of the store whatever is written to it, in what order.

use crate::checksum::digest;
use crate::error::ErrorKind;
use crate::frame::{CanonicalEncoding, FrameStatus, FrameView};
use crate::lexical::{clause_holds, lemma_part_occurs, literal_holds, occurs, query_holds};
use crate::model::{
    append, appended_frames, appended_payloads, canonical_payload_spec, chunk_shape, chunk_total,
    current_for_uri, delete_spec, document_frame, empty_store, frame_by_id_spec, frame_by_uri_spec,
    has_duplicate, is_active, lemma_append_wf, lemma_current_unique, lemma_owner_unique,
    lemma_put_wf, lemma_retire_wf, lemma_update_wf, merged_options, model_wf, next_write, owns_uri,
    parent_shape, put_spec, retired, update_spec, uri_owner, uri_taken, StoreModel,
};
use crate::options::{options_valid, PutOptionsView};
use crate::query::{
    close_clause, lemma_terms_are_words, lemma_words_within, parse_query_spec, read_words,
    split_words, terms_among, within, LiteralView,
};
use crate::ranking::{
    best_of, has_best, is_best, lemma_ranked_complete, lemma_ranked_count, lemma_ranked_hits,
    lemma_ranked_order, lemma_ranked_reaches, outranks, rank_key,
};
use crate::search::{
    search_cursor_spec, search_spec, total_hits, visible, weight_of, RankedHit, SearchAsk, Sight,
};
use crate::timeline::{lemma_scan_listed, scan, Bounds, Position};
use vstd::prelude::*;

verus! {

/// One write to the store.
pub enum Write {
    Put { payload: Seq<u8>, options: PutOptionsView, now: i64 },
    Update { id: u64, payload: Option<Seq<u8>>, options: PutOptionsView, now: i64 },
    Delete { id: u64, now: i64 },
}

/// What a write makes of the log, and the sequence number it returns.
pub open spec fn write_spec(m: StoreModel, w: Write) -> Result<(StoreModel, u64), ErrorKind> {
    match w {
        Write::Put { payload, options, now } => put_spec(m, payload, options, now),
        Write::Update { id, payload, options, now } => update_spec(m, id, payload, options, now),
        Write::Delete { id, now } => delete_spec(m, id, now),
    }
}

/// The write is a put that finds its payload in the store and changes
/// nothing.
pub open spec fn finds_duplicate(m: StoreModel, w: Write) -> bool {
    match w {
        Write::Put { payload, options, now } => options_valid(options) && options.dedup
            && has_duplicate(m, payload),
        _ => false,
    }
}

/// The log after a write; a refused write leaves it as it was.
pub open spec fn after(m: StoreModel, w: Write) -> StoreModel {
    match write_spec(m, w) {
        Ok(next) => next.0,
        Err(_) => m,
    }
}

/// The log after a run of writes.
pub open spec fn after_all(m: StoreModel, ws: Seq<Write>) -> StoreModel
    decreases ws.len(),
{
    if ws.len() == 0 {
        m
    } else {
        after(after_all(m, ws.drop_last()), ws.last())
    }
}

/// The payload of a write fits the machine, and the log has room for the
/// frames that it adds.
pub open spec fn fits(m: StoreModel, w: Write) -> bool {
    let bytes: nat = match w {
        Write::Put { payload, options, now } => payload.len(),
        Write::Update { id, payload, options, now } => match payload {
            Some(p) => p.len(),
            None => if id < m.payloads.len() {
                m.payloads[id as int].len()
            } else {
                0
            },
        },
        Write::Delete { id, now } => 0,
    };
    &&& m.seq < u64::MAX
    &&& bytes <= usize::MAX
    &&& m.frames.len() + 1 + chunk_total(bytes) <= usize::MAX
}

/// Every write keeps the log well formed, moves its sequence number on by
/// one at most, and returns the new sequence number unless it is refused
/// or finds a duplicate.
pub proof fn lemma_write(m: StoreModel, w: Write)
    requires
        model_wf(m),
        fits(m, w),
    ensures
        model_wf(after(m, w)),
        after(m, w).frames.len() >= m.frames.len(),
        m.seq <= after(m, w).seq <= m.seq + 1,
        write_spec(m, w) is Err ==> after(m, w) == m,
        finds_duplicate(m, w) ==> after(m, w) == m && write_spec(m, w) is Ok && write_spec(
            m,
            w,
        )->Ok_0.1 <= m.seq,
        write_spec(m, w) is Ok && !finds_duplicate(m, w) ==> after(m, w).seq == m.seq + 1
            && write_spec(m, w)->Ok_0.1 == m.seq + 1,
{
    match w {
        Write::Put { payload, options, now } => {
            if write_spec(m, w) is Ok {
                lemma_put_wf(m, payload, options, now);
                if finds_duplicate(m, w) {
                    let i = crate::model::duplicate_of(m, payload);
                    assert(crate::model::first_duplicate(m, i, payload));
                    assert(m.frames[i].seq_no <= m.seq);
                }
            }
        },
        Write::Update { id, payload, options, now } => {
            if write_spec(m, w) is Ok {
                lemma_update_wf(m, id, payload, options, now);
                let merged = merged_options(m.frames[id as int], payload is Some, options);
                let bytes = match payload {
                    Some(p) => p,
                    None => m.payloads[id as int],
                };
                lemma_append_wf(
                    retired(m, id as int, FrameStatus::Superseded, now),
                    bytes,
                    merged,
                    now,
                );
            }
        },
        Write::Delete { id, now } => {
            if write_spec(m, w) is Ok {
                lemma_delete_wf(m, id, now);
            }
        },
    }
}

/// A delete keeps the log well formed.
pub proof fn lemma_delete_wf(m: StoreModel, id: u64, now: i64)
    requires
        model_wf(m),
        m.seq < u64::MAX,
        delete_spec(m, id, now) is Ok,
    ensures
        model_wf(delete_spec(m, id, now)->Ok_0.0),
{
    let r = retired(m, id as int, FrameStatus::Deleted, now);
    let d = delete_spec(m, id, now)->Ok_0.0;
    lemma_retire_wf(m, id as int, FrameStatus::Deleted, now);
    assert(d.frames == r.frames);
    assert forall|i: int| 0 <= i < d.frames.len() implies #[trigger] chunk_shape(d, i) by {
        assert(chunk_shape(r, i));
    }
    assert forall|i: int| 0 <= i < d.frames.len() implies #[trigger] parent_shape(d, i) by {
        assert(parent_shape(r, i));
    }
}

/// Round trip: the document that a put appends carries the payload as its
/// canonical bytes, unencoded, under the digest of the payload, so that
/// reading it back returns the payload. Where the put names a URI, the
/// document is its one active owner.
pub proof fn lemma_put_round_trip(m: StoreModel, payload: Seq<u8>, options: PutOptionsView, now: i64)
    requires
        model_wf(m),
        fits(m, Write::Put { payload, options, now }),
        put_spec(m, payload, options, now) is Ok,
        !(options.dedup && has_duplicate(m, payload)),
    ensures
        ({
            let written = put_spec(m, payload, options, now)->Ok_0;
            let id = m.frames.len() as u64;
            &&& frame_by_id_spec(written.0, id) is Ok
            &&& written.0.frames[id as int].seq_no == written.1
            &&& written.0.frames[id as int].status == FrameStatus::Active
            &&& written.0.frames[id as int].canonical_encoding == CanonicalEncoding::Plain
            &&& written.0.frames[id as int].checksum == digest(payload)
            &&& canonical_payload_spec(written.0, id) == Ok::<Seq<u8>, ErrorKind>(payload)
            &&& options.uri is Some ==> forall|j: int|
                owns_uri(written.0, j, options.uri->0) <==> j == id
        }),
{
    let written = put_spec(m, payload, options, now)->Ok_0;
    let n = m.frames.len() as int;
    let base = if options.uri is Some && uri_taken(m, options.uri->0) {
        retired(m, uri_owner(m, options.uri->0), FrameStatus::Superseded, now)
    } else {
        m
    };
    assert(written.0 == append(base, payload, options, now));
    let added = appended_frames(n as u64, (m.seq + 1) as u64, payload, options, now);
    assert(written.0.frames[n] == added[0]);
    assert(written.0.payloads[n] == appended_payloads(payload)[0]);
    if options.uri is Some {
        lemma_write(m, Write::Put { payload, options, now });
        assert(owns_uri(written.0, n, options.uri->0));
        assert forall|j: int| owns_uri(written.0, j, options.uri->0) implies j == n by {
            lemma_owner_unique(written.0, options.uri->0, n);
        }
    }
}

/// Monotonic sequence numbers: of two writes of one run that both succeed
/// and change the store, the later returns the greater sequence number.
pub proof fn lemma_seq_monotonic(m: StoreModel, ws: Seq<Write>, i: int, j: int)
    requires
        model_wf(m),
        0 <= i < j < ws.len(),
        forall|k: int| 0 <= k < ws.len() ==> fits(after_all(m, ws.take(k)), #[trigger] ws[k]),
        write_spec(after_all(m, ws.take(i)), ws[i]) is Ok,
        write_spec(after_all(m, ws.take(j)), ws[j]) is Ok,
        !finds_duplicate(after_all(m, ws.take(i)), ws[i]),
        !finds_duplicate(after_all(m, ws.take(j)), ws[j]),
    ensures
        write_spec(after_all(m, ws.take(i)), ws[i])->Ok_0.1 < write_spec(
            after_all(m, ws.take(j)),
            ws[j],
        )->Ok_0.1,
{
    lemma_run(m, ws, i);
    lemma_run(m, ws, j);
    lemma_run(m, ws, i + 1);
    lemma_run_grows(m, ws, i + 1, j);
    assert(ws.take(i + 1).drop_last() =~= ws.take(i));
    lemma_write(after_all(m, ws.take(i)), ws[i]);
    lemma_write(after_all(m, ws.take(j)), ws[j]);
}

/// Every log along a run of writes is well formed.
pub proof fn lemma_run(m: StoreModel, ws: Seq<Write>, k: int)
    requires
        model_wf(m),
        0 <= k <= ws.len(),
        forall|i: int| 0 <= i < ws.len() ==> fits(after_all(m, ws.take(i)), #[trigger] ws[i]),
    ensures
        model_wf(after_all(m, ws.take(k))),
    decreases k,
{
    if k > 0 {
        lemma_run(m, ws, k - 1);
        assert(ws.take(k).drop_last() =~= ws.take(k - 1));
        assert(ws.take(k).last() == ws[k - 1]);
        lemma_write(after_all(m, ws.take(k - 1)), ws[k - 1]);
    }
}

/// The sequence number of the log never falls along a run of writes.
pub proof fn lemma_run_grows(m: StoreModel, ws: Seq<Write>, a: int, b: int)
    requires
        model_wf(m),
        0 <= a <= b <= ws.len(),
        forall|i: int| 0 <= i < ws.len() ==> fits(after_all(m, ws.take(i)), #[trigger] ws[i]),
    ensures
        after_all(m, ws.take(a)).seq <= after_all(m, ws.take(b)).seq,
    decreases b - a,
{
    if a < b {
        lemma_run_grows(m, ws, a, b - 1);
        lemma_run(m, ws, b - 1);
        assert(ws.take(b).drop_last() =~= ws.take(b - 1));
        assert(ws.take(b).last() == ws[b - 1]);
        lemma_write(after_all(m, ws.take(b - 1)), ws[b - 1]);
    }
}

/// URI uniqueness: whatever is written to a new store, no URI has two
/// active owners.
pub proof fn lemma_uri_unique(ws: Seq<Write>, uri: Seq<char>, i: int, j: int)
    requires
        forall|k: int|
            0 <= k < ws.len() ==> fits(after_all(empty_store(), ws.take(k)), #[trigger] ws[k]),
        owns_uri(after_all(empty_store(), ws), i, uri),
        owns_uri(after_all(empty_store(), ws), j, uri),
    ensures
        i == j,
{
    lemma_empty_wf();
    lemma_run(empty_store(), ws, ws.len() as int);
    assert(ws.take(ws.len() as int) =~= ws);
    lemma_owner_unique(after_all(empty_store(), ws), uri, i);
}

/// The log of a new store is well formed.
pub proof fn lemma_empty_wf()
    ensures
        model_wf(empty_store()),
{
}

/// A frame that has left the active state stays in the state it has moved
/// to, whatever is written afterwards.
pub proof fn lemma_final_states(m: StoreModel, w: Write, id: int)
    requires
        model_wf(m),
        fits(m, w),
        0 <= id < m.frames.len(),
        m.frames[id].status != FrameStatus::Active,
    ensures
        after(m, w).frames[id] == m.frames[id],
{
    match w {
        Write::Put { payload, options, now } => {
            if write_spec(m, w) is Ok && !finds_duplicate(m, w) {
                let base = if options.uri is Some && uri_taken(m, options.uri->0) {
                    retired(m, uri_owner(m, options.uri->0), FrameStatus::Superseded, now)
                } else {
                    m
                };
                assert(after(m, w) == append(base, payload, options, now));
                assert(after(m, w).frames[id] == base.frames[id]);
            }
        },
        Write::Update { id: target, payload, options, now } => {
            if write_spec(m, w) is Ok {
                let base = retired(m, target as int, FrameStatus::Superseded, now);
                assert(after(m, w).frames[id] == base.frames[id]);
            }
        },
        Write::Delete { id: target, now } => {},
    }
}

/// Append only: a write changes nothing of a frame that is in the log but,
/// at most, its state, and that only from active to one of the final
/// states; the bytes of the frame stay as they are.
pub proof fn lemma_records_stay(m: StoreModel, w: Write, id: int)
    requires
        model_wf(m),
        fits(m, w),
        0 <= id < m.frames.len(),
    ensures
        id < after(m, w).frames.len(),
        after(m, w).frames[id] == m.frames[id].at_stage(
            after(m, w).frames[id].status,
            after(m, w).frames[id].retired,
        ),
        after(m, w).frames[id].status != m.frames[id].status ==> m.frames[id].status
            == FrameStatus::Active,
        after(m, w).payloads[id] == m.payloads[id],
{
    if m.frames[id].status != FrameStatus::Active {
        lemma_final_states(m, w, id);
    }
    match w {
        Write::Put { payload, options, now } => {
            if write_spec(m, w) is Ok && !finds_duplicate(m, w) {
                let base = if options.uri is Some && uri_taken(m, options.uri->0) {
                    retired(m, uri_owner(m, options.uri->0), FrameStatus::Superseded, now)
                } else {
                    m
                };
                assert(after(m, w) == append(base, payload, options, now));
                assert(after(m, w).frames[id] == base.frames[id]);
                assert(after(m, w).payloads[id] == base.payloads[id]);
            }
        },
        Write::Update { id: target, payload, options, now } => {
            if write_spec(m, w) is Ok {
                let base = retired(m, target as int, FrameStatus::Superseded, now);
                assert(after(m, w).frames[id] == base.frames[id]);
                assert(after(m, w).payloads[id] == base.payloads[id]);
            }
        },
        Write::Delete { id: target, now } => {},
    }
}

/// Tombstone: after a delete, a lookup of the frame returns it as deleted
/// by that write, with every other field as before. Every other frame is
/// as it was, no frame has left the log, and the bytes of every frame stay.
pub proof fn lemma_tombstone(m: StoreModel, id: u64, now: i64)
    requires
        model_wf(m),
        m.seq < u64::MAX,
        delete_spec(m, id, now) is Ok,
    ensures
        frame_by_id_spec(delete_spec(m, id, now)->Ok_0.0, id) == Ok::<FrameView, ErrorKind>(
            m.frames[id as int].at_stage(FrameStatus::Deleted, Some(next_write(m, now))),
        ),
        !is_active(delete_spec(m, id, now)->Ok_0.0, id as int),
        delete_spec(m, id, now)->Ok_0.0.frames.len() == m.frames.len(),
        delete_spec(m, id, now)->Ok_0.0.payloads == m.payloads,
        forall|i: int|
            0 <= i < m.frames.len() && i != id ==> (#[trigger] delete_spec(
                m,
                id,
                now,
            )->Ok_0.0.frames[i]) == m.frames[i],
{
}

/// Update supersession: after an update, the frame that was updated is
/// superseded, and the document that was appended is active, carries the
/// merged options and the new payload, and is the current record and the
/// one active owner of its URI, which is the URI of the frame that was
/// updated unless the update names another. No other frame changes.
pub proof fn lemma_update_supersedes(
    m: StoreModel,
    id: u64,
    payload: Option<Seq<u8>>,
    options: PutOptionsView,
    now: i64,
)
    requires
        model_wf(m),
        fits(m, Write::Update { id, payload, options, now }),
        update_spec(m, id, payload, options, now) is Ok,
    ensures
        ({
            let written = update_spec(m, id, payload, options, now)->Ok_0;
            let fresh = m.frames.len() as u64;
            let merged = merged_options(m.frames[id as int], payload is Some, options);
            let bytes = match payload {
                Some(p) => p,
                None => m.payloads[id as int],
            };
            &&& written.0.frames[id as int] == m.frames[id as int].at_stage(
                FrameStatus::Superseded,
                Some(next_write(m, now)),
            )
            &&& written.0.frames[fresh as int] == document_frame(
                fresh,
                written.1,
                bytes,
                merged,
                now,
            )
            &&& written.0.frames[fresh as int].status == FrameStatus::Active
            &&& canonical_payload_spec(written.0, fresh) == Ok::<Seq<u8>, ErrorKind>(bytes)
            &&& merged.uri is Some ==> frame_by_uri_spec(written.0, merged.uri->0) == Ok::<
                FrameView,
                ErrorKind,
            >(written.0.frames[fresh as int])
            &&& merged.uri is Some ==> forall|j: int|
                owns_uri(written.0, j, merged.uri->0) <==> j == fresh
            &&& options.uri is None ==> merged.uri == m.frames[id as int].uri
            &&& forall|i: int|
                0 <= i < m.frames.len() && i != id ==> (#[trigger] written.0.frames[i])
                    == m.frames[i]
        }),
{
    let written = update_spec(m, id, payload, options, now)->Ok_0;
    let n = m.frames.len() as int;
    let merged = merged_options(m.frames[id as int], payload is Some, options);
    let bytes = match payload {
        Some(p) => p,
        None => m.payloads[id as int],
    };
    let base = retired(m, id as int, FrameStatus::Superseded, now);
    lemma_update_wf(m, id, payload, options, now);
    lemma_append_wf(base, bytes, merged, now);
    let added = appended_frames(n as u64, (m.seq + 1) as u64, bytes, merged, now);
    assert(written.0.frames[n] == added[0]);
    assert(written.0.payloads[n] == appended_payloads(bytes)[0]);
    assert(written.0.frames[id as int] == base.frames[id as int]);
    if merged.uri is Some {
        assert(owns_uri(written.0, n, merged.uri->0));
        assert(uri_taken(written.0, merged.uri->0));
        assert(current_for_uri(written.0, n, merged.uri->0));
        lemma_current_unique(written.0, merged.uri->0, n);
        assert forall|j: int| owns_uri(written.0, j, merged.uri->0) implies j == n by {
            lemma_owner_unique(written.0, merged.uri->0, n);
        }
    }
    assert forall|i: int| 0 <= i < n && i != id implies #[trigger] written.0.frames[i]
        == m.frames[i] by {
        assert(written.0.frames[i] == base.frames[i]);
    }
}

/// Tombstone visibility on the timeline: no scan shows a frame that is
/// not active.
pub proof fn lemma_timeline_hides(
    m: StoreModel,
    id: u64,
    b: Bounds,
    after: Option<Position>,
    n: nat,
    k: int,
)
    requires
        m.frames.len() <= u64::MAX,
        !is_active(m, id as int),
        0 <= k < scan(m, b, after, n).len(),
    ensures
        scan(m, b, after, n)[k].frame_id != id,
{
    lemma_scan_listed(m, b, after, n, k);
}

/// Tombstone visibility in search: no page of a search that looks at the
/// store as it is shows a frame that is not active, whatever the primary
/// index says of it.
pub proof fn lemma_search_hides(
    m: StoreModel,
    id: u64,
    request: SearchAsk,
    primary: Seq<Seq<RankedHit>>,
    k: int,
)
    requires
        model_wf(m),
        !is_active(m, id as int),
        request.sight.as_of_frame is None,
        request.sight.as_of_ts is None,
        search_spec(m, request, primary) is Ok,
        0 <= k < search_spec(m, request, primary)->Ok_0.page.len(),
    ensures
        search_spec(m, request, primary)->Ok_0.page[k] != id,
        search_spec(m, request, primary)->Ok_0.weights.len() == m.frames.len(),
        id < m.frames.len() ==> search_spec(m, request, primary)->Ok_0.weights[id as int] is None,
{
    let found = search_spec(m, request, primary)->Ok_0;
    let after = match request.cursor {
        Some(c) => search_cursor_spec(c),
        None => None,
    };
    lemma_ranked_hits(found.weights, after, request.top_k as nat, k);
    if id < m.frames.len() {
        assert(m.frames[id as int].retired is Some);
    }
}

/// Temporal scope: a search that looks at the store as it was when a
/// frame was made sees that frame, though a later write has retired it.
pub proof fn lemma_search_looks_back(m: StoreModel, s: Sight, id: int)
    requires
        model_wf(m),
        0 <= id < m.frames.len(),
        m.frames[id].parent_id is None,
        s.uri is None,
        s.scope is None,
        s.as_of_frame == Some(id as u64),
        s.as_of_ts is None,
    ensures
        visible(m, s, id),
{
}

/// Every literal of the query either asks for a term or is met by the
/// frame on its own account.
pub open spec fn plainly_asked(f: FrameView, q: Seq<Seq<LiteralView>>) -> bool {
    forall|c: int, k: int|
        0 <= c < q.len() && 0 <= k < q[c].len() ==> (((#[trigger] q[c][k]).atom is Term
            && !q[c][k].negated) || literal_holds(f, q[c][k]))
}

/// Search consistency: a frame in sight whose text holds the query
/// verbatim is a hit, at the place that its weight gives it. It is on the
/// first page, or the first page is full of hits that come before it.
pub proof fn lemma_search_finds(
    m: StoreModel,
    request: SearchAsk,
    primary: Seq<Seq<RankedHit>>,
    id: int,
)
    requires
        m.frames.len() <= u64::MAX,
        request.top_k > 0,
        request.cursor is None,
        visible(m, request.sight, id),
        m.frames[id].search_text is Some,
        occurs(request.query, m.frames[id].search_text->0),
        parse_query_spec(request.query) is Ok,
        plainly_asked(m.frames[id], parse_query_spec(request.query)->Ok_0),
    ensures
        search_spec(m, request, primary) is Ok,
        search_spec(m, request, primary)->Ok_0.weights[id] is Some,
        ({
            let found = search_spec(m, request, primary)->Ok_0;
            found.page.contains(id) || (found.page.len() == request.top_k && forall|k: int|
                0 <= k < found.page.len() ==> outranks(
                    rank_key(found.weights, #[trigger] found.page[k]),
                    rank_key(found.weights, id),
                ))
        }),
{
    let f = m.frames[id];
    let text = f.search_text->0;
    let words = split_words(request.query);
    let reading = read_words(words)->Ok_0;
    let q = close_clause(reading);
    lemma_words_within(request.query);
    lemma_terms_are_words(words);
    assert forall|c: int| 0 <= c < q.len() implies clause_holds(f, #[trigger] q[c]) by {
        assert(terms_among(q[c], words)) by {
            if c < reading.closed.len() {
                assert(q[c] == reading.closed[c]);
            } else {
                assert(q[c] == reading.open);
            }
        }
        assert forall|k: int| 0 <= k < q[c].len() implies literal_holds(f, #[trigger] q[c][k]) by {
            let l = q[c][k];
            if l.atom is Term && !l.negated {
                let t = l.atom->Term_0;
                assert(words.contains(t));
                let w = choose|w: int| 0 <= w < words.len() && words[w] == t;
                assert(within(words[w], request.query));
                lemma_part_occurs(t, request.query, text);
            }
        }
    }
    assert(query_holds(f, q)) by {
        if q.len() > 0 {
            assert(clause_holds(f, q[0]));
        }
    }
    let found = search_spec(m, request, primary)->Ok_0;
    assert(found.weights[id] == weight_of(m, q, request.sight, primary, id));
    lemma_ranked_reaches(found.weights, None, request.top_k as nat, id);
}

/// A search that asks for as many hits as there are finds all of them on
/// its first page.
pub proof fn lemma_search_lists_all(
    m: StoreModel,
    request: SearchAsk,
    primary: Seq<Seq<RankedHit>>,
    id: int,
)
    requires
        m.frames.len() <= u64::MAX,
        request.cursor is None,
        search_spec(m, request, primary) is Ok,
        0 <= id < m.frames.len(),
        search_spec(m, request, primary)->Ok_0.weights[id] is Some,
        request.top_k >= total_hits(search_spec(m, request, primary)->Ok_0.weights),
    ensures
        search_spec(m, request, primary)->Ok_0.page.contains(id),
        search_spec(m, request, primary)->Ok_0.next is None,
{
    let found = search_spec(m, request, primary)->Ok_0;
    lemma_ranked_complete(found.weights, request.top_k as nat, id);
    lemma_ranked_count(found.weights, None, request.top_k as nat);
    if found.page.len() > 0 {
        let last = Some(rank_key(found.weights, found.page.last()));
        if has_best(found.weights, last) {
            let j = best_of(found.weights, last);
            assert(is_best(found.weights, last, j));
            lemma_ranked_hits(
                found.weights,
                None,
                request.top_k as nat,
                found.page.len() - 1,
            );
            lemma_ranked_complete(found.weights, request.top_k as nat, j);
            let k = choose|k: int| 0 <= k < found.page.len() && found.page[k] == j;
            lemma_ranked_order(found.weights, None, request.top_k as nat, k, found.page.len() - 1);
        }
    }
}

} // verus!
