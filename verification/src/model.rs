//! The store as a mathematical object: the log of frames, what each
//! operation makes of it, and what holds of every log that the operations
//! produce.

use crate::checksum::digest;
use crate::error::ErrorKind;
use crate::frame::{CanonicalEncoding, FrameRole, FrameStatus, FrameView, Retirement};
use crate::options::{keys_distinct, options_valid, PutOptionsView};
use vstd::prelude::*;
use vstd::utf8::{decode_utf8, valid_utf8};

verus! {

/// A payload longer than this is also written as chunk frames of at most
/// this many bytes each.
pub const CHUNK_BYTES: usize = 4096;

/// The log of a store: frame `i` has id `i` and the canonical bytes
/// `payloads[i]`; `seq` is the sequence number of the last write.
#[verifier::ext_equal]
pub struct StoreModel {
    pub frames: Seq<FrameView>,
    pub payloads: Seq<Seq<u8>>,
    pub seq: u64,
}

/// The log of a container that was just created.
pub open spec fn empty_store() -> StoreModel {
    StoreModel { frames: Seq::empty(), payloads: Seq::empty(), seq: 0 }
}

/// The number of chunk frames written for a payload of `len` bytes: none
/// for a payload of at most one chunk, else as many as cover it.
pub open spec fn chunk_total(len: nat) -> nat {
    let pieces = len / (CHUNK_BYTES as nat) + if len % (CHUNK_BYTES as nat) == 0 {
        0nat
    } else {
        1nat
    };
    if len > CHUNK_BYTES && pieces <= u32::MAX {
        pieces
    } else {
        0
    }
}

/// Where chunk `k` of a payload of `len` bytes ends.
pub open spec fn chunk_end(len: nat, k: int) -> int {
    if (k + 1) * CHUNK_BYTES <= len {
        (k + 1) * CHUNK_BYTES
    } else {
        len as int
    }
}

/// The bytes of chunk `k` of a payload.
pub open spec fn chunk_bytes(payload: Seq<u8>, k: int) -> Seq<u8> {
    payload.subrange(k * CHUNK_BYTES, chunk_end(payload.len(), k))
}

/// The text that a payload holds, where it is UTF-8.
pub open spec fn text_of(payload: Seq<u8>) -> Option<Seq<char>> {
    if valid_utf8(payload) {
        Some(decode_utf8(payload))
    } else {
        None
    }
}

/// The text that is indexed for a payload written with the options `o`.
pub open spec fn indexed_text(payload: Seq<u8>, o: PutOptionsView) -> Option<Seq<char>> {
    match o.search_text {
        Some(t) => Some(t),
        None => text_of(payload),
    }
}

/// The document frame that a write of `payload` with the options `o` appends.
pub open spec fn document_frame(
    id: u64,
    seq_no: u64,
    payload: Seq<u8>,
    o: PutOptionsView,
    now: i64,
) -> FrameView {
    FrameView {
        id,
        seq_no,
        timestamp: match o.timestamp {
            Some(t) => t,
            None => now,
        },
        role: FrameRole::Document,
        status: FrameStatus::Active,
        canonical_encoding: CanonicalEncoding::Plain,
        canonical_length: None,
        payload_length: payload.len() as u64,
        checksum: digest(payload),
        uri: o.uri,
        title: o.title,
        kind: o.kind,
        track: o.track,
        tags: o.tags,
        labels: o.labels,
        extra_metadata: o.extra_metadata,
        content_dates: Seq::empty(),
        parent_id: None,
        chunk_index: None,
        chunk_count: if chunk_total(payload.len()) > 0 {
            Some(chunk_total(payload.len()) as u32)
        } else {
            None
        },
        search_text: indexed_text(payload, o),
        metadata: o.metadata,
        retired: None,
    }
}

/// Chunk `index` of the document `parent`, holding `bytes`.
pub open spec fn chunk_frame(
    parent: u64,
    index: u32,
    total: u32,
    seq_no: u64,
    timestamp: i64,
    bytes: Seq<u8>,
) -> FrameView {
    FrameView {
        id: (parent + 1 + index) as u64,
        seq_no,
        timestamp,
        role: FrameRole::DocumentChunk,
        status: FrameStatus::Active,
        canonical_encoding: CanonicalEncoding::Plain,
        canonical_length: None,
        payload_length: bytes.len() as u64,
        checksum: digest(bytes),
        uri: None,
        title: None,
        kind: None,
        track: None,
        tags: Seq::empty(),
        labels: Seq::empty(),
        extra_metadata: Seq::empty(),
        content_dates: Seq::empty(),
        parent_id: Some(parent),
        chunk_index: Some(index),
        chunk_count: Some(total),
        search_text: None,
        metadata: None,
        retired: None,
    }
}

/// The frames that one write appends: the document first, then its chunks.
pub open spec fn appended_frames(
    first: u64,
    seq_no: u64,
    payload: Seq<u8>,
    o: PutOptionsView,
    now: i64,
) -> Seq<FrameView> {
    let doc = document_frame(first, seq_no, payload, o, now);
    let total = chunk_total(payload.len());
    Seq::new(
        1 + total,
        |i: int|
            if i == 0 {
                doc
            } else {
                chunk_frame(
                    first,
                    (i - 1) as u32,
                    total as u32,
                    seq_no,
                    doc.timestamp,
                    chunk_bytes(payload, i - 1),
                )
            },
    )
}

/// The canonical bytes of the frames that one write appends.
pub open spec fn appended_payloads(payload: Seq<u8>) -> Seq<Seq<u8>> {
    Seq::new(
        1 + chunk_total(payload.len()),
        |i: int|
            if i == 0 {
                payload
            } else {
                chunk_bytes(payload, i - 1)
            },
    )
}

/// The log after one write of `payload` with the options `o`.
pub open spec fn append(m: StoreModel, payload: Seq<u8>, o: PutOptionsView, now: i64)
    -> StoreModel {
    StoreModel {
        frames: m.frames + appended_frames(
            m.frames.len() as u64,
            (m.seq + 1) as u64,
            payload,
            o,
            now,
        ),
        payloads: m.payloads + appended_payloads(payload),
        seq: (m.seq + 1) as u64,
    }
}

/// The frames once the frame `id`, if it is still active, has moved to the
/// final state `to`, by the write that `by` names. No other frame changes.
pub open spec fn retire(frames: Seq<FrameView>, id: int, to: FrameStatus, by: Retirement) -> Seq<
    FrameView,
> {
    Seq::new(
        frames.len(),
        |i: int|
            if i == id && frames[i].status == FrameStatus::Active {
                frames[i].at_stage(to, Some(by))
            } else {
                frames[i]
            },
    )
}

/// The write that comes next in the log, at the time `now`.
pub open spec fn next_write(m: StoreModel, now: i64) -> Retirement {
    Retirement { seq_no: (m.seq + 1) as u64, timestamp: now }
}

/// The log once the next write, at the time `now`, has retired the frame `id`.
pub open spec fn retired(m: StoreModel, id: int, to: FrameStatus, now: i64) -> StoreModel {
    StoreModel { frames: retire(m.frames, id, to, next_write(m, now)), ..m }
}

/// Frame `i` exists and is active.
pub open spec fn is_active(m: StoreModel, i: int) -> bool {
    0 <= i < m.frames.len() && m.frames[i].status == FrameStatus::Active
}

/// Frame `i` is the active owner of `uri`.
pub open spec fn owns_uri(m: StoreModel, i: int, uri: Seq<char>) -> bool {
    is_active(m, i) && m.frames[i].uri == Some(uri)
}

/// Some active frame owns `uri`.
pub open spec fn uri_taken(m: StoreModel, uri: Seq<char>) -> bool {
    exists|i: int| owns_uri(m, i, uri)
}

/// The active owner of `uri`, where there is one.
pub open spec fn uri_owner(m: StoreModel, uri: Seq<char>) -> int {
    choose|i: int| owns_uri(m, i, uri)
}

/// Frame `i` is an active document with the same digest as `payload`.
pub open spec fn duplicates(m: StoreModel, i: int, payload: Seq<u8>) -> bool {
    is_active(m, i) && m.frames[i].parent_id is None && m.frames[i].checksum == digest(payload)
}

/// Frame `i` is the oldest active document with the same digest as `payload`.
pub open spec fn first_duplicate(m: StoreModel, i: int, payload: Seq<u8>) -> bool {
    duplicates(m, i, payload) && forall|j: int| 0 <= j < i ==> !duplicates(m, j, payload)
}

/// Some active document has the same digest as `payload`.
pub open spec fn has_duplicate(m: StoreModel, payload: Seq<u8>) -> bool {
    exists|i: int| first_duplicate(m, i, payload)
}

/// The oldest active document with the same digest as `payload`.
pub open spec fn duplicate_of(m: StoreModel, payload: Seq<u8>) -> int {
    choose|i: int| first_duplicate(m, i, payload)
}

/// What a put makes of the log, and the sequence number that it returns.
///
/// Malformed options are refused. With `dedup`, a payload whose digest an
/// active document already carries changes nothing and returns that
/// document's sequence number. A URI that an active frame owns is a conflict
/// without `dedup`; with it, the new document supersedes the owner.
pub open spec fn put_spec(m: StoreModel, payload: Seq<u8>, o: PutOptionsView, now: i64) -> Result<
    (StoreModel, u64),
    ErrorKind,
> {
    if !options_valid(o) {
        Err(ErrorKind::InvalidOptions)
    } else if o.dedup && has_duplicate(m, payload) {
        Ok((m, m.frames[duplicate_of(m, payload)].seq_no))
    } else if o.uri is Some && uri_taken(m, o.uri->0) {
        if o.dedup {
            Ok(
                (
                    append(
                        retired(m, uri_owner(m, o.uri->0), FrameStatus::Superseded, now),
                        payload,
                        o,
                        now,
                    ),
                    (m.seq + 1) as u64,
                ),
            )
        } else {
            Err(ErrorKind::UriConflict)
        }
    } else {
        Ok((append(m, payload, o, now), (m.seq + 1) as u64))
    }
}

/// The options under which an update rewrites the frame `old`: what the
/// caller gives overrides, what the caller leaves out is inherited.
pub open spec fn merged_options(old: FrameView, replaces_payload: bool, o: PutOptionsView)
    -> PutOptionsView {
    PutOptionsView {
        track: if o.track is Some {
            o.track
        } else {
            old.track
        },
        kind: if o.kind is Some {
            o.kind
        } else {
            old.kind
        },
        uri: if o.uri is Some {
            o.uri
        } else {
            old.uri
        },
        title: if o.title is Some {
            o.title
        } else {
            old.title
        },
        search_text: if o.search_text is Some || replaces_payload {
            o.search_text
        } else {
            old.search_text
        },
        tags: if o.tags.len() > 0 {
            o.tags
        } else {
            old.tags
        },
        labels: if o.labels.len() > 0 {
            o.labels
        } else {
            old.labels
        },
        extra_metadata: if o.extra_metadata.len() > 0 {
            o.extra_metadata
        } else {
            old.extra_metadata
        },
        metadata: if o.metadata is Some {
            o.metadata
        } else {
            old.metadata
        },
        ..o
    }
}

/// Some active frame other than `id` owns `uri`.
pub open spec fn uri_taken_by_other(m: StoreModel, uri: Seq<char>, id: int) -> bool {
    exists|i: int| owns_uri(m, i, uri) && i != id
}

/// What an update of the frame `id` makes of the log, and the sequence
/// number that it returns: the frame is superseded, and a new document
/// carries the merged options and the new payload, or the old one where
/// none is given. No other frame of the log changes.
pub open spec fn update_spec(
    m: StoreModel,
    id: u64,
    new_payload: Option<Seq<u8>>,
    o: PutOptionsView,
    now: i64,
) -> Result<(StoreModel, u64), ErrorKind> {
    if !is_active(m, id as int) {
        Err(ErrorKind::NotFound)
    } else if !options_valid(o) {
        Err(ErrorKind::InvalidOptions)
    } else {
        let merged = merged_options(m.frames[id as int], new_payload is Some, o);
        let payload = match new_payload {
            Some(p) => p,
            None => m.payloads[id as int],
        };
        if merged.uri is Some && uri_taken_by_other(m, merged.uri->0, id as int) {
            Err(ErrorKind::UriConflict)
        } else {
            Ok(
                (
                    append(
                        retired(m, id as int, FrameStatus::Superseded, now),
                        payload,
                        merged,
                        now,
                    ),
                    (m.seq + 1) as u64,
                ),
            )
        }
    }
}

/// What a delete of the frame `id` at the time `now` makes of the log, and
/// the sequence number that it returns: the frame becomes a tombstone, and
/// no other frame changes.
pub open spec fn delete_spec(m: StoreModel, id: u64, now: i64) -> Result<
    (StoreModel, u64),
    ErrorKind,
> {
    if !is_active(m, id as int) {
        Err(ErrorKind::NotFound)
    } else {
        Ok(
            (
                StoreModel {
                    seq: (m.seq + 1) as u64,
                    ..retired(m, id as int, FrameStatus::Deleted, now)
                },
                (m.seq + 1) as u64,
            ),
        )
    }
}

/// The record of the frame `id`, whatever its state.
pub open spec fn frame_by_id_spec(m: StoreModel, id: u64) -> Result<FrameView, ErrorKind> {
    if id < m.frames.len() {
        Ok(m.frames[id as int])
    } else {
        Err(ErrorKind::NotFound)
    }
}

/// Frame `i` carries `uri`.
pub open spec fn has_uri(m: StoreModel, i: int, uri: Seq<char>) -> bool {
    0 <= i < m.frames.len() && m.frames[i].uri == Some(uri)
}

/// Frame `i` is the current record of `uri`: its active owner, or, where no
/// frame owns it any more, the youngest frame that carried it.
pub open spec fn current_for_uri(m: StoreModel, i: int, uri: Seq<char>) -> bool {
    if uri_taken(m, uri) {
        owns_uri(m, i, uri)
    } else {
        has_uri(m, i, uri) && forall|j: int| i < j < m.frames.len() ==> !has_uri(m, j, uri)
    }
}

/// Some frame is the current record of `uri`.
pub open spec fn has_current(m: StoreModel, uri: Seq<char>) -> bool {
    exists|i: int| current_for_uri(m, i, uri)
}

/// The current record of `uri`, where there is one.
pub open spec fn current_of(m: StoreModel, uri: Seq<char>) -> int {
    choose|i: int| current_for_uri(m, i, uri)
}

/// The record that a lookup by URI returns.
pub open spec fn frame_by_uri_spec(m: StoreModel, uri: Seq<char>) -> Result<FrameView, ErrorKind> {
    if has_current(m, uri) {
        Ok(m.frames[current_of(m, uri)])
    } else {
        Err(ErrorKind::NotFound)
    }
}

/// The canonical bytes of the frame `id`, as far as they match its digest.
pub open spec fn canonical_payload_spec(m: StoreModel, id: u64) -> Result<Seq<u8>, ErrorKind> {
    if id >= m.frames.len() {
        Err(ErrorKind::NotFound)
    } else if digest(m.payloads[id as int]) != m.frames[id as int].checksum {
        Err(ErrorKind::CorruptFrame)
    } else {
        Ok(m.payloads[id as int])
    }
}

/// Frame `i` has the id `i`.
pub open spec fn ids_match(m: StoreModel) -> bool {
    forall|i: int| 0 <= i < m.frames.len() ==> (#[trigger] m.frames[i]).id == i
}

/// Sequence numbers start at one, never fall along the log, and none
/// exceeds that of the last write.
pub open spec fn seq_ordered(m: StoreModel) -> bool {
    &&& forall|i: int| 0 <= i < m.frames.len() ==> 1 <= (#[trigger] m.frames[i]).seq_no <= m.seq
    &&& forall|i: int, j: int|
        0 <= i <= j < m.frames.len() ==> (#[trigger] m.frames[i]).seq_no <= (
        #[trigger] m.frames[j]).seq_no
}

/// No URI has two active owners.
pub open spec fn uris_unique(m: StoreModel) -> bool {
    forall|i: int, j: int|
        is_active(m, i) && is_active(m, j) && i != j && (#[trigger] m.frames[i]).uri is Some ==> (
        #[trigger] m.frames[j]).uri != m.frames[i].uri
}

/// Every frame has its canonical bytes, of the length that it records.
pub open spec fn sizes_match(m: StoreModel) -> bool {
    &&& m.payloads.len() == m.frames.len()
    &&& forall|i: int|
        0 <= i < m.frames.len() ==> (#[trigger] m.frames[i]).payload_length == m.payloads[i].len()
}

/// The frame `i`, where it has a parent, is one of that document's chunks:
/// it follows the parent at its index, which is below the count that both
/// record, and owns no URI.
pub open spec fn chunk_shape(m: StoreModel, i: int) -> bool {
    let f = m.frames[i];
    match f.parent_id {
        None => f.chunk_index is None,
        Some(p) => {
            &&& p < i
            &&& m.frames[p as int].parent_id is None
            &&& f.role == FrameRole::DocumentChunk
            &&& f.uri is None
            &&& f.chunk_index is Some
            &&& f.chunk_count is Some
            &&& m.frames[p as int].chunk_count == f.chunk_count
            &&& f.chunk_index->0 < f.chunk_count->0
            &&& i == p + 1 + f.chunk_index->0
        },
    }
}

/// The frame `p`, where it is a document that records a chunk count, is
/// followed by that many chunks of its own.
pub open spec fn parent_shape(m: StoreModel, p: int) -> bool {
    let f = m.frames[p];
    f.parent_id is None && f.chunk_count is Some ==> {
        &&& p + f.chunk_count->0 < m.frames.len()
        &&& forall|k: int|
            0 <= k < f.chunk_count->0 ==> (#[trigger] m.frames[p + 1 + k]).parent_id == Some(
                p as u64,
            )
    }
}

/// The chunks of every document form the gapless range that it records.
pub open spec fn chunks_wf(m: StoreModel) -> bool {
    &&& forall|i: int| 0 <= i < m.frames.len() ==> #[trigger] chunk_shape(m, i)
    &&& forall|i: int| 0 <= i < m.frames.len() ==> #[trigger] parent_shape(m, i)
}

/// No frame gives a metadata key twice, and none carries an empty URI.
pub open spec fn metadata_wf(m: StoreModel) -> bool {
    forall|i: int|
        0 <= i < m.frames.len() ==> keys_distinct((#[trigger] m.frames[i]).extra_metadata)
            && m.frames[i].uri != Some(Seq::<char>::empty())
}

/// A frame is active until a write retires it: an active frame has no
/// retirement, every other frame has one, by a write later than the one
/// that made the frame and no later than the write `limit`.
pub open spec fn lifecycle_within(m: StoreModel, limit: int) -> bool {
    forall|i: int|
        0 <= i < m.frames.len() ==> match (#[trigger] m.frames[i]).retired {
            None => m.frames[i].status == FrameStatus::Active,
            Some(by) => m.frames[i].status != FrameStatus::Active && m.frames[i].seq_no < by.seq_no
                <= limit,
        }
}

/// What holds of a log whatever the state of its frames.
pub open spec fn core_wf(m: StoreModel) -> bool {
    &&& ids_match(m)
    &&& seq_ordered(m)
    &&& uris_unique(m)
    &&& sizes_match(m)
    &&& chunks_wf(m)
    &&& metadata_wf(m)
}

/// What holds of a log in the middle of a write: the write may have
/// retired frames already, under the sequence number that it will have.
pub open spec fn pending_wf(m: StoreModel) -> bool {
    core_wf(m) && lifecycle_within(m, m.seq + 1)
}

/// What holds of every log that the operations produce.
pub open spec fn model_wf(m: StoreModel) -> bool {
    core_wf(m) && lifecycle_within(m, m.seq as int)
}

/// A payload of at most `usize::MAX` bytes splits into chunks that lie
/// within it, none of them empty.
pub proof fn lemma_chunk_bounds(len: nat, k: int)
    requires
        0 <= k < chunk_total(len),
    ensures
        0 <= k * CHUNK_BYTES < chunk_end(len, k) <= len,
        chunk_end(len, k) - k * CHUNK_BYTES <= CHUNK_BYTES,
{
    let c = CHUNK_BYTES as int;
    assert(len == c * (len as int / c) + len as int % c) by (nonlinear_arith)
        requires
            c == 4096,
    ;
    assert(k * c < len && (k + 1) * c == k * c + c) by (nonlinear_arith)
        requires
            c == 4096,
            0 <= k,
            k < len as int / c + (if len as int % c == 0 {
                0int
            } else {
                1int
            }),
            len == c * (len as int / c) + len as int % c,
            0 <= len as int % c < c,
    ;
}

/// Retiring a frame leaves the log as well formed as a write in progress
/// can be, and touches nothing but the state of that frame.
pub proof fn lemma_retire_wf(m: StoreModel, id: int, to: FrameStatus, now: i64)
    requires
        model_wf(m),
        m.seq < u64::MAX,
        0 <= id < m.frames.len(),
        to != FrameStatus::Active,
    ensures
        pending_wf(retired(m, id, to, now)),
        forall|i: int|
            0 <= i < m.frames.len() ==> (#[trigger] retired(m, id, to, now).frames[i])
                == m.frames[i].at_stage(
                retired(m, id, to, now).frames[i].status,
                retired(m, id, to, now).frames[i].retired,
            ),
        forall|i: int| is_active(retired(m, id, to, now), i) ==> is_active(m, i) && i != id,
        forall|i: int|
            0 <= i < m.frames.len() && (i != id || !is_active(m, i)) ==> (#[trigger] retired(
                m,
                id,
                to,
                now,
            ).frames[i]) == m.frames[i],
{
    let r = retired(m, id, to, now);
    assert forall|i: int| 0 <= i < r.frames.len() implies #[trigger] chunk_shape(r, i) by {
        assert(chunk_shape(m, i));
    }
    assert forall|i: int| 0 <= i < r.frames.len() implies #[trigger] parent_shape(r, i) by {
        assert(parent_shape(m, i));
    }
    assert forall|i: int, j: int|
        is_active(r, i) && is_active(r, j) && i != j && (#[trigger] r.frames[i]).uri
            is Some implies (#[trigger] r.frames[j]).uri != r.frames[i].uri by {
        assert(m.frames[j].uri != m.frames[i].uri);
    }
}

/// Appending the frames of one write to a log in which no active frame owns
/// the URI of the new document keeps the log well formed.
pub proof fn lemma_append_wf(m: StoreModel, payload: Seq<u8>, o: PutOptionsView, now: i64)
    requires
        pending_wf(m),
        m.seq < u64::MAX,
        options_valid(o),
        o.uri is Some ==> !uri_taken(m, o.uri->0),
        m.frames.len() + 1 + chunk_total(payload.len()) <= u64::MAX,
        payload.len() <= u64::MAX,
    ensures
        model_wf(append(m, payload, o, now)),
{
    let a = append(m, payload, o, now);
    let n = m.frames.len() as int;
    let total = chunk_total(payload.len()) as int;
    let added = appended_frames(n as u64, (m.seq + 1) as u64, payload, o, now);
    assert(a.frames.len() == n + 1 + total);
    assert forall|i: int| 0 <= i < a.frames.len() implies (#[trigger] a.frames[i]).id == i by {
        if i >= n {
            assert(a.frames[i] == added[i - n]);
        }
    }
    assert forall|i: int| 0 <= i < a.frames.len() implies 1 <= (#[trigger] a.frames[i]).seq_no
        <= a.seq by {
        if i >= n {
            assert(a.frames[i] == added[i - n]);
        }
    }
    assert forall|i: int, j: int| 0 <= i <= j < a.frames.len() implies (#[trigger] a.frames[i]).seq_no
        <= (#[trigger] a.frames[j]).seq_no by {
        if j >= n {
            assert(a.frames[j] == added[j - n]);
        }
        if i >= n {
            assert(a.frames[i] == added[i - n]);
        }
    }
    assert forall|i: int, j: int|
        is_active(a, i) && is_active(a, j) && i != j && (#[trigger] a.frames[i]).uri is Some implies (
    #[trigger] a.frames[j]).uri != a.frames[i].uri by {
        if i >= n {
            assert(a.frames[i] == added[i - n]);
        }
        if j >= n {
            assert(a.frames[j] == added[j - n]);
        }
        if i < n && j < n {
            assert(m.frames[j].uri != m.frames[i].uri);
        } else if i < n {
            if j == n && o.uri is Some {
                assert(!owns_uri(m, i, o.uri->0));
            }
        } else if j < n {
            if i == n {
                assert(!owns_uri(m, j, o.uri->0));
            }
        }
    }
    assert forall|i: int| 0 <= i < a.frames.len() implies (#[trigger] a.frames[i]).payload_length
        == a.payloads[i].len() by {
        if i >= n {
            assert(a.frames[i] == added[i - n]);
            assert(a.payloads[i] == appended_payloads(payload)[i - n]);
            if i > n {
                lemma_chunk_bounds(payload.len(), i - n - 1);
            }
        }
    }
    assert forall|i: int| 0 <= i < a.frames.len() implies #[trigger] chunk_shape(a, i) by {
        if i < n {
            assert(chunk_shape(m, i));
        } else {
            assert(a.frames[i] == added[i - n]);
            assert(a.frames[n] == added[0]);
        }
    }
    assert forall|i: int| 0 <= i < a.frames.len() implies #[trigger] parent_shape(a, i) by {
        if i < n {
            assert(parent_shape(m, i));
        } else {
            assert(a.frames[i] == added[i - n]);
            if i == n {
                assert forall|k: int| 0 <= k < total implies (#[trigger] a.frames[n + 1 + k]).parent_id
                    == Some(n as u64) by {
                    assert(a.frames[n + 1 + k] == added[1 + k]);
                }
            }
        }
    }
    assert forall|i: int| 0 <= i < a.frames.len() implies match (#[trigger] a.frames[i]).retired {
        None => a.frames[i].status == FrameStatus::Active,
        Some(by) => a.frames[i].status != FrameStatus::Active && a.frames[i].seq_no < by.seq_no
            <= a.seq,
    } by {
        if i >= n {
            assert(a.frames[i] == added[i - n]);
        } else {
            assert(a.frames[i] == m.frames[i]);
        }
    }
    assert forall|i: int| 0 <= i < a.frames.len() implies keys_distinct(
        (#[trigger] a.frames[i]).extra_metadata,
    ) && a.frames[i].uri != Some(Seq::<char>::empty()) by {
        if i >= n {
            assert(a.frames[i] == added[i - n]);
        }
    }
}

/// The active owner of a URI is the only one.
pub proof fn lemma_owner_unique(m: StoreModel, uri: Seq<char>, i: int)
    requires
        model_wf(m),
        owns_uri(m, i, uri),
    ensures
        uri_taken(m, uri),
        uri_owner(m, uri) == i,
        forall|j: int| owns_uri(m, j, uri) ==> j == i,
{
    assert forall|j: int| owns_uri(m, j, uri) implies j == i by {
        if j != i {
            assert(m.frames[j].uri != m.frames[i].uri);
        }
    }
}

/// Once the owner of a URI is retired, nobody owns it.
pub proof fn lemma_retired_owner(
    m: StoreModel,
    uri: Seq<char>,
    i: int,
    to: FrameStatus,
    now: i64,
)
    requires
        model_wf(m),
        m.seq < u64::MAX,
        owns_uri(m, i, uri),
        to != FrameStatus::Active,
    ensures
        !uri_taken(retired(m, i, to, now), uri),
{
    lemma_owner_unique(m, uri, i);
    lemma_retire_wf(m, i, to, now);
    let r = retired(m, i, to, now);
    assert forall|j: int| !owns_uri(r, j, uri) by {
        if owns_uri(r, j, uri) {
            assert(is_active(m, j) && j != i);
            assert(r.frames[j] == m.frames[j].at_stage(r.frames[j].status, r.frames[j].retired));
            assert(owns_uri(m, j, uri));
        }
    }
}

/// The oldest duplicate of a payload is the only frame that is one.
pub proof fn lemma_first_duplicate_unique(m: StoreModel, payload: Seq<u8>, i: int)
    requires
        first_duplicate(m, i, payload),
    ensures
        has_duplicate(m, payload),
        duplicate_of(m, payload) == i,
{
    let j = duplicate_of(m, payload);
    assert(first_duplicate(m, j, payload));
    if j < i {
        assert(!duplicates(m, j, payload));
    } else if i < j {
        assert(!duplicates(m, i, payload));
    }
}

/// Every log that a put, an update or a delete makes of a well-formed log
/// is well formed, and its sequence number is the one returned, unless a
/// put found a duplicate and changed nothing.
pub proof fn lemma_put_wf(m: StoreModel, payload: Seq<u8>, o: PutOptionsView, now: i64)
    requires
        model_wf(m),
        m.seq < u64::MAX,
        put_spec(m, payload, o, now) is Ok,
        m.frames.len() + 1 + chunk_total(payload.len()) <= u64::MAX,
        payload.len() <= u64::MAX,
    ensures
        model_wf(put_spec(m, payload, o, now)->Ok_0.0),
{
    if o.dedup && has_duplicate(m, payload) {
    } else if o.uri is Some && uri_taken(m, o.uri->0) {
        let i = uri_owner(m, o.uri->0);
        lemma_retired_owner(m, o.uri->0, i, FrameStatus::Superseded, now);
        lemma_retire_wf(m, i, FrameStatus::Superseded, now);
        lemma_append_wf(retired(m, i, FrameStatus::Superseded, now), payload, o, now);
    } else {
        lemma_append_wf(m, payload, o, now);
    }
}

/// What an update appends is well formed.
pub proof fn lemma_update_wf(
    m: StoreModel,
    id: u64,
    new_payload: Option<Seq<u8>>,
    o: PutOptionsView,
    now: i64,
)
    requires
        model_wf(m),
        m.seq < u64::MAX,
        update_spec(m, id, new_payload, o, now) is Ok,
    ensures
        options_valid(merged_options(m.frames[id as int], new_payload is Some, o)),
        pending_wf(retired(m, id as int, FrameStatus::Superseded, now)),
        ({
            let merged = merged_options(m.frames[id as int], new_payload is Some, o);
            merged.uri is Some ==> !uri_taken(
                retired(m, id as int, FrameStatus::Superseded, now),
                merged.uri->0,
            )
        }),
{
    let merged = merged_options(m.frames[id as int], new_payload is Some, o);
    let r = retired(m, id as int, FrameStatus::Superseded, now);
    lemma_retire_wf(m, id as int, FrameStatus::Superseded, now);
    if merged.uri is Some {
        assert forall|j: int| !owns_uri(r, j, merged.uri->0) by {
            if owns_uri(r, j, merged.uri->0) {
                assert(is_active(m, j) && j != id);
                assert(r.frames[j] == m.frames[j].at_stage(r.frames[j].status, r.frames[j].retired));
                assert(owns_uri(m, j, merged.uri->0) && j != id);
            }
        }
    }
}

/// A URI has one current record at most.
pub proof fn lemma_current_unique(m: StoreModel, uri: Seq<char>, i: int)
    requires
        model_wf(m),
        current_for_uri(m, i, uri),
    ensures
        has_current(m, uri),
        current_of(m, uri) == i,
{
    let j = current_of(m, uri);
    assert(current_for_uri(m, j, uri));
    if uri_taken(m, uri) {
        lemma_owner_unique(m, uri, i);
    } else {
        if i < j {
            assert(!has_uri(m, j, uri));
        } else if j < i {
            assert(!has_uri(m, i, uri));
        }
    }
}

/// A URI that no frame carries has no current record.
pub proof fn lemma_no_current(m: StoreModel, uri: Seq<char>)
    requires
        forall|i: int| !has_uri(m, i, uri),
    ensures
        !has_current(m, uri),
{
    assert forall|i: int| !current_for_uri(m, i, uri) by {
        assert(!has_uri(m, i, uri));
        if uri_taken(m, uri) {
            assert(!owns_uri(m, i, uri));
        }
    }
}

} // verus!
