//! Opening a container: the frames that were read are checked before a
//! store is made of them.

use crate::error::ErrorKind;
use crate::frame::{Frame, FrameRole, FrameStatus};
use crate::model::{
    chunk_shape, chunks_wf, ids_match, is_active, lifecycle_within, metadata_wf, model_wf,
    parent_shape, seq_ordered, sizes_match, uris_unique, StoreModel,
};
use crate::options::{keys_distinct, pairs_distinct};
use crate::store::{image, FrameStore};
use crate::text::str_eq;
use vstd::prelude::*;

verus! {

/// Whether frame `i` has the id `i`.
fn ids_ok(frames: &Vec<Frame>, Ghost(m): Ghost<StoreModel>) -> (ok: bool)
    requires
        m.frames == Seq::new(frames.len() as nat, |i: int| frames[i]@),
    ensures
        ok == ids_match(m),
{
    let mut i: usize = 0;
    while i < frames.len()
        invariant
            i <= frames.len(),
            m.frames == Seq::new(frames.len() as nat, |i: int| frames[i]@),
            forall|j: int| 0 <= j < i ==> (#[trigger] m.frames[j]).id == j,
        decreases frames.len() - i,
    {
        if frames[i].id != i as u64 {
            assert(m.frames[i as int].id != i);
            return false;
        }
        i = i + 1;
    }
    true
}

/// Whether the sequence numbers start at one, never fall, and stay within
/// that of the last write.
fn seqs_ok(frames: &Vec<Frame>, seq: u64, Ghost(m): Ghost<StoreModel>) -> (ok: bool)
    requires
        m.frames == Seq::new(frames.len() as nat, |i: int| frames[i]@),
        m.seq == seq,
    ensures
        ok == seq_ordered(m),
{
    let mut i: usize = 0;
    while i < frames.len()
        invariant
            i <= frames.len(),
            m.frames == Seq::new(frames.len() as nat, |i: int| frames[i]@),
            m.seq == seq,
            forall|j: int| 0 <= j < i ==> 1 <= (#[trigger] m.frames[j]).seq_no <= seq,
            forall|a: int, b: int|
                0 <= a <= b < i ==> (#[trigger] m.frames[a]).seq_no <= (#[trigger] m.frames[b]).seq_no,
        decreases frames.len() - i,
    {
        let s: u64 = frames[i].seq_no;
        if s < 1 || s > seq {
            assert(!(1 <= m.frames[i as int].seq_no <= m.seq));
            return false;
        }
        if i > 0 && frames[i - 1].seq_no > s {
            assert(m.frames[i - 1].seq_no > m.frames[i as int].seq_no);
            return false;
        }
        proof {
            assert forall|a: int, b: int| 0 <= a <= b < i + 1 implies (#[trigger] m.frames[a]).seq_no
                <= (#[trigger] m.frames[b]).seq_no by {
                if b == i && a < i {
                    assert(m.frames[a].seq_no <= m.frames[i - 1].seq_no);
                }
            }
        }
        i = i + 1;
    }
    true
}

/// Whether every frame has its bytes, of the length that it records.
fn sizes_ok(frames: &Vec<Frame>, payloads: &Vec<Vec<u8>>, Ghost(m): Ghost<StoreModel>) -> (ok: bool)
    requires
        m.frames == Seq::new(frames.len() as nat, |i: int| frames[i]@),
        m.payloads == Seq::new(payloads.len() as nat, |i: int| payloads[i]@),
    ensures
        ok == sizes_match(m),
{
    if frames.len() != payloads.len() {
        return false;
    }
    let mut i: usize = 0;
    while i < frames.len()
        invariant
            i <= frames.len(),
            frames.len() == payloads.len(),
            m.frames == Seq::new(frames.len() as nat, |i: int| frames[i]@),
            m.payloads == Seq::new(payloads.len() as nat, |i: int| payloads[i]@),
            forall|j: int|
                0 <= j < i ==> (#[trigger] m.frames[j]).payload_length == m.payloads[j].len(),
        decreases frames.len() - i,
    {
        if frames[i].payload_length != payloads[i].len() as u64 {
            assert(m.frames[i as int].payload_length != m.payloads[i as int].len());
            return false;
        }
        i = i + 1;
    }
    true
}

/// Whether two frames are active owners of one URI.
fn share_uri(a: &Frame, b: &Frame) -> (shared: bool)
    ensures
        shared == (a@.status == FrameStatus::Active && b@.status == FrameStatus::Active
            && a@.uri is Some && b@.uri == a@.uri),
{
    if a.status != FrameStatus::Active || b.status != FrameStatus::Active {
        return false;
    }
    match (&a.uri, &b.uri) {
        (Some(x), Some(y)) => str_eq(x.as_str(), y.as_str()),
        _ => false,
    }
}

/// Whether no URI has two active owners.
fn uris_ok(frames: &Vec<Frame>, Ghost(m): Ghost<StoreModel>) -> (ok: bool)
    requires
        m.frames == Seq::new(frames.len() as nat, |i: int| frames[i]@),
    ensures
        ok == uris_unique(m),
{
    let mut j: usize = 0;
    while j < frames.len()
        invariant
            j <= frames.len(),
            m.frames == Seq::new(frames.len() as nat, |i: int| frames[i]@),
            forall|a: int, b: int|
                0 <= a < b < j && is_active(m, a) && is_active(m, b) && (#[trigger] m.frames[a]).uri
                    is Some ==> (#[trigger] m.frames[b]).uri != m.frames[a].uri,
        decreases frames.len() - j,
    {
        let mut i: usize = 0;
        while i < j
            invariant
                i <= j < frames.len(),
                m.frames == Seq::new(frames.len() as nat, |i: int| frames[i]@),
                forall|a: int|
                    0 <= a < i && is_active(m, a) && is_active(m, j as int) && (
                    #[trigger] m.frames[a]).uri is Some ==> m.frames[j as int].uri
                        != m.frames[a].uri,
            decreases j - i,
        {
            if share_uri(&frames[i], &frames[j]) {
                assert(is_active(m, i as int) && is_active(m, j as int));
                assert(m.frames[i as int].uri is Some);
                assert(m.frames[j as int].uri == m.frames[i as int].uri);
                return false;
            }
            i = i + 1;
        }
        j = j + 1;
    }
    proof {
        assert forall|a: int, b: int|
            is_active(m, a) && is_active(m, b) && a != b && (#[trigger] m.frames[a]).uri
                is Some implies (#[trigger] m.frames[b]).uri != m.frames[a].uri by {
            if b < a {
                if m.frames[b].uri is Some {
                    assert(m.frames[a].uri != m.frames[b].uri);
                }
            }
        }
    }
    true
}

/// Whether the frame at `i` has the shape of a chunk, where it has a parent.
fn chunk_ok(frames: &Vec<Frame>, i: usize, Ghost(m): Ghost<StoreModel>) -> (ok: bool)
    requires
        i < frames.len(),
        m.frames == Seq::new(frames.len() as nat, |i: int| frames[i]@),
    ensures
        ok == chunk_shape(m, i as int),
{
    let f: &Frame = &frames[i];
    assert(m.frames[i as int] == f@);
    match f.parent_id {
        None => f.chunk_index.is_none(),
        Some(p) => {
            if p >= i as u64 {
                return false;
            }
            let parent: &Frame = &frames[p as usize];
            assert(m.frames[p as int] == parent@);
            if parent.parent_id.is_some() || f.role != FrameRole::DocumentChunk || f.uri.is_some() {
                return false;
            }
            match (f.chunk_index, f.chunk_count, parent.chunk_count) {
                (Some(index), Some(count), Some(total)) => {
                    count == total && index < count && i as u64 - p - 1 == index as u64
                },
                _ => false,
            }
        },
    }
}

/// Whether the frame at `p` is followed by the chunks that it counts.
fn parent_ok(frames: &Vec<Frame>, p: usize, Ghost(m): Ghost<StoreModel>) -> (ok: bool)
    requires
        p < frames.len(),
        m.frames == Seq::new(frames.len() as nat, |i: int| frames[i]@),
    ensures
        ok == parent_shape(m, p as int),
{
    let f: &Frame = &frames[p];
    assert(m.frames[p as int] == f@);
    if f.parent_id.is_some() {
        return true;
    }
    match f.chunk_count {
        None => true,
        Some(n) => {
            let room: usize = frames.len() - p;
            if n as u64 >= room as u64 {
                return false;
            }
            let mut k: usize = 0;
            while k < n as usize
                invariant
                    k <= n,
                    p + n < frames.len(),
                    m.frames == Seq::new(frames.len() as nat, |i: int| frames[i]@),
                    m.frames[p as int].parent_id is None,
                    m.frames[p as int].chunk_count == Some(n),
                    forall|j: int|
                        0 <= j < k ==> (#[trigger] m.frames[p + 1 + j]).parent_id == Some(p as u64),
                decreases n - k,
            {
                assert(m.frames[p + 1 + k] == frames[p + 1 + k]@);
                if frames[p + 1 + k].parent_id != Some(p as u64) {
                    assert(m.frames[p + 1 + k].parent_id != Some(p as u64));
                    return false;
                }
                k = k + 1;
            }
            true
        },
    }
}

/// Whether the chunks of every document form the range that it records.
fn chunks_ok(frames: &Vec<Frame>, Ghost(m): Ghost<StoreModel>) -> (ok: bool)
    requires
        m.frames == Seq::new(frames.len() as nat, |i: int| frames[i]@),
    ensures
        ok == chunks_wf(m),
{
    let mut i: usize = 0;
    while i < frames.len()
        invariant
            i <= frames.len(),
            m.frames == Seq::new(frames.len() as nat, |i: int| frames[i]@),
            forall|j: int| 0 <= j < i ==> #[trigger] chunk_shape(m, j),
            forall|j: int| 0 <= j < i ==> #[trigger] parent_shape(m, j),
        decreases frames.len() - i,
    {
        if !chunk_ok(frames, i, Ghost(m)) || !parent_ok(frames, i, Ghost(m)) {
            return false;
        }
        i = i + 1;
    }
    true
}

/// Whether no frame gives a metadata key twice or carries an empty URI.
fn metadata_ok(frames: &Vec<Frame>, Ghost(m): Ghost<StoreModel>) -> (ok: bool)
    requires
        m.frames == Seq::new(frames.len() as nat, |i: int| frames[i]@),
    ensures
        ok == metadata_wf(m),
{
    let mut i: usize = 0;
    while i < frames.len()
        invariant
            i <= frames.len(),
            m.frames == Seq::new(frames.len() as nat, |i: int| frames[i]@),
            forall|j: int|
                0 <= j < i ==> keys_distinct((#[trigger] m.frames[j]).extra_metadata)
                    && m.frames[j].uri != Some(Seq::<char>::empty()),
        decreases frames.len() - i,
    {
        assert(m.frames[i as int] == frames[i as int]@);
        let blank: bool = match &frames[i].uri {
            Some(u) => u.as_str().is_empty(),
            None => false,
        };
        if blank {
            assert(m.frames[i as int].uri->0 =~= Seq::<char>::empty());
            return false;
        }
        if !pairs_distinct(&frames[i].extra_metadata) {
            return false;
        }
        i = i + 1;
    }
    true
}

/// Whether every frame is active or was retired by a write later than
/// the one that made it and no later than the last.
fn lifecycle_ok(frames: &Vec<Frame>, seq: u64, Ghost(m): Ghost<StoreModel>) -> (ok: bool)
    requires
        m.frames == Seq::new(frames.len() as nat, |i: int| frames[i]@),
        m.seq == seq,
    ensures
        ok == lifecycle_within(m, seq as int),
{
    let mut i: usize = 0;
    while i < frames.len()
        invariant
            i <= frames.len(),
            m.frames == Seq::new(frames.len() as nat, |i: int| frames[i]@),
            forall|j: int|
                0 <= j < i ==> match (#[trigger] m.frames[j]).retired {
                    None => m.frames[j].status == FrameStatus::Active,
                    Some(by) => m.frames[j].status != FrameStatus::Active && m.frames[j].seq_no
                        < by.seq_no <= seq,
                },
        decreases frames.len() - i,
    {
        assert(m.frames[i as int] == frames[i as int]@);
        let sound: bool = match frames[i].retired {
            None => frames[i].status == FrameStatus::Active,
            Some(by) => frames[i].status != FrameStatus::Active && frames[i].seq_no < by.seq_no
                && by.seq_no <= seq,
        };
        if !sound {
            return false;
        }
        i = i + 1;
    }
    true
}

impl FrameStore {
    /// Makes a store of the frames and canonical bytes of a container, with
    /// nothing pending. A log that is not well formed is refused as corrupt.
    /// Digests are not checked here: each is checked when its payload is read.
    pub fn restore(frames: Vec<Frame>, payloads: Vec<Vec<u8>>, seq: u64) -> (r: Result<
        FrameStore,
        ErrorKind,
    >)
        ensures
            match r {
                Ok(store) => {
                    &&& model_wf(image(frames@, payloads@, seq))
                    &&& store.wf()
                    &&& store@ == image(frames@, payloads@, seq)
                    &&& store.durable() == store@
                },
                Err(e) => e == ErrorKind::CorruptFrame && !model_wf(image(frames@, payloads@, seq)),
            },
    {
        let ghost m = image(frames@, payloads@, seq);
        let sound: bool = ids_ok(&frames, Ghost(m)) && seqs_ok(&frames, seq, Ghost(m)) && uris_ok(
            &frames,
            Ghost(m),
        ) && sizes_ok(&frames, &payloads, Ghost(m)) && chunks_ok(&frames, Ghost(m)) && metadata_ok(
            &frames,
            Ghost(m),
        ) && lifecycle_ok(&frames, seq, Ghost(m));
        if sound {
            Ok(FrameStore::assemble(frames, payloads, seq))
        } else {
            Err(ErrorKind::CorruptFrame)
        }
    }
}

} // verus!
