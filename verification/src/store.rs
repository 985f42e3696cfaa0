//! The frame store: an append-only log of frames with a commit boundary.

use crate::checksum::{checksum, digest};
use crate::encoding::utf8_text;
use crate::error::ErrorKind;
use crate::frame::{
    clone_frame, clone_metadata, opt_metadata, CanonicalEncoding, DocMetadata, Frame, FrameRole,
    FrameStatus, FrameView, Retirement,
};
use crate::model::{
    append, appended_frames, appended_payloads, canonical_payload_spec, chunk_bytes,
    chunk_shape, chunk_total, delete_spec, duplicates, empty_store, first_duplicate,
    frame_by_id_spec, frame_by_uri_spec, has_duplicate, has_uri, is_active, lemma_append_wf,
    lemma_chunk_bounds, lemma_current_unique, lemma_first_duplicate_unique, lemma_no_current,
    lemma_owner_unique, lemma_retire_wf, lemma_retired_owner, lemma_update_wf, merged_options,
    model_wf, owns_uri, parent_shape, pending_wf, put_spec, retired, update_spec, uri_taken,
    StoreModel, CHUNK_BYTES,
};
use crate::options::{options_valid, pairs_distinct, PutOptions};
use crate::text::{
    clone_bytes, clone_opt, clone_pairs, clone_texts, opt_is, opt_text, text_pairs, texts,
};
use vstd::prelude::*;
use vstd::slice::{slice_subrange, slice_to_vec};

verus! {

/// A store of frames. Writes go to the log at once and are seen by this
/// handle; `commit` makes them durable, `rollback` drops those that are not.
pub struct FrameStore {
    frames: Vec<Frame>,
    payloads: Vec<Vec<u8>>,
    seq: u64,
    durable_status: Vec<FrameStatus>,
    durable_seq: u64,
}

impl View for FrameStore {
    type V = StoreModel;

    /// The log as this handle sees it, pending writes included.
    closed spec fn view(&self) -> StoreModel {
        StoreModel {
            frames: Seq::new(self.frames.len() as nat, |i: int| self.frames[i]@),
            payloads: Seq::new(self.payloads.len() as nat, |i: int| self.payloads[i]@),
            seq: self.seq,
        }
    }
}

impl FrameStore {
    /// The log as of the last commit: what a reader that opens the container
    /// sees, and what is left after a crash.
    pub closed spec fn durable(&self) -> StoreModel {
        StoreModel {
            frames: Seq::new(
                self.durable_status.len() as nat,
                |i: int| as_committed(self.frames[i]@, self.durable_status[i]),
            ),
            payloads: Seq::new(self.durable_status.len() as nat, |i: int| self.payloads[i]@),
            seq: self.durable_seq,
        }
    }

    /// The store is well formed: both logs are, and the durable one is a
    /// prefix of the other but for the states of its frames.
    pub closed spec fn wf(&self) -> bool {
        &&& model_wf(self@)
        &&& self.steady()
    }

    /// What holds of the store between and within writes: the durable log
    /// is well formed and a prefix of the other, and a frame that had left
    /// the active state at the last commit has not come back.
    pub closed spec fn steady(&self) -> bool {
        &&& model_wf(self.durable())
        &&& self.durable_status.len() <= self.frames.len()
        &&& self.frames.len() == self.payloads.len()
        &&& self.durable_seq <= self.seq
        &&& forall|i: int|
            0 <= i < self.durable_status.len() && self.durable_status[i] != FrameStatus::Active
                ==> (#[trigger] self.frames[i]).status != FrameStatus::Active
    }

    /// The store in the middle of a write: as well formed as it can be
    /// while frames are retired under the sequence number to come.
    pub closed spec fn pending(&self) -> bool {
        &&& pending_wf(self@)
        &&& self.steady()
    }

    /// A well-formed store has well-formed logs, and what is durable is no
    /// longer than what the handle sees.
    pub proof fn lemma_wf(&self)
        requires
            self.wf(),
        ensures
            model_wf(self@),
            model_wf(self.durable()),
            self.durable().frames.len() <= self@.frames.len(),
            self.durable().seq <= self@.seq,
            self@.frames.len() <= usize::MAX,
    {
    }

    /// An empty store with nothing pending.
    pub fn new() -> (store: FrameStore)
        ensures
            store.wf(),
            store@ == empty_store(),
            store.durable() == empty_store(),
    {
        let store = FrameStore {
            frames: Vec::new(),
            payloads: Vec::new(),
            seq: 0,
            durable_status: Vec::new(),
            durable_seq: 0,
        };
        assert(store@ =~~= empty_store());
        assert(store.durable() =~~= empty_store());
        store
    }

    /// A store over a log that is known to be well formed, with nothing
    /// pending.
    pub(crate) fn assemble(frames: Vec<Frame>, payloads: Vec<Vec<u8>>, seq: u64) -> (store:
        FrameStore)
        requires
            model_wf(image(frames@, payloads@, seq)),
        ensures
            store.wf(),
            store@ == image(frames@, payloads@, seq),
            store.durable() == store@,
    {
        let mut status: Vec<FrameStatus> = Vec::new();
        let mut i: usize = 0;
        while i < frames.len()
            invariant
                i <= frames.len(),
                status.len() == i,
                forall|j: int| 0 <= j < i ==> status[j] == (#[trigger] frames[j]).status,
            decreases frames.len() - i,
        {
            status.push(frames[i].status);
            i = i + 1;
        }
        let ghost m = image(frames@, payloads@, seq);
        let store = FrameStore {
            frames,
            payloads,
            seq,
            durable_status: status,
            durable_seq: seq,
        };
        proof {
            assert(store@.frames =~= m.frames);
            assert(store@.payloads =~= m.payloads);
            assert(store@ =~~= m);
            assert forall|j: int| 0 <= j < m.frames.len() implies store.durable().frames[j]
                == m.frames[j] by {
                assert(m.frames[j] == store.frames[j]@);
                assert(as_committed(store.frames[j]@, store.frames[j].status) == store.frames[j]@);
            }
            assert(store.durable().frames =~= m.frames);
            assert(store.durable().payloads =~= m.payloads);
            assert(store.durable() =~~= m);
        }
        store
    }

    /// A copy of the frames and of their canonical bytes as of the last
    /// commit, and the sequence number of that commit: what is written to
    /// the container.
    pub fn snapshot(&self) -> (parts: (Vec<Frame>, Vec<Vec<u8>>, u64))
        requires
            self.wf(),
        ensures
            image(parts.0@, parts.1@, parts.2) == self.durable(),
    {
        let mut frames: Vec<Frame> = Vec::new();
        let mut payloads: Vec<Vec<u8>> = Vec::new();
        let mut i: usize = 0;
        while i < self.durable_status.len()
            invariant
                self.wf(),
                i <= self.durable_status.len(),
                frames.len() == i,
                payloads.len() == i,
                forall|j: int| 0 <= j < i ==> (#[trigger] frames[j])@ == self.durable().frames[j],
                forall|j: int|
                    0 <= j < i ==> (#[trigger] payloads[j])@ == self.durable().payloads[j],
            decreases self.durable_status.len() - i,
        {
            let mut f: Frame = clone_frame(&self.frames[i]);
            let status: FrameStatus = self.durable_status[i];
            f.status = status;
            if status == FrameStatus::Active {
                f.retired = None;
            }
            frames.push(f);
            payloads.push(clone_bytes(&self.payloads[i]));
            i = i + 1;
        }
        proof {
            let got = image(frames@, payloads@, self.durable_seq);
            assert(got.frames =~= self.durable().frames);
            assert(got.payloads =~= self.durable().payloads);
            assert(got =~~= self.durable());
        }
        (frames, payloads, self.durable_seq)
    }

    /// The number of frames in the log.
    pub fn frame_count(&self) -> (n: usize)
        ensures
            n == self@.frames.len(),
    {
        self.frames.len()
    }

    /// The sequence number of the last write.
    pub fn last_seq(&self) -> (s: u64)
        ensures
            s == self@.seq,
    {
        self.seq
    }

    /// Whether another write can be numbered.
    pub fn has_room(&self) -> (b: bool)
        ensures
            b == (self@.seq < u64::MAX),
    {
        self.seq < u64::MAX
    }

    /// The frame at position `i` of the log.
    pub(crate) fn frame_at(&self, i: usize) -> (f: &Frame)
        requires
            i < self@.frames.len(),
        ensures
            f@ == self@.frames[i as int],
    {
        &self.frames[i]
    }

    /// The canonical bytes of the frame at position `i` of the log, unchecked.
    pub(crate) fn payload_at(&self, i: usize) -> (p: &Vec<u8>)
        requires
            self.wf(),
            i < self@.frames.len(),
        ensures
            i < self@.payloads.len(),
            p@ == self@.payloads[i as int],
    {
        &self.payloads[i]
    }

    /// The record of the frame `id`, whatever its state.
    pub fn frame_by_id(&self, id: u64) -> (r: Result<Frame, ErrorKind>)
        ensures
            match frame_by_id_spec(self@, id) {
                Ok(f) => r is Ok && r->Ok_0@ == f,
                Err(e) => r == Err::<Frame, ErrorKind>(e),
            },
    {
        if id < self.frames.len() as u64 {
            Ok(clone_frame(&self.frames[id as usize]))
        } else {
            Err(ErrorKind::NotFound)
        }
    }

    /// The position of the active frame that owns `uri`.
    fn find_owner(&self, uri: &str) -> (r: Option<usize>)
        ensures
            match r {
                Some(i) => owns_uri(self@, i as int, uri@),
                None => !uri_taken(self@, uri@),
            },
    {
        let mut i: usize = 0;
        while i < self.frames.len()
            invariant
                i <= self.frames.len(),
                forall|j: int| 0 <= j < i ==> !owns_uri(self@, j, uri@),
            decreases self.frames.len() - i,
        {
            let f = &self.frames[i];
            if f.status == FrameStatus::Active && opt_is(&f.uri, uri) {
                return Some(i);
            }
            i = i + 1;
        }
        None
    }

    /// The position of the youngest frame that carries `uri`.
    fn find_last_with_uri(&self, uri: &str) -> (r: Option<usize>)
        ensures
            match r {
                Some(i) => has_uri(self@, i as int, uri@) && forall|j: int|
                    i < j < self@.frames.len() ==> !has_uri(self@, j, uri@),
                None => forall|j: int| !has_uri(self@, j, uri@),
            },
    {
        let mut i: usize = self.frames.len();
        while i > 0
            invariant
                i <= self.frames.len(),
                forall|j: int| i <= j < self.frames.len() ==> !has_uri(self@, j, uri@),
            decreases i,
        {
            i = i - 1;
            if opt_is(&self.frames[i].uri, uri) {
                return Some(i);
            }
        }
        None
    }

    /// The current record of `uri`: its active owner, or, where no frame
    /// owns it any more, the youngest frame that carried it.
    pub fn frame_by_uri(&self, uri: &str) -> (r: Result<Frame, ErrorKind>)
        requires
            self.wf(),
        ensures
            match frame_by_uri_spec(self@, uri@) {
                Ok(f) => r is Ok && r->Ok_0@ == f,
                Err(e) => r == Err::<Frame, ErrorKind>(e),
            },
    {
        match self.find_owner(uri) {
            Some(i) => {
                proof {
                    lemma_current_unique(self@, uri@, i as int);
                }
                Ok(clone_frame(&self.frames[i]))
            },
            None => match self.find_last_with_uri(uri) {
                Some(i) => {
                    proof {
                        lemma_current_unique(self@, uri@, i as int);
                    }
                    Ok(clone_frame(&self.frames[i]))
                },
                None => {
                    proof {
                        lemma_no_current(self@, uri@);
                    }
                    Err(ErrorKind::NotFound)
                },
            },
        }
    }

    /// The canonical bytes of the frame `id`, checked against its digest.
    pub fn frame_canonical_payload(&self, id: u64) -> (r: Result<Vec<u8>, ErrorKind>)
        requires
            self.wf(),
        ensures
            match canonical_payload_spec(self@, id) {
                Ok(bytes) => r is Ok && r->Ok_0@ == bytes,
                Err(e) => r == Err::<Vec<u8>, ErrorKind>(e),
            },
    {
        if id >= self.frames.len() as u64 {
            return Err(ErrorKind::NotFound);
        }
        let i: usize = id as usize;
        let bytes: &Vec<u8> = &self.payloads[i];
        if checksum(bytes.as_slice()) != self.frames[i].checksum {
            return Err(ErrorKind::CorruptFrame);
        }
        Ok(clone_bytes(bytes))
    }

    /// The position of the oldest active document with the digest `sum`.
    fn find_duplicate(&self, sum: u64, Ghost(payload): Ghost<Seq<u8>>) -> (r: Option<usize>)
        requires
            sum == digest(payload),
        ensures
            match r {
                Some(i) => first_duplicate(self@, i as int, payload),
                None => !has_duplicate(self@, payload),
            },
    {
        let mut i: usize = 0;
        while i < self.frames.len()
            invariant
                i <= self.frames.len(),
                sum == digest(payload),
                forall|j: int| 0 <= j < i ==> !duplicates(self@, j, payload),
            decreases self.frames.len() - i,
        {
            let f = &self.frames[i];
            if f.status == FrameStatus::Active && f.parent_id.is_none() && f.checksum == sum {
                return Some(i);
            }
            i = i + 1;
        }
        None
    }

    /// Moves the frame at `id`, if it is active, to the final state `to`, on
    /// behalf of the next write, at the time `now`.
    fn retire_frame(&mut self, id: usize, to: FrameStatus, now: i64)
        requires
            old(self).wf(),
            old(self)@.seq < u64::MAX,
            id < old(self)@.frames.len(),
            to != FrameStatus::Active,
        ensures
            final(self).pending(),
            final(self)@ == retired(old(self)@, id as int, to, now),
            final(self).durable() == old(self).durable(),
    {
        let ghost m0 = self@;
        let ghost d0 = self.durable();
        let by = Retirement { seq_no: self.seq + 1, timestamp: now };
        if self.frames[id].status == FrameStatus::Active {
            self.frames[id].status = to;
            self.frames[id].retired = Some(by);
        }
        proof {
            let r = retired(m0, id as int, to, now);
            assert(self@.frames =~= r.frames);
            assert(self@.payloads =~= r.payloads);
            assert(self@ =~~= r);
            lemma_retire_wf(m0, id as int, to, now);
            assert forall|j: int| 0 <= j < d0.frames.len() implies self.durable().frames[j]
                == d0.frames[j] by {
                assert(self@.frames[j] == self.frames[j]@);
                assert(m0.frames[j] == old(self).frames[j]@);
                if old(self).durable_status[j] != FrameStatus::Active {
                    assert(!is_active(m0, j));
                    assert(r.frames[j] == m0.frames[j]);
                }
            }
            assert(self.durable().frames =~= d0.frames);
            assert(self.durable().payloads =~= d0.payloads);
            assert(self.durable() =~~= d0);
        }
    }

    /// Whether the options are well formed.
    pub fn options_ok(options: &PutOptions) -> (ok: bool)
        ensures
            ok == options_valid(options@),
    {
        let uri_ok: bool = match &options.uri {
            Some(u) => !u.as_str().is_empty(),
            None => true,
        };
        if !uri_ok {
            assert(options@.uri->0 =~= Seq::<char>::empty());
            return false;
        }
        pairs_distinct(&options.extra_metadata)
    }

    /// The number of chunks that a payload of `len` bytes is written in.
    fn chunks_for(len: usize) -> (n: usize)
        ensures
            n == chunk_total(len as nat),
    {
        if len <= CHUNK_BYTES {
            return 0;
        }
        let whole: usize = len / CHUNK_BYTES;
        let pieces: u64 = whole as u64 + if len % CHUNK_BYTES == 0 {
            0
        } else {
            1
        };
        if pieces <= u32::MAX as u64 {
            pieces as usize
        } else {
            0
        }
    }

    /// Appends the document that a write makes of `payload`, and its chunks.
    fn append_frames(&mut self, payload: &[u8], options: PutOptions, now: i64)
        requires
            old(self).pending(),
            old(self)@.seq < u64::MAX,
            options_valid(options@),
            options@.uri is Some ==> !uri_taken(old(self)@, options@.uri->0),
        ensures
            final(self).wf(),
            final(self)@ == append(old(self)@, payload@, options@, now),
            final(self).durable() == old(self).durable(),
    {
        let ghost m0 = self@;
        let ghost d0 = self.durable();
        let ghost o = options@;
        let id: u64 = self.frames.len() as u64;
        let seq_no: u64 = self.seq + 1;
        let total: usize = Self::chunks_for(payload.len());
        let timestamp: i64 = match options.timestamp {
            Some(t) => t,
            None => now,
        };
        let search_text: Option<String> = match options.search_text {
            Some(t) => Some(t),
            None => utf8_text(payload),
        };
        let doc = Frame {
            id,
            seq_no,
            timestamp,
            role: FrameRole::Document,
            status: FrameStatus::Active,
            canonical_encoding: CanonicalEncoding::Plain,
            canonical_length: None,
            payload_length: payload.len() as u64,
            checksum: checksum(payload),
            uri: options.uri,
            title: options.title,
            kind: options.kind,
            track: options.track,
            tags: options.tags,
            labels: options.labels,
            extra_metadata: options.extra_metadata,
            content_dates: Vec::new(),
            parent_id: None,
            chunk_index: None,
            chunk_count: if total > 0 {
                Some(total as u32)
            } else {
                None
            },
            search_text,
            metadata: options.metadata,
            retired: None,
        };
        let ghost added = appended_frames(id, seq_no, payload@, o, now);
        let ghost bytes_added = appended_payloads(payload@);
        proof {
            assert(doc@.content_dates =~= Seq::<Seq<char>>::empty());
            assert(doc@ == added[0]);
        }
        self.frames.push(doc);
        self.payloads.push(slice_to_vec(payload));
        let mut k: usize = 0;
        while k < total
            invariant
                k <= total,
                total == chunk_total(payload@.len()),
                payload@.len() <= usize::MAX,
                id == m0.frames.len(),
                added == appended_frames(id, seq_no, payload@, o, now),
                bytes_added == appended_payloads(payload@),
                self.frames.len() == m0.frames.len() + 1 + k,
                self.payloads.len() == self.frames.len(),
                self.durable_status@ == old(self).durable_status@,
                self.durable_status.len() <= m0.frames.len(),
                self.seq == old(self).seq,
                self.durable_seq == old(self).durable_seq,
                timestamp == added[0].timestamp,
                forall|j: int| 0 <= j < m0.frames.len() ==> (#[trigger] self.frames[j])@ == m0.frames[j],
                forall|j: int|
                    0 <= j < m0.frames.len() ==> (#[trigger] self.payloads[j])@ == m0.payloads[j],
                forall|j: int|
                    m0.frames.len() <= j < self.frames.len() ==> (#[trigger] self.frames[j])@
                        == added[j - m0.frames.len()],
                forall|j: int|
                    m0.frames.len() <= j < self.frames.len() ==> (#[trigger] self.payloads[j])@
                        == bytes_added[j - m0.frames.len()],
            decreases total - k,
        {
            proof {
                lemma_chunk_bounds(payload@.len(), k as int);
                assert(k * CHUNK_BYTES == k * 4096);
            }
            let start: usize = k * CHUNK_BYTES;
            let end: usize = if payload.len() - start > CHUNK_BYTES {
                start + CHUNK_BYTES
            } else {
                payload.len()
            };
            let bytes: Vec<u8> = slice_to_vec(slice_subrange(payload, start, end));
            assert(bytes@ == chunk_bytes(payload@, k as int));
            let chunk = Frame {
                id: self.frames.len() as u64,
                seq_no,
                timestamp,
                role: FrameRole::DocumentChunk,
                status: FrameStatus::Active,
                canonical_encoding: CanonicalEncoding::Plain,
                canonical_length: None,
                payload_length: bytes.len() as u64,
                checksum: checksum(bytes.as_slice()),
                uri: None,
                title: None,
                kind: None,
                track: None,
                tags: Vec::new(),
                labels: Vec::new(),
                extra_metadata: Vec::new(),
                content_dates: Vec::new(),
                parent_id: Some(id),
                chunk_index: Some(k as u32),
                chunk_count: Some(total as u32),
                search_text: None,
                metadata: None,
                retired: None,
            };
            proof {
                assert(chunk@.tags =~= Seq::<Seq<char>>::empty());
                assert(chunk@.labels =~= Seq::<Seq<char>>::empty());
                assert(chunk@.content_dates =~= Seq::<Seq<char>>::empty());
                assert(chunk@.extra_metadata =~= Seq::<(Seq<char>, Seq<char>)>::empty());
                assert(chunk@ == added[1 + k as int]);
            }
            self.frames.push(chunk);
            self.payloads.push(bytes);
            k = k + 1;
        }
        self.seq = seq_no;
        proof {
            let a = append(m0, payload@, o, now);
            assert(self@.frames =~= a.frames);
            assert(self@.payloads =~= a.payloads);
            assert(self@ =~~= a);
            lemma_append_wf(m0, payload@, o, now);
            assert(self.durable().frames =~= d0.frames);
            assert(self.durable().payloads =~= d0.payloads);
            assert(self.durable() =~~= d0);
        }
    }

    /// Appends `payload` as a new active document and returns the sequence
    /// number of the write. See [`put_spec`] for each outcome.
    pub fn put(&mut self, payload: &[u8], options: PutOptions, now: i64) -> (r: Result<
        u64,
        ErrorKind,
    >)
        requires
            old(self).wf(),
            old(self)@.seq < u64::MAX,
        ensures
            final(self).wf(),
            final(self).durable() == old(self).durable(),
            match put_spec(old(self)@, payload@, options@, now) {
                Ok(next) => r == Ok::<u64, ErrorKind>(next.1) && final(self)@ == next.0,
                Err(e) => r == Err::<u64, ErrorKind>(e) && final(self)@ == old(self)@,
            },
    {
        let ghost m0 = self@;
        if !Self::options_ok(&options) {
            return Err(ErrorKind::InvalidOptions);
        }
        if options.dedup {
            let sum: u64 = checksum(payload);
            match self.find_duplicate(sum, Ghost(payload@)) {
                Some(i) => {
                    proof {
                        lemma_first_duplicate_unique(m0, payload@, i as int);
                    }
                    return Ok(self.frames[i].seq_no);
                },
                None => {},
            }
        }
        let owner: Option<usize> = match &options.uri {
            Some(u) => self.find_owner(u.as_str()),
            None => None,
        };
        match owner {
            Some(i) => {
                proof {
                    lemma_owner_unique(m0, options@.uri->0, i as int);
                }
                if !options.dedup {
                    return Err(ErrorKind::UriConflict);
                }
                proof {
                    lemma_retired_owner(m0, options@.uri->0, i as int, FrameStatus::Superseded, now);
                }
                self.retire_frame(i, FrameStatus::Superseded, now);
            },
            None => {},
        }
        self.append_frames(payload, options, now);
        Ok(self.seq)
    }

    /// Marks the frame `frame_id` deleted, at the time `now`, and returns the
    /// sequence number of the write. The bytes stay in the log, and no other
    /// frame changes.
    pub fn delete(&mut self, frame_id: u64, now: i64) -> (r: Result<u64, ErrorKind>)
        requires
            old(self).wf(),
            old(self)@.seq < u64::MAX,
        ensures
            final(self).wf(),
            final(self).durable() == old(self).durable(),
            match delete_spec(old(self)@, frame_id, now) {
                Ok(next) => r == Ok::<u64, ErrorKind>(next.1) && final(self)@ == next.0,
                Err(e) => r == Err::<u64, ErrorKind>(e) && final(self)@ == old(self)@,
            },
    {
        if frame_id >= self.frames.len() as u64 {
            return Err(ErrorKind::NotFound);
        }
        let id: usize = frame_id as usize;
        if self.frames[id].status != FrameStatus::Active {
            return Err(ErrorKind::NotFound);
        }
        self.retire_frame(id, FrameStatus::Deleted, now);
        let ghost d1 = self.durable();
        let ghost m1 = self@;
        self.seq = self.seq + 1;
        proof {
            assert(self@.frames =~= m1.frames);
            assert(self@.payloads =~= m1.payloads);
            assert(self@ =~~= StoreModel { seq: self.seq, ..m1 });
            assert(self.durable().frames =~= d1.frames);
            assert(self.durable().payloads =~= d1.payloads);
            assert(self.durable() =~~= d1);
            assert forall|i: int| 0 <= i < self@.frames.len() implies #[trigger] chunk_shape(
                self@,
                i,
            ) by {
                assert(chunk_shape(m1, i));
            }
            assert forall|i: int| 0 <= i < self@.frames.len() implies #[trigger] parent_shape(
                self@,
                i,
            ) by {
                assert(parent_shape(m1, i));
            }
        }
        Ok(self.seq)
    }

    /// Makes every pending write durable, all at once.
    pub fn commit(&mut self)
        requires
            old(self).wf(),
        ensures
            final(self).wf(),
            final(self)@ == old(self)@,
            final(self).durable() == old(self)@,
    {
        let mut status: Vec<FrameStatus> = Vec::new();
        let mut i: usize = 0;
        while i < self.frames.len()
            invariant
                i <= self.frames.len(),
                status.len() == i,
                forall|j: int| 0 <= j < i ==> status[j] == (#[trigger] self.frames[j]).status,
            decreases self.frames.len() - i,
        {
            status.push(self.frames[i].status);
            i = i + 1;
        }
        let ghost m0 = self@;
        self.durable_status = status;
        self.durable_seq = self.seq;
        proof {
            assert(self@.frames =~= m0.frames);
            assert(self@.payloads =~= m0.payloads);
            assert(self@ =~~= m0);
            assert forall|j: int| 0 <= j < m0.frames.len() implies self.durable().frames[j]
                == m0.frames[j] by {
                assert(m0.frames[j] == self.frames[j]@);
                assert(as_committed(self.frames[j]@, self.frames[j].status) == self.frames[j]@);
            }
            assert(self.durable().frames =~= m0.frames);
            assert(self.durable().payloads =~= m0.payloads);
            assert(self.durable() =~~= m0);
        }
    }

    /// Drops every write since the last commit, as a crash would.
    pub fn rollback(&mut self)
        requires
            old(self).wf(),
        ensures
            final(self).wf(),
            final(self)@ == old(self).durable(),
            final(self).durable() == old(self).durable(),
    {
        let ghost d0 = self.durable();
        let keep: usize = self.durable_status.len();
        self.frames.truncate(keep);
        self.payloads.truncate(keep);
        let mut i: usize = 0;
        while i < keep
            invariant
                i <= keep,
                keep == self.durable_status.len(),
                self.frames.len() == keep,
                self.payloads@ == old(self).payloads@.subrange(0, keep as int),
                self.durable_status@ == old(self).durable_status@,
                self.durable_seq == old(self).durable_seq,
                keep <= old(self).frames.len(),
                d0.frames.len() == keep,
                forall|j: int|
                    0 <= j < keep ==> (#[trigger] d0.frames[j]) == as_committed(
                        old(self).frames[j]@,
                        self.durable_status[j],
                    ),
                forall|j: int|
                    0 <= j < keep ==> (#[trigger] self.frames[j])@ == (if j < i {
                        d0.frames[j]
                    } else {
                        old(self).frames[j]@
                    }),
            decreases keep - i,
        {
            let status: FrameStatus = self.durable_status[i];
            self.frames[i].status = status;
            if status == FrameStatus::Active {
                self.frames[i].retired = None;
            }
            i = i + 1;
        }
        self.seq = self.durable_seq;
        proof {
            assert(self@.frames =~= d0.frames);
            assert(self@.payloads =~= d0.payloads);
            assert(self@ =~~= d0);
            assert forall|j: int| 0 <= j < keep implies self.durable().frames[j] == d0.frames[j] by {
                assert(self.frames[j]@ == d0.frames[j]);
                assert(as_committed(d0.frames[j], self.durable_status[j]) == d0.frames[j]);
            }
            assert(self.durable().frames =~= d0.frames);
            assert(self.durable().payloads =~= d0.payloads);
            assert(self.durable() =~~= d0);
        }
    }

    /// The options under which an update rewrites the frame at `id`.
    fn merge_options(&self, id: usize, replaces_payload: bool, options: PutOptions) -> (merged:
        PutOptions)
        requires
            id < self@.frames.len(),
        ensures
            merged@ == merged_options(self@.frames[id as int], replaces_payload, options@),
    {
        let old = &self.frames[id];
        let keep_text: bool = options.search_text.is_some() || replaces_payload;
        PutOptions {
            timestamp: options.timestamp,
            track: given_or(options.track, &old.track),
            kind: given_or(options.kind, &old.kind),
            uri: given_or(options.uri, &old.uri),
            title: given_or(options.title, &old.title),
            search_text: if keep_text {
                options.search_text
            } else {
                clone_opt(&old.search_text)
            },
            tags: filled_or(options.tags, &old.tags),
            labels: filled_or(options.labels, &old.labels),
            extra_metadata: pairs_or(options.extra_metadata, &old.extra_metadata),
            metadata: metadata_or(options.metadata, &old.metadata),
            enable_embedding: options.enable_embedding,
            auto_tag: options.auto_tag,
            extract_dates: options.extract_dates,
            extract_triplets: options.extract_triplets,
            no_raw: options.no_raw,
            source_path: options.source_path,
            dedup: options.dedup,
            instant_index: options.instant_index,
            extraction_budget_ms: options.extraction_budget_ms,
        }
    }

    /// Supersedes the active frame `frame_id` by a new document that carries
    /// the merged options and `payload`, or the old bytes where none is given,
    /// and returns the sequence number of the write.
    pub fn update(
        &mut self,
        frame_id: u64,
        payload: Option<Vec<u8>>,
        options: PutOptions,
        now: i64,
    ) -> (r: Result<u64, ErrorKind>)
        requires
            old(self).wf(),
            old(self)@.seq < u64::MAX,
        ensures
            final(self).wf(),
            final(self).durable() == old(self).durable(),
            match update_spec(old(self)@, frame_id, payload_view(payload), options@, now) {
                Ok(next) => r == Ok::<u64, ErrorKind>(next.1) && final(self)@ == next.0,
                Err(e) => r == Err::<u64, ErrorKind>(e) && final(self)@ == old(self)@,
            },
    {
        let ghost m0 = self@;
        if frame_id >= self.frames.len() as u64 {
            return Err(ErrorKind::NotFound);
        }
        let id: usize = frame_id as usize;
        if self.frames[id].status != FrameStatus::Active {
            return Err(ErrorKind::NotFound);
        }
        if !Self::options_ok(&options) {
            return Err(ErrorKind::InvalidOptions);
        }
        let merged: PutOptions = self.merge_options(id, payload.is_some(), options);
        let bytes: Vec<u8> = match payload {
            Some(p) => p,
            None => clone_bytes(&self.payloads[id]),
        };
        let owner: Option<usize> = match &merged.uri {
            Some(u) => self.find_owner(u.as_str()),
            None => None,
        };
        match owner {
            Some(i) => {
                proof {
                    lemma_owner_unique(m0, merged@.uri->0, i as int);
                }
                if i != id {
                    return Err(ErrorKind::UriConflict);
                }
            },
            None => {},
        }
        proof {
            lemma_update_wf(m0, frame_id, payload_view(payload), options@, now);
        }
        self.retire_frame(id, FrameStatus::Superseded, now);
        self.append_frames(bytes.as_slice(), merged, now);
        Ok(self.seq)
    }
}

/// The given text, or a copy of the inherited one where none is given.
fn given_or(given: Option<String>, inherited: &Option<String>) -> (r: Option<String>)
    ensures
        opt_text(r) == (if opt_text(given) is Some {
            opt_text(given)
        } else {
            opt_text(*inherited)
        }),
{
    match given {
        Some(t) => Some(t),
        None => clone_opt(inherited),
    }
}

/// The given list, or a copy of the inherited one where it is empty.
fn filled_or(given: Vec<String>, inherited: &Vec<String>) -> (r: Vec<String>)
    ensures
        texts(r@) == (if texts(given@).len() > 0 {
            texts(given@)
        } else {
            texts(inherited@)
        }),
{
    if given.len() > 0 {
        given
    } else {
        clone_texts(inherited)
    }
}

/// The given pairs, or a copy of the inherited ones where there are none.
fn pairs_or(given: Vec<(String, String)>, inherited: &Vec<(String, String)>) -> (r: Vec<
    (String, String),
>)
    ensures
        text_pairs(r@) == (if text_pairs(given@).len() > 0 {
            text_pairs(given@)
        } else {
            text_pairs(inherited@)
        }),
{
    if given.len() > 0 {
        given
    } else {
        clone_pairs(inherited)
    }
}

/// The given metadata, or a copy of the inherited one where none is given.
fn metadata_or(given: Option<DocMetadata>, inherited: &Option<DocMetadata>) -> (r: Option<
    DocMetadata,
>)
    ensures
        opt_metadata(r) == (if opt_metadata(given) is Some {
            opt_metadata(given)
        } else {
            opt_metadata(*inherited)
        }),
{
    match given {
        Some(t) => Some(t),
        None => clone_metadata(inherited),
    }
}

/// The record as it was at the last commit, at which it had the state
/// `status`: a frame that was active then had not been retired yet; a
/// frame that was not has not changed since.
pub open spec fn as_committed(f: FrameView, status: FrameStatus) -> FrameView {
    if status == FrameStatus::Active {
        f.at_stage(FrameStatus::Active, None)
    } else {
        f.at_stage(status, f.retired)
    }
}

/// The log that a list of frames and their canonical bytes make up.
pub open spec fn image(frames: Seq<Frame>, payloads: Seq<Vec<u8>>, seq: u64) -> StoreModel {
    StoreModel {
        frames: Seq::new(frames.len(), |i: int| frames[i]@),
        payloads: Seq::new(payloads.len(), |i: int| payloads[i]@),
        seq,
    }
}

/// The bytes of an optional payload.
pub open spec fn payload_view(payload: Option<Vec<u8>>) -> Option<Seq<u8>> {
    match payload {
        Some(p) => Some(p@),
        None => None,
    }
}

} // verus!
