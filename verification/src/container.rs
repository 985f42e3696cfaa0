//! The layout of the container: a header, then each frame with its
//! canonical bytes, as cells; and behind the cells the digest of all that
//! is written before it, which marks a write that was completed.

use crate::checksum::{checksum, digest};
use crate::codec::{
    cell_views, cells_bytes, cells_from, le_bytes, le_value, lemma_cells_round_trip, lemma_le_len,
    lemma_le_round_trip, push_le, read_cells, read_le, writable, write_cells, Cell, CellView,
};
use crate::encoding::utf8_text;
use crate::error::ErrorKind;
use crate::frame::{
    opt_metadata, CanonicalEncoding, DocMetadata, DocMetadataView, Frame, FrameRole, FrameStatus,
    FrameView, Retirement,
};
use crate::model::{model_wf, StoreModel};
use crate::store::{image, FrameStore};
use crate::text::{opt_text, text_pairs, texts};
use vstd::prelude::*;
use vstd::string::StrSliceExecFns;
use vstd::utf8::{decode_utf8, encode_utf8, valid_utf8};

verus! {

/// The number that a container begins with.
pub const MAGIC: u64 = 0x0a32_564d_4d45_4d89;

/// The version of the layout.
pub const VERSION: u64 = 1;

/// The number of cells of a frame before its lists.
pub const FIXED_CELLS: usize = 29;

/// The number at `at`, where a number stands there.
pub open spec fn num_at(cells: Seq<CellView>, at: int) -> Option<u64> {
    if 0 <= at < cells.len() && cells[at] is Num {
        Some(cells[at]->Num_0)
    } else {
        None
    }
}

/// The bytes at `at`, where bytes stand there.
pub open spec fn bytes_at(cells: Seq<CellView>, at: int) -> Option<Seq<u8>> {
    if 0 <= at < cells.len() && cells[at] is Bytes {
        Some(cells[at]->Bytes_0)
    } else {
        None
    }
}

/// The text at `at`, where bytes stand there that are UTF-8.
pub open spec fn text_at(cells: Seq<CellView>, at: int) -> Option<Seq<char>> {
    match bytes_at(cells, at) {
        Some(b) => if valid_utf8(b) {
            Some(decode_utf8(b))
        } else {
            None
        },
        None => None,
    }
}

/// The optional number at `at`: a flag, then the value, which counts only
/// where the flag is set.
pub open spec fn opt_num_at(cells: Seq<CellView>, at: int) -> Option<Option<u64>> {
    match (num_at(cells, at), num_at(cells, at + 1)) {
        (Some(flag), Some(value)) => if flag == 0 {
            Some(None)
        } else if flag == 1 {
            Some(Some(value))
        } else {
            None
        },
        _ => None,
    }
}

/// The optional text at `at`: a flag, then the text, which counts only
/// where the flag is set.
pub open spec fn opt_text_at(cells: Seq<CellView>, at: int) -> Option<Option<Seq<char>>> {
    match (num_at(cells, at), text_at(cells, at + 1)) {
        (Some(flag), Some(text)) => if flag == 0 {
            Some(None)
        } else if flag == 1 {
            Some(Some(text))
        } else {
            None
        },
        _ => None,
    }
}

/// The list of texts at `at`: their number, then each of them; and where
/// the list ends.
pub open spec fn texts_at(cells: Seq<CellView>, at: int) -> Option<(Seq<Seq<char>>, int)> {
    match num_at(cells, at) {
        None => None,
        Some(n) => if at + 1 + n <= cells.len() && forall|j: int|
            at + 1 <= j < at + 1 + n ==> #[trigger] text_at(cells, j) is Some {
            Some((Seq::new(n as nat, |i: int| text_at(cells, at + 1 + i)->0), at + 1 + n))
        } else {
            None
        },
    }
}

/// The list of pairs of texts at `at`: their number, then the key and the
/// value of each; and where the list ends.
pub open spec fn pairs_at(cells: Seq<CellView>, at: int) -> Option<
    (Seq<(Seq<char>, Seq<char>)>, int),
> {
    match num_at(cells, at) {
        None => None,
        Some(n) => if at + 1 + 2 * n <= cells.len() && forall|j: int|
            at + 1 <= j < at + 1 + 2 * n ==> #[trigger] text_at(cells, j) is Some {
            Some(
                (
                    Seq::new(
                        n as nat,
                        |i: int|
                            (
                                text_at(cells, at + 1 + 2 * i)->0,
                                text_at(cells, at + 2 + 2 * i)->0,
                            ),
                    ),
                    at + 1 + 2 * n,
                ),
            )
        } else {
            None
        },
    }
}

/// The flag of an optional value: one where there is a value, else zero.
pub open spec fn flag_cell<T>(v: Option<T>) -> CellView {
    CellView::Num(
        if v is Some {
            1
        } else {
            0
        },
    )
}

/// The cell of an optional number behind its flag: the number, or zero.
pub open spec fn value_cell(v: Option<u64>) -> CellView {
    CellView::Num(
        match v {
            Some(v) => v,
            None => 0,
        },
    )
}

/// The cell of an optional text behind its flag: the text, or nothing.
pub open spec fn text_cell(t: Option<Seq<char>>) -> CellView {
    CellView::Bytes(
        match t {
            Some(t) => encode_utf8(t),
            None => Seq::empty(),
        },
    )
}

/// The cells of a list of texts.
pub open spec fn texts_cells(ts: Seq<Seq<char>>) -> Seq<CellView> {
    seq![CellView::Num(ts.len() as u64)] + Seq::new(
        ts.len(),
        |i: int| CellView::Bytes(encode_utf8(ts[i])),
    )
}

/// The cells of a list of pairs of texts.
pub open spec fn pairs_cells(ps: Seq<(Seq<char>, Seq<char>)>) -> Seq<CellView> {
    seq![CellView::Num(ps.len() as u64)] + Seq::new(
        2 * ps.len(),
        |i: int|
            CellView::Bytes(
                encode_utf8(
                    if i % 2 == 0 {
                        ps[i / 2].0
                    } else {
                        ps[i / 2].1
                    },
                ),
            ),
    )
}

/// The number that stands for a timestamp: the timestamp counted from
/// the least of all.
pub open spec fn stamp_num(t: i64) -> u64 {
    (t - i64::MIN) as u64
}

/// The timestamp that a number stands for.
pub open spec fn num_stamp(n: u64) -> i64 {
    (n + i64::MIN) as i64
}

/// The number that stands for a role.
pub open spec fn role_num(r: FrameRole) -> u64 {
    match r {
        FrameRole::Document => 0,
        FrameRole::DocumentChunk => 1,
        FrameRole::ExtractedImage => 2,
    }
}

/// The number that stands for a status.
pub open spec fn status_num(s: FrameStatus) -> u64 {
    match s {
        FrameStatus::Active => 0,
        FrameStatus::Superseded => 1,
        FrameStatus::Deleted => 2,
    }
}

/// The number that stands for an encoding.
pub open spec fn encoding_num(e: CanonicalEncoding) -> u64 {
    match e {
        CanonicalEncoding::Plain => 0,
        CanonicalEncoding::Zstd => 1,
    }
}

/// The role that a number stands for.
pub open spec fn num_role(n: u64) -> Option<FrameRole> {
    if n == 0 {
        Some(FrameRole::Document)
    } else if n == 1 {
        Some(FrameRole::DocumentChunk)
    } else if n == 2 {
        Some(FrameRole::ExtractedImage)
    } else {
        None
    }
}

/// The status that a number stands for.
pub open spec fn num_status(n: u64) -> Option<FrameStatus> {
    if n == 0 {
        Some(FrameStatus::Active)
    } else if n == 1 {
        Some(FrameStatus::Superseded)
    } else if n == 2 {
        Some(FrameStatus::Deleted)
    } else {
        None
    }
}

/// The encoding that a number stands for.
pub open spec fn num_encoding(n: u64) -> Option<CanonicalEncoding> {
    if n == 0 {
        Some(CanonicalEncoding::Plain)
    } else if n == 1 {
        Some(CanonicalEncoding::Zstd)
    } else {
        None
    }
}

/// The optional number as one of 32 bits; nothing where it does not fit.
pub open spec fn narrow(v: Option<Option<u64>>) -> Option<Option<u32>> {
    match v {
        None => None,
        Some(None) => Some(None),
        Some(Some(v)) => if v <= u32::MAX {
            Some(Some(v as u32))
        } else {
            None
        },
    }
}

/// The optional number of 32 bits as one of 64.
pub open spec fn widen(v: Option<u32>) -> Option<u64> {
    match v {
        Some(v) => Some(v as u64),
        None => None,
    }
}

/// The flag of the metadata of a document: zero where there is none, one
/// where it names no MIME type, two where it names one.
pub open spec fn metadata_flag(d: Option<DocMetadataView>) -> CellView {
    CellView::Num(
        match d {
            None => 0,
            Some(d) => if d.mime is Some {
                2
            } else {
                1
            },
        },
    )
}

/// The MIME type that the metadata of a document names, if any.
pub open spec fn mime_of(d: Option<DocMetadataView>) -> Option<Seq<char>> {
    match d {
        Some(d) => d.mime,
        None => None,
    }
}

/// The metadata at `at`.
pub open spec fn metadata_at(cells: Seq<CellView>, at: int) -> Option<Option<DocMetadataView>> {
    match (num_at(cells, at), text_at(cells, at + 1)) {
        (Some(flag), Some(text)) => if flag == 0 {
            Some(None)
        } else if flag == 1 {
            Some(Some(DocMetadataView { mime: None }))
        } else if flag == 2 {
            Some(Some(DocMetadataView { mime: Some(text) }))
        } else {
            None
        },
        _ => None,
    }
}

/// The cells of a frame before its lists: its numbers, its optional
/// numbers and texts, its metadata, and its canonical bytes.
pub open spec fn fixed_cells(f: FrameView, payload: Seq<u8>) -> Seq<CellView> {
    seq![
        CellView::Num(f.id),
        CellView::Num(f.seq_no),
        CellView::Num(stamp_num(f.timestamp)),
        CellView::Num(role_num(f.role)),
        CellView::Num(status_num(f.status)),
        CellView::Num(encoding_num(f.canonical_encoding)),
        flag_cell(f.canonical_length),
        value_cell(f.canonical_length),
        CellView::Num(f.payload_length),
        CellView::Num(f.checksum),
        flag_cell(f.parent_id),
        value_cell(f.parent_id),
        flag_cell(f.chunk_index),
        value_cell(widen(f.chunk_index)),
        flag_cell(f.chunk_count),
        value_cell(widen(f.chunk_count)),
        flag_cell(f.uri),
        text_cell(f.uri),
        flag_cell(f.title),
        text_cell(f.title),
        flag_cell(f.kind),
        text_cell(f.kind),
        flag_cell(f.track),
        text_cell(f.track),
        flag_cell(f.search_text),
        text_cell(f.search_text),
        metadata_flag(f.metadata),
        text_cell(mime_of(f.metadata)),
        CellView::Bytes(payload),
    ]
}

/// The cells of a frame: the fixed ones, then its tags, its labels, its
/// content dates and its metadata pairs.
#[verifier::opaque]
pub open spec fn frame_cells(f: FrameView, payload: Seq<u8>) -> Seq<CellView> {
    fixed_cells(f, payload) + texts_cells(f.tags) + texts_cells(f.labels) + texts_cells(
        f.content_dates,
    ) + pairs_cells(f.extra_metadata) + end_cells(f.retired)
}

/// The cells that say when a frame left the active state: a flag, then
/// the sequence number and the time of the write that retired it.
pub open spec fn end_cells(r: Option<Retirement>) -> Seq<CellView> {
    seq![
        flag_cell(r),
        CellView::Num(
            match r {
                Some(r) => r.seq_no,
                None => 0,
            },
        ),
        CellView::Num(
            stamp_num(
                match r {
                    Some(r) => r.timestamp,
                    None => 0,
                },
            ),
        ),
    ]
}

/// When the frame whose last cells stand at `at` left the active state.
pub open spec fn end_at(cells: Seq<CellView>, at: int) -> Option<Option<Retirement>> {
    match (num_at(cells, at), num_at(cells, at + 1), num_at(cells, at + 2)) {
        (Some(flag), Some(seq_no), Some(stamp)) => if flag == 0 {
            Some(None)
        } else if flag == 1 {
            Some(Some(Retirement { seq_no, timestamp: num_stamp(stamp) }))
        } else {
            None
        },
        _ => None,
    }
}

/// What the fixed cells of a frame at `at` say, apart from the lists.
pub struct FixedPart {
    pub id: u64,
    pub seq_no: u64,
    pub timestamp: i64,
    pub role: FrameRole,
    pub status: FrameStatus,
    pub canonical_encoding: CanonicalEncoding,
    pub canonical_length: Option<u64>,
    pub payload_length: u64,
    pub checksum: u64,
    pub parent_id: Option<u64>,
    pub chunk_index: Option<u32>,
    pub chunk_count: Option<u32>,
    pub uri: Option<Seq<char>>,
    pub title: Option<Seq<char>>,
    pub kind: Option<Seq<char>>,
    pub track: Option<Seq<char>>,
    pub search_text: Option<Seq<char>>,
    pub metadata: Option<DocMetadataView>,
    pub payload: Seq<u8>,
}

/// The numbers of a frame at `at` are all there and all stand for something.
pub open spec fn numbers_ok(cells: Seq<CellView>, at: int) -> bool {
    &&& num_at(cells, at) is Some
    &&& num_at(cells, at + 1) is Some
    &&& num_at(cells, at + 2) is Some
    &&& num_at(cells, at + 3) is Some && num_role(num_at(cells, at + 3)->0) is Some
    &&& num_at(cells, at + 4) is Some && num_status(num_at(cells, at + 4)->0) is Some
    &&& num_at(cells, at + 5) is Some && num_encoding(num_at(cells, at + 5)->0) is Some
    &&& opt_num_at(cells, at + 6) is Some
    &&& num_at(cells, at + 8) is Some
    &&& num_at(cells, at + 9) is Some
    &&& opt_num_at(cells, at + 10) is Some
    &&& narrow(opt_num_at(cells, at + 12)) is Some
    &&& narrow(opt_num_at(cells, at + 14)) is Some
}

/// The texts, the metadata and the bytes of a frame at `at` are all there.
pub open spec fn texts_ok(cells: Seq<CellView>, at: int) -> bool {
    &&& opt_text_at(cells, at + 16) is Some
    &&& opt_text_at(cells, at + 18) is Some
    &&& opt_text_at(cells, at + 20) is Some
    &&& opt_text_at(cells, at + 22) is Some
    &&& opt_text_at(cells, at + 24) is Some
    &&& metadata_at(cells, at + 26) is Some
    &&& bytes_at(cells, at + 28) is Some
}

/// What the fixed cells of a frame at `at` say.
pub open spec fn fixed_at(cells: Seq<CellView>, at: int) -> Option<FixedPart> {
    if numbers_ok(cells, at) && texts_ok(cells, at) {
        Some(
            FixedPart {
                id: num_at(cells, at)->0,
                seq_no: num_at(cells, at + 1)->0,
                timestamp: num_stamp(num_at(cells, at + 2)->0),
                role: num_role(num_at(cells, at + 3)->0)->0,
                status: num_status(num_at(cells, at + 4)->0)->0,
                canonical_encoding: num_encoding(num_at(cells, at + 5)->0)->0,
                canonical_length: opt_num_at(cells, at + 6)->0,
                payload_length: num_at(cells, at + 8)->0,
                checksum: num_at(cells, at + 9)->0,
                parent_id: opt_num_at(cells, at + 10)->0,
                chunk_index: narrow(opt_num_at(cells, at + 12))->0,
                chunk_count: narrow(opt_num_at(cells, at + 14))->0,
                uri: opt_text_at(cells, at + 16)->0,
                title: opt_text_at(cells, at + 18)->0,
                kind: opt_text_at(cells, at + 20)->0,
                track: opt_text_at(cells, at + 22)->0,
                search_text: opt_text_at(cells, at + 24)->0,
                metadata: metadata_at(cells, at + 26)->0,
                payload: bytes_at(cells, at + 28)->0,
            },
        )
    } else {
        None
    }
}

/// The frame that the fixed part and the lists make.
pub open spec fn assemble(
    p: FixedPart,
    tags: Seq<Seq<char>>,
    labels: Seq<Seq<char>>,
    content_dates: Seq<Seq<char>>,
    extra_metadata: Seq<(Seq<char>, Seq<char>)>,
    retired: Option<Retirement>,
) -> FrameView {
    FrameView {
        id: p.id,
        seq_no: p.seq_no,
        timestamp: p.timestamp,
        role: p.role,
        status: p.status,
        canonical_encoding: p.canonical_encoding,
        canonical_length: p.canonical_length,
        payload_length: p.payload_length,
        checksum: p.checksum,
        uri: p.uri,
        title: p.title,
        kind: p.kind,
        track: p.track,
        tags,
        labels,
        extra_metadata,
        content_dates,
        parent_id: p.parent_id,
        chunk_index: p.chunk_index,
        chunk_count: p.chunk_count,
        search_text: p.search_text,
        metadata: p.metadata,
        retired,
    }
}

/// The frame at `at`, its canonical bytes, and where it ends.
#[verifier::opaque]
pub open spec fn frame_at(cells: Seq<CellView>, at: int) -> Option<(FrameView, Seq<u8>, int)> {
    match fixed_at(cells, at) {
        None => None,
        Some(p) => match texts_at(cells, at + FIXED_CELLS) {
            None => None,
            Some((tags, a)) => match texts_at(cells, a) {
                None => None,
                Some((labels, b)) => match texts_at(cells, b) {
                    None => None,
                    Some((dates, c)) => match pairs_at(cells, c) {
                        None => None,
                        Some((pairs, d)) => match end_at(cells, d) {
                            None => None,
                            Some(retired) => Some(
                                (
                                    assemble(p, tags, labels, dates, pairs, retired),
                                    p.payload,
                                    d + 3,
                                ),
                            ),
                        },
                    },
                },
            },
        },
    }
}

/// The `n` frames from `at` on, their canonical bytes, and where they end.
pub open spec fn frames_at(cells: Seq<CellView>, at: int, n: nat) -> Option<
    (Seq<FrameView>, Seq<Seq<u8>>, int),
>
    decreases n,
{
    if n == 0 {
        Some((Seq::empty(), Seq::empty(), at))
    } else {
        match frame_at(cells, at) {
            None => None,
            Some((f, p, next)) => match frames_at(cells, next, (n - 1) as nat) {
                None => None,
                Some((fs, ps, end)) => Some((seq![f] + fs, seq![p] + ps, end)),
            },
        }
    }
}

/// The cells of the first `k` frames of a log, one frame after the other.
pub open spec fn frames_cells(m: StoreModel, k: int) -> Seq<CellView>
    decreases k,
{
    if k <= 0 {
        Seq::empty()
    } else {
        frames_cells(m, k - 1) + frame_cells(m.frames[k - 1], m.payloads[k - 1])
    }
}

/// The cells of a log: the header, with the sequence number of the last
/// write and the number of frames, then the frames.
pub open spec fn store_cells(m: StoreModel) -> Seq<CellView> {
    seq![
        CellView::Num(MAGIC),
        CellView::Num(VERSION),
        CellView::Num(m.seq),
        CellView::Num(m.frames.len() as u64),
    ] + frames_cells(m, m.frames.len() as int)
}

/// The log that a run of cells spells; nothing where the header is not
/// that of a container, a frame is malformed, or cells are left over.
pub open spec fn cells_store(cells: Seq<CellView>) -> Option<StoreModel> {
    if num_at(cells, 0) == Some(MAGIC) && num_at(cells, 1) == Some(VERSION) && num_at(cells, 2)
        is Some && num_at(cells, 3) is Some {
        match frames_at(cells, 4, num_at(cells, 3)->0 as nat) {
            Some((frames, payloads, end)) => if end == cells.len() {
                Some(StoreModel { frames, payloads, seq: num_at(cells, 2)->0 })
            } else {
                None
            },
            None => None,
        }
    } else {
        None
    }
}

/// The bytes of a container: the cells of the log, then the digest of
/// their bytes.
pub open spec fn container_bytes(m: StoreModel) -> Seq<u8> {
    cells_bytes(store_cells(m)) + le_bytes(digest(cells_bytes(store_cells(m))))
}

/// The log that the bytes of a container spell; nothing where the digest
/// at the end does not match what stands before it, or where that is no log.
pub open spec fn bytes_store(bytes: Seq<u8>) -> Option<StoreModel> {
    if bytes.len() < 8 {
        None
    } else {
        let body = bytes.subrange(0, bytes.len() - 8);
        if le_value(bytes, bytes.len() - 8) != digest(body) {
            None
        } else {
            match cells_from(body, 0) {
                Some(cells) => cells_store(cells),
                None => None,
            }
        }
    }
}

/// The fixed part of a frame.
pub open spec fn fixed_part(f: FrameView, payload: Seq<u8>) -> FixedPart {
    FixedPart {
        id: f.id,
        seq_no: f.seq_no,
        timestamp: f.timestamp,
        role: f.role,
        status: f.status,
        canonical_encoding: f.canonical_encoding,
        canonical_length: f.canonical_length,
        payload_length: f.payload_length,
        checksum: f.checksum,
        parent_id: f.parent_id,
        chunk_index: f.chunk_index,
        chunk_count: f.chunk_count,
        uri: f.uri,
        title: f.title,
        kind: f.kind,
        track: f.track,
        search_text: f.search_text,
        metadata: f.metadata,
        payload,
    }
}

/// A text that is written is read back.
pub proof fn lemma_text_round_trip(cells: Seq<CellView>, at: int, t: Seq<char>)
    requires
        0 <= at < cells.len(),
        cells[at] == CellView::Bytes(encode_utf8(t)),
    ensures
        text_at(cells, at) == Some(t),
{
    vstd::utf8::encode_utf8_valid_utf8(t);
    vstd::utf8::encode_utf8_decode_utf8(t);
}

/// No text is a text too.
pub proof fn lemma_empty_text(cells: Seq<CellView>, at: int)
    requires
        0 <= at < cells.len(),
        cells[at] == CellView::Bytes(Seq::<u8>::empty()),
    ensures
        text_at(cells, at) is Some,
{
    let none = Seq::<char>::empty();
    vstd::utf8::encode_utf8_valid_utf8(none);
    assert(encode_utf8(none) =~= Seq::<u8>::empty()) by {
        reveal_with_fuel(encode_utf8, 1);
    }
}

/// An optional text that is written is read back.
pub proof fn lemma_opt_text_round_trip(cells: Seq<CellView>, at: int, t: Option<Seq<char>>)
    requires
        0 <= at,
        at + 1 < cells.len(),
        cells[at] == flag_cell(t),
        cells[at + 1] == text_cell(t),
    ensures
        opt_text_at(cells, at) == Some(t),
{
    match t {
        Some(text) => lemma_text_round_trip(cells, at + 1, text),
        None => lemma_empty_text(cells, at + 1),
    }
}

/// The fixed cells of a frame that are written are read back.
pub proof fn lemma_fixed_round_trip(cells: Seq<CellView>, at: int, f: FrameView, payload: Seq<u8>)
    requires
        0 <= at,
        at + FIXED_CELLS <= cells.len(),
        cells.subrange(at, at + FIXED_CELLS) == fixed_cells(f, payload),
    ensures
        fixed_at(cells, at) == Some(fixed_part(f, payload)),
{
    let fc = fixed_cells(f, payload);
    assert forall|k: int| 0 <= k < 29 implies cells[at + k] == fc[k] by {
        assert(cells.subrange(at, at + FIXED_CELLS)[k] == cells[at + k]);
    }
    assert(cells[at] == fc[0] && cells[at + 1] == fc[1] && cells[at + 2] == fc[2] && cells[at + 3]
        == fc[3] && cells[at + 4] == fc[4] && cells[at + 5] == fc[5]);
    assert(cells[at + 6] == fc[6] && cells[at + 7] == fc[7] && cells[at + 8] == fc[8] && cells[at
        + 9] == fc[9] && cells[at + 10] == fc[10] && cells[at + 11] == fc[11]);
    assert(cells[at + 12] == fc[12] && cells[at + 13] == fc[13] && cells[at + 14] == fc[14]
        && cells[at + 15] == fc[15]);
    assert(numbers_ok(cells, at));
    assert(cells[at + 16] == fc[16] && cells[at + 17] == fc[17]);
    lemma_opt_text_round_trip(cells, at + 16, f.uri);
    assert(cells[at + 18] == fc[18] && cells[at + 19] == fc[19]);
    lemma_opt_text_round_trip(cells, at + 18, f.title);
    assert(cells[at + 20] == fc[20] && cells[at + 21] == fc[21]);
    lemma_opt_text_round_trip(cells, at + 20, f.kind);
    assert(cells[at + 22] == fc[22] && cells[at + 23] == fc[23]);
    lemma_opt_text_round_trip(cells, at + 22, f.track);
    assert(cells[at + 24] == fc[24] && cells[at + 25] == fc[25]);
    lemma_opt_text_round_trip(cells, at + 24, f.search_text);
    assert(cells[at + 26] == fc[26] && cells[at + 27] == fc[27] && cells[at + 28] == fc[28]);
    match mime_of(f.metadata) {
        Some(text) => lemma_text_round_trip(cells, at + 27, text),
        None => lemma_empty_text(cells, at + 27),
    }
    assert(metadata_at(cells, at + 26) == Some(f.metadata));
    assert(texts_ok(cells, at));
}

/// Where a run of cells holds two lists one after the other, it holds
/// each of them at its place.
pub proof fn lemma_two_parts(cells: Seq<CellView>, at: int, a: Seq<CellView>, b: Seq<CellView>)
    requires
        0 <= at,
        at + a.len() + b.len() <= cells.len(),
        cells.subrange(at, at + a.len() + b.len()) == a + b,
    ensures
        cells.subrange(at, at + a.len()) == a,
        cells.subrange(at + a.len(), at + a.len() + b.len()) == b,
{
    let whole = cells.subrange(at, at + a.len() + b.len());
    assert(cells.subrange(at, at + a.len()) =~= a) by {
        assert forall|i: int| 0 <= i < a.len() implies cells[at + i] == a[i] by {
            assert(whole[i] == cells[at + i]);
        }
    }
    assert(cells.subrange(at + a.len(), at + a.len() + b.len()) =~= b) by {
        assert forall|i: int| 0 <= i < b.len() implies cells[at + a.len() + i] == b[i] by {
            assert(whole[a.len() + i] == cells[at + a.len() + i]);
        }
    }
}

/// A list of texts that is written is read back.
pub proof fn lemma_texts_round_trip(cells: Seq<CellView>, at: int, ts: Seq<Seq<char>>)
    requires
        0 <= at,
        ts.len() <= u64::MAX,
        at + 1 + ts.len() <= cells.len(),
        cells.subrange(at, at + 1 + ts.len()) == texts_cells(ts),
    ensures
        texts_cells(ts).len() == 1 + ts.len(),
        texts_at(cells, at) == Some((ts, at + 1 + ts.len())),
{
    let written = texts_cells(ts);
    assert forall|k: int| 0 <= k < written.len() implies cells[at + k] == written[k] by {
        assert(cells.subrange(at, at + 1 + ts.len())[k] == cells[at + k]);
    }
    assert(cells[at] == written[0]);
    assert forall|j: int| at + 1 <= j < at + 1 + ts.len() implies #[trigger] text_at(cells, j)
        == Some(ts[j - at - 1]) by {
        assert(cells[at + (j - at)] == written[j - at]);
        lemma_text_round_trip(cells, j, ts[j - at - 1]);
    }
    let got = texts_at(cells, at)->0;
    let read = got.0;
    assert(read =~= ts) by {
        assert forall|i: int| 0 <= i < ts.len() implies read[i] == ts[i] by {
            assert(text_at(cells, at + 1 + i) == Some(ts[i]));
        }
    }
}

/// A list of pairs of texts that is written is read back.
pub proof fn lemma_pairs_round_trip(
    cells: Seq<CellView>,
    at: int,
    ps: Seq<(Seq<char>, Seq<char>)>,
)
    requires
        0 <= at,
        ps.len() <= u64::MAX,
        at + 1 + 2 * ps.len() <= cells.len(),
        cells.subrange(at, at + 1 + 2 * ps.len()) == pairs_cells(ps),
    ensures
        pairs_cells(ps).len() == 1 + 2 * ps.len(),
        pairs_at(cells, at) == Some((ps, at + 1 + 2 * ps.len())),
{
    let written = pairs_cells(ps);
    assert forall|k: int| 0 <= k < written.len() implies cells[at + k] == written[k] by {
        assert(cells.subrange(at, at + 1 + 2 * ps.len())[k] == cells[at + k]);
    }
    assert(cells[at] == written[0]);
    assert forall|j: int| at + 1 <= j < at + 1 + 2 * ps.len() implies #[trigger] text_at(cells, j)
        == Some(
        if (j - at - 1) % 2 == 0 {
            ps[(j - at - 1) / 2].0
        } else {
            ps[(j - at - 1) / 2].1
        },
    ) by {
        assert(cells[at + (j - at)] == written[j - at]);
        lemma_text_round_trip(
            cells,
            j,
            if (j - at - 1) % 2 == 0 {
                ps[(j - at - 1) / 2].0
            } else {
                ps[(j - at - 1) / 2].1
            },
        );
    }
    let got = pairs_at(cells, at)->0;
    let read = got.0;
    assert(read =~= ps) by {
        assert forall|i: int| 0 <= i < ps.len() implies read[i] == ps[i] by {
            assert(text_at(cells, at + 1 + 2 * i) == Some(ps[i].0));
            assert(text_at(cells, at + 2 + 2 * i) == Some(ps[i].1));
        }
    }
}

/// The lists of a frame are short enough for their lengths to be written.
pub open spec fn countable(f: FrameView) -> bool {
    &&& f.tags.len() <= u64::MAX
    &&& f.labels.len() <= u64::MAX
    &&& f.content_dates.len() <= u64::MAX
    &&& f.extra_metadata.len() <= u64::MAX
}

/// The number of cells of a frame.
pub open spec fn frame_size(f: FrameView) -> int {
    FIXED_CELLS + 7 + f.tags.len() + f.labels.len() + f.content_dates.len() + 2
        * f.extra_metadata.len()
}

/// A frame is written in as many cells as its size says.
pub proof fn lemma_frame_size(f: FrameView, payload: Seq<u8>)
    ensures
        frame_cells(f, payload).len() == frame_size(f),
{
    reveal(frame_cells);
}

/// Where a frame is written, each of its parts stands at its place: the
/// fixed cells, the three lists of texts, the pairs, and the cells of its
/// end.
pub proof fn lemma_frame_parts(cells: Seq<CellView>, at: int, f: FrameView, payload: Seq<u8>)
    requires
        0 <= at,
        at + frame_size(f) <= cells.len(),
        cells.subrange(at, at + frame_size(f)) == frame_cells(f, payload),
    ensures
        ({
            let a = at + FIXED_CELLS;
            let b = a + 1 + f.tags.len();
            let c = b + 1 + f.labels.len();
            let d = c + 1 + f.content_dates.len();
            let e = d + 1 + 2 * f.extra_metadata.len();
            &&& cells.subrange(at, a) == fixed_cells(f, payload)
            &&& cells.subrange(a, b) == texts_cells(f.tags)
            &&& cells.subrange(b, c) == texts_cells(f.labels)
            &&& cells.subrange(c, d) == texts_cells(f.content_dates)
            &&& cells.subrange(d, e) == pairs_cells(f.extra_metadata)
            &&& cells.subrange(e, e + 3) == end_cells(f.retired)
            &&& e + 3 == at + frame_size(f)
        }),
{
    reveal(frame_cells);
    let fixed = fixed_cells(f, payload);
    let tags = texts_cells(f.tags);
    let labels = texts_cells(f.labels);
    let dates = texts_cells(f.content_dates);
    let pairs = pairs_cells(f.extra_metadata);
    let end = end_cells(f.retired);
    assert(fixed.len() == FIXED_CELLS);
    assert(tags.len() == 1 + f.tags.len());
    assert(labels.len() == 1 + f.labels.len());
    assert(dates.len() == 1 + f.content_dates.len());
    assert(pairs.len() == 1 + 2 * f.extra_metadata.len());
    assert(end.len() == 3);
    lemma_two_parts(cells, at, fixed + tags + labels + dates + pairs, end);
    lemma_two_parts(cells, at, fixed + tags + labels + dates, pairs);
    lemma_two_parts(cells, at, fixed + tags + labels, dates);
    lemma_two_parts(cells, at, fixed + tags, labels);
    lemma_two_parts(cells, at, fixed, tags);
}

/// The end of a frame that is written is read back.
pub proof fn lemma_end_round_trip(cells: Seq<CellView>, at: int, r: Option<Retirement>)
    requires
        0 <= at,
        at + 3 <= cells.len(),
        cells.subrange(at, at + 3) == end_cells(r),
    ensures
        end_at(cells, at) == Some(r),
{
    let end = end_cells(r);
    assert forall|k: int| 0 <= k < 3 implies cells[at + k] == end[k] by {
        assert(cells.subrange(at, at + 3)[k] == cells[at + k]);
    }
    assert(cells[at] == end[0] && cells[at + 1] == end[1] && cells[at + 2] == end[2]);
}

/// A frame whose parts are read one behind the other is read as a whole.
pub proof fn lemma_frame_whole(cells: Seq<CellView>, at: int, f: FrameView, payload: Seq<u8>)
    requires
        fixed_at(cells, at) == Some(fixed_part(f, payload)),
        ({
            let a = at + FIXED_CELLS;
            let b = a + 1 + f.tags.len();
            let c = b + 1 + f.labels.len();
            let d = c + 1 + f.content_dates.len();
            let e = d + 1 + 2 * f.extra_metadata.len();
            &&& texts_at(cells, a) == Some((f.tags, b))
            &&& texts_at(cells, b) == Some((f.labels, c))
            &&& texts_at(cells, c) == Some((f.content_dates, d))
            &&& pairs_at(cells, d) == Some((f.extra_metadata, e))
            &&& end_at(cells, e) == Some(f.retired)
        }),
    ensures
        frame_at(cells, at) == Some((f, payload, at + frame_size(f))),
{
    reveal(frame_at);
    assert(assemble(
        fixed_part(f, payload),
        f.tags,
        f.labels,
        f.content_dates,
        f.extra_metadata,
        f.retired,
    ) == f);
}

/// A frame that is written is read back.
pub proof fn lemma_frame_round_trip(cells: Seq<CellView>, at: int, f: FrameView, payload: Seq<u8>)
    requires
        0 <= at,
        countable(f),
        at + frame_size(f) <= cells.len(),
        cells.subrange(at, at + frame_size(f)) == frame_cells(f, payload),
    ensures
        frame_at(cells, at) == Some((f, payload, at + frame_size(f))),
{
    let a = at + FIXED_CELLS;
    let b = a + 1 + f.tags.len();
    let c = b + 1 + f.labels.len();
    let d = c + 1 + f.content_dates.len();
    let e = d + 1 + 2 * f.extra_metadata.len();
    lemma_frame_parts(cells, at, f, payload);
    lemma_fixed_round_trip(cells, at, f, payload);
    lemma_texts_round_trip(cells, a, f.tags);
    lemma_texts_round_trip(cells, b, f.labels);
    lemma_texts_round_trip(cells, c, f.content_dates);
    lemma_pairs_round_trip(cells, d, f.extra_metadata);
    lemma_end_round_trip(cells, e, f.retired);
    lemma_frame_whole(cells, at, f, payload);
}

/// The first frames of a log are written where all its frames begin.
pub proof fn lemma_frames_prefix(m: StoreModel, n: int, k: int)
    requires
        0 <= k <= n,
    ensures
        frames_cells(m, k).len() <= frames_cells(m, n).len(),
        frames_cells(m, n).subrange(0, frames_cells(m, k).len() as int) == frames_cells(m, k),
    decreases n,
{
    let whole = frames_cells(m, n);
    if k == n {
        assert(whole.subrange(0, whole.len() as int) =~= whole);
    } else {
        lemma_frames_prefix(m, n - 1, k);
        let part = frames_cells(m, k);
        let inner = frames_cells(m, n - 1);
        assert(whole.subrange(0, part.len() as int) =~= inner.subrange(0, part.len() as int));
    }
}

/// Every frame of a log can be written: its lists are countable, and it
/// has its canonical bytes.
pub open spec fn storable(m: StoreModel) -> bool {
    &&& m.frames.len() <= u64::MAX
    &&& m.payloads.len() == m.frames.len()
    &&& forall|i: int| 0 <= i < m.frames.len() ==> countable(#[trigger] m.frames[i])
}

/// The frame `k` of a log is written behind the header and the frames
/// before it.
pub proof fn lemma_frame_place(m: StoreModel, k: int)
    requires
        0 <= k < m.frames.len(),
    ensures
        frames_cells(m, k + 1).len() == frames_cells(m, k).len() + frame_cells(
            m.frames[k],
            m.payloads[k],
        ).len(),
        4 + frames_cells(m, k + 1).len() <= store_cells(m).len(),
        store_cells(m).len() == 4 + frames_cells(m, m.frames.len() as int).len(),
        store_cells(m).subrange(
            4 + frames_cells(m, k).len() as int,
            4 + frames_cells(m, k + 1).len() as int,
        ) == frame_cells(m.frames[k], m.payloads[k]),
{
    let n = m.frames.len() as int;
    let cells = store_cells(m);
    let all = frames_cells(m, n);
    let written = frame_cells(m.frames[k], m.payloads[k]);
    let before = frames_cells(m, k);
    let upto = frames_cells(m, k + 1);
    lemma_frames_prefix(m, n, k + 1);
    assert(upto == before + written);
    assert(cells.subrange(4 + before.len() as int, 4 + upto.len() as int) =~= written) by {
        assert forall|i: int| 0 <= i < written.len() implies cells[4 + before.len() + i]
            == written[i] by {
            assert(all.subrange(0, upto.len() as int)[before.len() + i] == upto[before.len() + i]);
            assert(cells[4 + before.len() + i] == all[before.len() + i]);
        }
    }
}

/// The frames of a log that are written are read back, from the frame `k` on.
pub proof fn lemma_frames_round_trip(m: StoreModel, k: int)
    requires
        storable(m),
        0 <= k <= m.frames.len(),
    ensures
        frames_at(
            store_cells(m),
            4 + frames_cells(m, k).len() as int,
            (m.frames.len() - k) as nat,
        ) == Some((m.frames.skip(k), m.payloads.skip(k), store_cells(m).len() as int)),
    decreases m.frames.len() - k,
{
    let n = m.frames.len() as int;
    let cells = store_cells(m);
    let at = 4 + frames_cells(m, k).len() as int;
    if k == n {
        assert(m.frames.skip(k) =~= Seq::<FrameView>::empty());
        assert(m.payloads.skip(k) =~= Seq::<Seq<u8>>::empty());
        assert(cells.len() == at) by {
            assert(cells.len() == 4 + frames_cells(m, n).len());
        }
    } else {
        let f = m.frames[k];
        let p = m.payloads[k];
        lemma_frame_place(m, k);
        lemma_frame_size(f, p);
        lemma_frame_round_trip(cells, at, f, p);
        lemma_frames_round_trip(m, k + 1);
        assert(seq![f] + m.frames.skip(k + 1) =~= m.frames.skip(k));
        assert(seq![p] + m.payloads.skip(k + 1) =~= m.payloads.skip(k));
    }
}

/// A log that is written as cells is read back.
pub proof fn lemma_store_round_trip(m: StoreModel)
    requires
        storable(m),
    ensures
        cells_store(store_cells(m)) == Some(m),
{
    lemma_frames_round_trip(m, 0);
    assert(m.frames.skip(0) =~= m.frames);
    assert(m.payloads.skip(0) =~= m.payloads);
}

/// Round trip of the container: the bytes of a log spell the log.
pub proof fn lemma_container_round_trip(m: StoreModel)
    requires
        storable(m),
        writable(store_cells(m)),
    ensures
        bytes_store(container_bytes(m)) == Some(m),
{
    let cells = store_cells(m);
    let body = cells_bytes(cells);
    let bytes = container_bytes(m);
    lemma_le_len(digest(body));
    assert(bytes.subrange(0, bytes.len() - 8) =~= body);
    assert(bytes.subrange(bytes.len() - 8, bytes.len() as int) =~= le_bytes(digest(body)));
    lemma_le_round_trip(digest(body), bytes, bytes.len() - 8);
    lemma_cells_round_trip(cells, 0);
    assert(cells.take(0) =~= Seq::<CellView>::empty());
    assert(cells.skip(0) =~= cells);
    lemma_store_round_trip(m);
}

/// Appends a number.
fn push_num(out: &mut Vec<Cell>, v: u64)
    ensures
        cell_views(final(out)@) == cell_views(old(out)@).push(CellView::Num(v)),
{
    out.push(Cell::Num(v));
    assert(cell_views(out@) =~= cell_views(old(out)@).push(CellView::Num(v)));
}

/// Appends a run of bytes.
fn push_bytes(out: &mut Vec<Cell>, b: Vec<u8>)
    ensures
        cell_views(final(out)@) == cell_views(old(out)@).push(CellView::Bytes(b@)),
{
    let ghost bytes = b@;
    out.push(Cell::Bytes(b));
    assert(cell_views(out@) =~= cell_views(old(out)@).push(CellView::Bytes(bytes)));
}

/// Appends an optional number: its flag, then its value.
fn push_opt_num(out: &mut Vec<Cell>, v: Option<u64>)
    ensures
        cell_views(final(out)@) == cell_views(old(out)@).push(flag_cell(v)).push(value_cell(v)),
{
    match v {
        Some(v) => {
            push_num(out, 1);
            push_num(out, v);
        },
        None => {
            push_num(out, 0);
            push_num(out, 0);
        },
    }
}

/// Appends an optional text: its flag, then its bytes.
fn push_opt_text(out: &mut Vec<Cell>, t: &Option<String>)
    ensures
        cell_views(final(out)@) == cell_views(old(out)@).push(flag_cell(opt_text(*t))).push(
            text_cell(opt_text(*t)),
        ),
{
    match t {
        Some(t) => {
            push_num(out, 1);
            push_bytes(out, t.as_str().as_bytes_vec());
        },
        None => {
            push_num(out, 0);
            push_bytes(out, Vec::new());
        },
    }
}

/// Appends a list of texts: their number, then each of them.
fn push_texts(out: &mut Vec<Cell>, ts: &Vec<String>)
    ensures
        cell_views(final(out)@) == cell_views(old(out)@) + texts_cells(texts(ts@)),
{
    let ghost base = cell_views(out@);
    let ghost all = texts_cells(texts(ts@));
    push_num(out, ts.len() as u64);
    let mut i: usize = 0;
    assert(cell_views(out@) =~= base + all.take(1));
    while i < ts.len()
        invariant
            i <= ts.len(),
            all == texts_cells(texts(ts@)),
            cell_views(out@) == base + all.take(1 + i),
        decreases ts.len() - i,
    {
        push_bytes(out, ts[i].as_str().as_bytes_vec());
        i = i + 1;
        assert(cell_views(out@) =~= base + all.take(1 + i));
    }
    assert(all.take(1 + ts.len()) =~= all);
}

/// Appends a list of pairs of texts: their number, then the key and the
/// value of each.
fn push_pairs(out: &mut Vec<Cell>, ps: &Vec<(String, String)>)
    ensures
        cell_views(final(out)@) == cell_views(old(out)@) + pairs_cells(text_pairs(ps@)),
{
    let ghost base = cell_views(out@);
    let ghost all = pairs_cells(text_pairs(ps@));
    push_num(out, ps.len() as u64);
    let mut i: usize = 0;
    assert(cell_views(out@) =~= base + all.take(1));
    while i < ps.len()
        invariant
            i <= ps.len(),
            all == pairs_cells(text_pairs(ps@)),
            cell_views(out@) == base + all.take(1 + 2 * i),
        decreases ps.len() - i,
    {
        let ghost before = cell_views(out@);
        push_bytes(out, ps[i].0.as_str().as_bytes_vec());
        push_bytes(out, ps[i].1.as_str().as_bytes_vec());
        proof {
            assert(all[1 + 2 * i] == CellView::Bytes(encode_utf8(ps[i as int].0@)));
            assert(all[2 + 2 * i] == CellView::Bytes(encode_utf8(ps[i as int].1@)));
        }
        i = i + 1;
        assert(cell_views(out@) =~= base + all.take(1 + 2 * i));
    }
    assert(all.take(1 + 2 * ps.len()) =~= all);
}

/// The number that stands for a role.
fn role_code(r: FrameRole) -> (n: u64)
    ensures
        n == role_num(r),
{
    match r {
        FrameRole::Document => 0,
        FrameRole::DocumentChunk => 1,
        FrameRole::ExtractedImage => 2,
    }
}

/// The number that stands for a status.
fn status_code(s: FrameStatus) -> (n: u64)
    ensures
        n == status_num(s),
{
    match s {
        FrameStatus::Active => 0,
        FrameStatus::Superseded => 1,
        FrameStatus::Deleted => 2,
    }
}

/// The number that stands for an encoding.
fn encoding_code(e: CanonicalEncoding) -> (n: u64)
    ensures
        n == encoding_num(e),
{
    match e {
        CanonicalEncoding::Plain => 0,
        CanonicalEncoding::Zstd => 1,
    }
}

/// The number that stands for a timestamp.
fn stamp_code(t: i64) -> (n: u64)
    ensures
        n == stamp_num(t),
{
    (t as i128 - i64::MIN as i128) as u64
}

/// The optional number of 32 bits as one of 64.
fn widen_opt(v: Option<u32>) -> (w: Option<u64>)
    ensures
        w == widen(v),
{
    match v {
        Some(v) => Some(v as u64),
        None => None,
    }
}

/// The first cells of a frame: its numbers.
pub open spec fn number_cells(f: FrameView) -> Seq<CellView> {
    seq![
        CellView::Num(f.id),
        CellView::Num(f.seq_no),
        CellView::Num(stamp_num(f.timestamp)),
        CellView::Num(role_num(f.role)),
        CellView::Num(status_num(f.status)),
        CellView::Num(encoding_num(f.canonical_encoding)),
        flag_cell(f.canonical_length),
        value_cell(f.canonical_length),
        CellView::Num(f.payload_length),
        CellView::Num(f.checksum),
        flag_cell(f.parent_id),
        value_cell(f.parent_id),
        flag_cell(f.chunk_index),
        value_cell(widen(f.chunk_index)),
        flag_cell(f.chunk_count),
        value_cell(widen(f.chunk_count)),
    ]
}

/// The cells of a frame behind its numbers: its optional texts and its
/// metadata.
pub open spec fn named_cells(f: FrameView) -> Seq<CellView> {
    seq![
        flag_cell(f.uri),
        text_cell(f.uri),
        flag_cell(f.title),
        text_cell(f.title),
        flag_cell(f.kind),
        text_cell(f.kind),
        flag_cell(f.track),
        text_cell(f.track),
        flag_cell(f.search_text),
        text_cell(f.search_text),
        metadata_flag(f.metadata),
        text_cell(mime_of(f.metadata)),
    ]
}

/// The fixed cells of a frame are its numbers, its named cells and its
/// canonical bytes.
pub proof fn lemma_fixed_parts(f: FrameView, payload: Seq<u8>)
    ensures
        fixed_cells(f, payload) == number_cells(f) + named_cells(f) + seq![
            CellView::Bytes(payload),
        ],
{
    assert(fixed_cells(f, payload) =~= number_cells(f) + named_cells(f) + seq![
        CellView::Bytes(payload),
    ]);
}

/// Appends the numbers of a frame.
fn push_numbers(out: &mut Vec<Cell>, f: &Frame)
    ensures
        cell_views(final(out)@) == cell_views(old(out)@) + number_cells(f@),
{
    let ghost base = cell_views(out@);
    push_num(out, f.id);
    push_num(out, f.seq_no);
    push_num(out, stamp_code(f.timestamp));
    push_num(out, role_code(f.role));
    push_num(out, status_code(f.status));
    push_num(out, encoding_code(f.canonical_encoding));
    push_opt_num(out, f.canonical_length);
    push_num(out, f.payload_length);
    push_num(out, f.checksum);
    push_opt_num(out, f.parent_id);
    let ghost half = cell_views(out@);
    push_opt_num(out, widen_opt(f.chunk_index));
    push_opt_num(out, widen_opt(f.chunk_count));
    assert(cell_views(out@) =~= base + number_cells(f@));
}

/// Appends the metadata of a frame: its flag, then the MIME type.
fn push_metadata(out: &mut Vec<Cell>, d: &Option<DocMetadata>)
    ensures
        cell_views(final(out)@) == cell_views(old(out)@).push(
            metadata_flag(opt_metadata(*d)),
        ).push(text_cell(mime_of(opt_metadata(*d)))),
{
    match d {
        None => {
            push_num(out, 0);
            push_bytes(out, Vec::new());
        },
        Some(d) => match &d.mime {
            None => {
                push_num(out, 1);
                push_bytes(out, Vec::new());
            },
            Some(m) => {
                push_num(out, 2);
                push_bytes(out, m.as_str().as_bytes_vec());
            },
        },
    }
}

/// Appends the optional texts and the metadata of a frame.
fn push_named(out: &mut Vec<Cell>, f: &Frame)
    ensures
        cell_views(final(out)@) == cell_views(old(out)@) + named_cells(f@),
{
    let ghost base = cell_views(out@);
    push_opt_text(out, &f.uri);
    push_opt_text(out, &f.title);
    push_opt_text(out, &f.kind);
    push_opt_text(out, &f.track);
    push_opt_text(out, &f.search_text);
    push_metadata(out, &f.metadata);
    assert(cell_views(out@) =~= base + named_cells(f@));
}

/// Appends the fixed cells of a frame.
fn push_fixed(out: &mut Vec<Cell>, f: &Frame, payload: &Vec<u8>)
    ensures
        cell_views(final(out)@) == cell_views(old(out)@) + fixed_cells(f@, payload@),
{
    let ghost base = cell_views(out@);
    push_numbers(out, f);
    push_named(out, f);
    push_bytes(out, crate::text::clone_bytes(payload));
    proof {
        lemma_fixed_parts(f@, payload@);
        assert(cell_views(out@) =~= base + (number_cells(f@) + named_cells(f@) + seq![
            CellView::Bytes(payload@),
        ]));
    }
}

/// Appends the cells that say when a frame left the active state.
fn push_end(out: &mut Vec<Cell>, r: Option<Retirement>)
    ensures
        cell_views(final(out)@) == cell_views(old(out)@) + end_cells(r),
{
    let ghost base = cell_views(out@);
    match r {
        Some(r) => {
            push_num(out, 1);
            push_num(out, r.seq_no);
            push_num(out, stamp_code(r.timestamp));
        },
        None => {
            push_num(out, 0);
            push_num(out, 0);
            push_num(out, stamp_code(0));
        },
    }
    assert(cell_views(out@) =~= base + end_cells(r));
}

/// Appends the cells of a frame.
fn push_frame(out: &mut Vec<Cell>, f: &Frame, payload: &Vec<u8>)
    ensures
        cell_views(final(out)@) == cell_views(old(out)@) + frame_cells(f@, payload@),
{
    let ghost base = cell_views(out@);
    push_fixed(out, f, payload);
    push_texts(out, &f.tags);
    push_texts(out, &f.labels);
    push_texts(out, &f.content_dates);
    push_pairs(out, &f.extra_metadata);
    push_end(out, f.retired);
    proof {
        reveal(frame_cells);
        assert(cell_views(out@) =~= base + frame_cells(f@, payload@));
    }
}

/// The cells of a log.
pub fn store_to_cells(frames: &Vec<Frame>, payloads: &Vec<Vec<u8>>, seq: u64) -> (cells: Vec<Cell>)
    requires
        frames.len() == payloads.len(),
    ensures
        cell_views(cells@) == store_cells(image(frames@, payloads@, seq)),
{
    let ghost m = image(frames@, payloads@, seq);
    let mut cells: Vec<Cell> = Vec::new();
    push_num(&mut cells, MAGIC);
    push_num(&mut cells, VERSION);
    push_num(&mut cells, seq);
    push_num(&mut cells, frames.len() as u64);
    let ghost header = cell_views(cells@);
    let mut i: usize = 0;
    proof {
        assert(header + frames_cells(m, 0) =~= header);
    }
    while i < frames.len()
        invariant
            i <= frames.len(),
            frames.len() == payloads.len(),
            m == image(frames@, payloads@, seq),
            cell_views(cells@) == header + frames_cells(m, i as int),
        decreases frames.len() - i,
    {
        let ghost before = cell_views(cells@);
        push_frame(&mut cells, &frames[i], &payloads[i]);
        i = i + 1;
        proof {
            assert(m.frames[i - 1] == frames[i - 1]@);
            assert(m.payloads[i - 1] == payloads[i - 1]@);
            assert(cell_views(cells@) =~= header + frames_cells(m, i as int));
        }
    }
    assert(header =~= seq![
        CellView::Num(MAGIC),
        CellView::Num(VERSION),
        CellView::Num(seq),
        CellView::Num(frames.len() as u64),
    ]);
    cells
}

/// The number at `at`, where a number stands there.
fn get_num(cells: &Vec<Cell>, at: usize) -> (r: Option<u64>)
    ensures
        r == num_at(cell_views(cells@), at as int),
{
    if at >= cells.len() {
        return None;
    }
    match &cells[at] {
        Cell::Num(v) => Some(*v),
        Cell::Bytes(_) => None,
    }
}

/// A copy of the bytes at `at`, where bytes stand there.
fn get_bytes(cells: &Vec<Cell>, at: usize) -> (r: Option<Vec<u8>>)
    ensures
        match r {
            Some(b) => bytes_at(cell_views(cells@), at as int) == Some(b@),
            None => bytes_at(cell_views(cells@), at as int) is None,
        },
{
    if at >= cells.len() {
        return None;
    }
    match &cells[at] {
        Cell::Num(_) => None,
        Cell::Bytes(b) => Some(crate::text::clone_bytes(b)),
    }
}

/// The text at `at`, where bytes stand there that are UTF-8.
fn get_text(cells: &Vec<Cell>, at: usize) -> (r: Option<String>)
    ensures
        opt_text(r) == text_at(cell_views(cells@), at as int),
{
    if at >= cells.len() {
        return None;
    }
    match &cells[at] {
        Cell::Num(_) => None,
        Cell::Bytes(b) => utf8_text(b.as_slice()),
    }
}

/// The optional number at `at`.
fn get_opt_num(cells: &Vec<Cell>, at: usize) -> (r: Option<Option<u64>>)
    requires
        at < usize::MAX,
    ensures
        r == opt_num_at(cell_views(cells@), at as int),
{
    match (get_num(cells, at), get_num(cells, at + 1)) {
        (Some(flag), Some(value)) => if flag == 0 {
            Some(None)
        } else if flag == 1 {
            Some(Some(value))
        } else {
            None
        },
        _ => None,
    }
}

/// The optional number of 32 bits at `at`.
fn get_opt_small(cells: &Vec<Cell>, at: usize) -> (r: Option<Option<u32>>)
    requires
        at < usize::MAX,
    ensures
        r == narrow(opt_num_at(cell_views(cells@), at as int)),
{
    match get_opt_num(cells, at) {
        None => None,
        Some(None) => Some(None),
        Some(Some(v)) => if v <= u32::MAX as u64 {
            Some(Some(v as u32))
        } else {
            None
        },
    }
}

/// The text of an optional optional string.
pub open spec fn opt_opt_text(r: Option<Option<String>>) -> Option<Option<Seq<char>>> {
    match r {
        Some(t) => Some(opt_text(t)),
        None => None,
    }
}

/// The optional text at `at`.
fn get_opt_text(cells: &Vec<Cell>, at: usize) -> (r: Option<Option<String>>)
    requires
        at < usize::MAX,
    ensures
        opt_opt_text(r) == opt_text_at(cell_views(cells@), at as int),
{
    match (get_num(cells, at), get_text(cells, at + 1)) {
        (Some(flag), Some(text)) => if flag == 0 {
            Some(None)
        } else if flag == 1 {
            Some(Some(text))
        } else {
            None
        },
        _ => None,
    }
}

/// The content of an optional optional metadata.
pub open spec fn opt_opt_metadata(r: Option<Option<DocMetadata>>) -> Option<
    Option<DocMetadataView>,
> {
    match r {
        Some(d) => Some(opt_metadata(d)),
        None => None,
    }
}

/// The metadata at `at`.
fn get_metadata(cells: &Vec<Cell>, at: usize) -> (r: Option<Option<DocMetadata>>)
    requires
        at < usize::MAX,
    ensures
        opt_opt_metadata(r) == metadata_at(cell_views(cells@), at as int),
{
    match (get_num(cells, at), get_text(cells, at + 1)) {
        (Some(flag), Some(text)) => if flag == 0 {
            Some(None)
        } else if flag == 1 {
            Some(Some(DocMetadata { mime: None }))
        } else if flag == 2 {
            Some(Some(DocMetadata { mime: Some(text) }))
        } else {
            None
        },
        _ => None,
    }
}

/// The list of texts at `at`, and where it ends.
fn get_texts(cells: &Vec<Cell>, at: usize) -> (r: Option<(Vec<String>, usize)>)
    ensures
        match r {
            Some(found) => texts_at(cell_views(cells@), at as int) == Some(
                (texts(found.0@), found.1 as int),
            ),
            None => texts_at(cell_views(cells@), at as int) is None,
        },
{
    let ghost cv = cell_views(cells@);
    let n: u64 = match get_num(cells, at) {
        Some(n) => n,
        None => {
            return None;
        },
    };
    if n > (cells.len() - at - 1) as u64 {
        return None;
    }
    let count: usize = n as usize;
    let mut out: Vec<String> = Vec::new();
    let mut i: usize = 0;
    while i < count
        invariant
            i <= count,
            count == n,
            num_at(cv, at as int) == Some(n),
            at + 1 + count <= cells.len(),
            cv == cell_views(cells@),
            out.len() == i,
            forall|j: int| at + 1 <= j < at + 1 + i ==> #[trigger] text_at(cv, j) is Some,
            forall|k: int| 0 <= k < i ==> text_at(cv, at + 1 + k) == Some((#[trigger] out[k])@),
        decreases count - i,
    {
        match get_text(cells, at + 1 + i) {
            Some(t) => out.push(t),
            None => {
                assert(text_at(cv, at + 1 + i) is None);
                return None;
            },
        }
        i = i + 1;
    }
    proof {
        let got = texts_at(cv, at as int)->0;
        assert(got.0 =~= texts(out@));
    }
    Some((out, at + 1 + count))
}

/// The list of pairs of texts at `at`, and where it ends.
fn get_pairs(cells: &Vec<Cell>, at: usize) -> (r: Option<(Vec<(String, String)>, usize)>)
    ensures
        match r {
            Some(found) => pairs_at(cell_views(cells@), at as int) == Some(
                (text_pairs(found.0@), found.1 as int),
            ),
            None => pairs_at(cell_views(cells@), at as int) is None,
        },
{
    let ghost cv = cell_views(cells@);
    let n: u64 = match get_num(cells, at) {
        Some(n) => n,
        None => {
            return None;
        },
    };
    if n > ((cells.len() - at - 1) / 2) as u64 {
        return None;
    }
    let count: usize = n as usize;
    let mut out: Vec<(String, String)> = Vec::new();
    let mut i: usize = 0;
    while i < count
        invariant
            i <= count,
            count == n,
            num_at(cv, at as int) == Some(n),
            at + 1 + 2 * count <= cells.len(),
            cv == cell_views(cells@),
            out.len() == i,
            forall|j: int| at + 1 <= j < at + 1 + 2 * i ==> #[trigger] text_at(cv, j) is Some,
            forall|k: int|
                0 <= k < i ==> text_at(cv, at + 1 + 2 * k) == Some((#[trigger] out[k]).0@)
                    && text_at(cv, at + 2 + 2 * k) == Some(out[k].1@),
        decreases count - i,
    {
        let key: String = match get_text(cells, at + 1 + 2 * i) {
            Some(t) => t,
            None => {
                assert(text_at(cv, at + 1 + 2 * i) is None);
                return None;
            },
        };
        let value: String = match get_text(cells, at + 2 + 2 * i) {
            Some(t) => t,
            None => {
                assert(text_at(cv, at + 2 + 2 * i) is None);
                return None;
            },
        };
        out.push((key, value));
        i = i + 1;
    }
    proof {
        let got = pairs_at(cv, at as int)->0;
        assert(got.0 =~= text_pairs(out@));
    }
    Some((out, at + 1 + 2 * count))
}

/// The role that a number stands for.
fn role_of(n: u64) -> (r: Option<FrameRole>)
    ensures
        r == num_role(n),
{
    if n == 0 {
        Some(FrameRole::Document)
    } else if n == 1 {
        Some(FrameRole::DocumentChunk)
    } else if n == 2 {
        Some(FrameRole::ExtractedImage)
    } else {
        None
    }
}

/// The status that a number stands for.
fn status_of(n: u64) -> (r: Option<FrameStatus>)
    ensures
        r == num_status(n),
{
    if n == 0 {
        Some(FrameStatus::Active)
    } else if n == 1 {
        Some(FrameStatus::Superseded)
    } else if n == 2 {
        Some(FrameStatus::Deleted)
    } else {
        None
    }
}

/// The encoding that a number stands for.
fn encoding_of(n: u64) -> (r: Option<CanonicalEncoding>)
    ensures
        r == num_encoding(n),
{
    if n == 0 {
        Some(CanonicalEncoding::Plain)
    } else if n == 1 {
        Some(CanonicalEncoding::Zstd)
    } else {
        None
    }
}

/// The timestamp that a number stands for.
fn stamp_of(n: u64) -> (t: i64)
    ensures
        t == num_stamp(n),
{
    (n as i128 + i64::MIN as i128) as i64
}

/// The numbers of a frame as they are read.
struct Numbers {
    id: u64,
    seq_no: u64,
    timestamp: i64,
    role: FrameRole,
    status: FrameStatus,
    canonical_encoding: CanonicalEncoding,
    canonical_length: Option<u64>,
    payload_length: u64,
    checksum: u64,
    parent_id: Option<u64>,
    chunk_index: Option<u32>,
    chunk_count: Option<u32>,
}

/// The texts of a frame as they are read.
struct Named {
    uri: Option<String>,
    title: Option<String>,
    kind: Option<String>,
    track: Option<String>,
    search_text: Option<String>,
    metadata: Option<DocMetadata>,
    payload: Vec<u8>,
}

/// The numbers are those that the fixed part says.
spec fn numbers_match(n: Numbers, p: FixedPart) -> bool {
    &&& n.id == p.id
    &&& n.seq_no == p.seq_no
    &&& n.timestamp == p.timestamp
    &&& n.role == p.role
    &&& n.status == p.status
    &&& n.canonical_encoding == p.canonical_encoding
    &&& n.canonical_length == p.canonical_length
    &&& n.payload_length == p.payload_length
    &&& n.checksum == p.checksum
    &&& n.parent_id == p.parent_id
    &&& n.chunk_index == p.chunk_index
    &&& n.chunk_count == p.chunk_count
}

/// The texts are those that the fixed part says.
spec fn named_match(n: Named, p: FixedPart) -> bool {
    &&& opt_text(n.uri) == p.uri
    &&& opt_text(n.title) == p.title
    &&& opt_text(n.kind) == p.kind
    &&& opt_text(n.track) == p.track
    &&& opt_text(n.search_text) == p.search_text
    &&& opt_metadata(n.metadata) == p.metadata
    &&& n.payload@ == p.payload
}

/// Reads the numbers of the frame at `at`.
fn get_numbers(cells: &Vec<Cell>, at: usize) -> (r: Option<Numbers>)
    requires
        at + FIXED_CELLS <= cells.len(),
    ensures
        match r {
            Some(n) => numbers_ok(cell_views(cells@), at as int) && (texts_ok(
                cell_views(cells@),
                at as int,
            ) ==> numbers_match(n, fixed_at(cell_views(cells@), at as int)->0)),
            None => !numbers_ok(cell_views(cells@), at as int),
        },
{
    let id: u64 = match get_num(cells, at) {
        Some(v) => v,
        None => {
            return None;
        },
    };
    let seq_no: u64 = match get_num(cells, at + 1) {
        Some(v) => v,
        None => {
            return None;
        },
    };
    let stamp: u64 = match get_num(cells, at + 2) {
        Some(v) => v,
        None => {
            return None;
        },
    };
    let role: FrameRole = match get_num(cells, at + 3) {
        Some(v) => match role_of(v) {
            Some(r) => r,
            None => {
                return None;
            },
        },
        None => {
            return None;
        },
    };
    let status: FrameStatus = match get_num(cells, at + 4) {
        Some(v) => match status_of(v) {
            Some(r) => r,
            None => {
                return None;
            },
        },
        None => {
            return None;
        },
    };
    let canonical_encoding: CanonicalEncoding = match get_num(cells, at + 5) {
        Some(v) => match encoding_of(v) {
            Some(r) => r,
            None => {
                return None;
            },
        },
        None => {
            return None;
        },
    };
    let canonical_length: Option<u64> = match get_opt_num(cells, at + 6) {
        Some(v) => v,
        None => {
            return None;
        },
    };
    let payload_length: u64 = match get_num(cells, at + 8) {
        Some(v) => v,
        None => {
            return None;
        },
    };
    let sum: u64 = match get_num(cells, at + 9) {
        Some(v) => v,
        None => {
            return None;
        },
    };
    let parent_id: Option<u64> = match get_opt_num(cells, at + 10) {
        Some(v) => v,
        None => {
            return None;
        },
    };
    let chunk_index: Option<u32> = match get_opt_small(cells, at + 12) {
        Some(v) => v,
        None => {
            return None;
        },
    };
    let chunk_count: Option<u32> = match get_opt_small(cells, at + 14) {
        Some(v) => v,
        None => {
            return None;
        },
    };
    Some(
        Numbers {
            id,
            seq_no,
            timestamp: stamp_of(stamp),
            role,
            status,
            canonical_encoding,
            canonical_length,
            payload_length,
            checksum: sum,
            parent_id,
            chunk_index,
            chunk_count,
        },
    )
}

/// Reads the texts, the metadata and the bytes of the frame at `at`.
fn get_named(cells: &Vec<Cell>, at: usize) -> (r: Option<Named>)
    requires
        at + FIXED_CELLS <= cells.len(),
    ensures
        match r {
            Some(n) => texts_ok(cell_views(cells@), at as int) && (numbers_ok(
                cell_views(cells@),
                at as int,
            ) ==> named_match(n, fixed_at(cell_views(cells@), at as int)->0)),
            None => !texts_ok(cell_views(cells@), at as int),
        },
{
    let uri: Option<String> = match get_opt_text(cells, at + 16) {
        Some(v) => v,
        None => {
            return None;
        },
    };
    let title: Option<String> = match get_opt_text(cells, at + 18) {
        Some(v) => v,
        None => {
            return None;
        },
    };
    let kind: Option<String> = match get_opt_text(cells, at + 20) {
        Some(v) => v,
        None => {
            return None;
        },
    };
    let track: Option<String> = match get_opt_text(cells, at + 22) {
        Some(v) => v,
        None => {
            return None;
        },
    };
    let search_text: Option<String> = match get_opt_text(cells, at + 24) {
        Some(v) => v,
        None => {
            return None;
        },
    };
    let metadata: Option<DocMetadata> = match get_metadata(cells, at + 26) {
        Some(v) => v,
        None => {
            return None;
        },
    };
    let payload: Vec<u8> = match get_bytes(cells, at + 28) {
        Some(v) => v,
        None => {
            return None;
        },
    };
    Some(Named { uri, title, kind, track, search_text, metadata, payload })
}

/// Reads when the frame whose last cells stand at `at` left the active
/// state.
fn get_end(cells: &Vec<Cell>, at: usize) -> (r: Option<Option<Retirement>>)
    requires
        at <= cells.len(),
    ensures
        r == end_at(cell_views(cells@), at as int),
        r is Some ==> at + 3 <= cells.len(),
{
    if cells.len() - at < 3 {
        return None;
    }
    match (get_num(cells, at), get_num(cells, at + 1), get_num(cells, at + 2)) {
        (Some(flag), Some(seq_no), Some(stamp)) => if flag == 0 {
            Some(None)
        } else if flag == 1 {
            Some(Some(Retirement { seq_no, timestamp: stamp_of(stamp) }))
        } else {
            None
        },
        _ => None,
    }
}

/// Reads the frame at `at`, its canonical bytes, and where it ends.
fn get_frame(cells: &Vec<Cell>, at: usize) -> (r: Option<(Frame, Vec<u8>, usize)>)
    requires
        at <= cells.len(),
    ensures
        match r {
            Some(found) => frame_at(cell_views(cells@), at as int) == Some(
                (found.0@, found.1@, found.2 as int),
            ) && at < found.2 <= cells.len(),
            None => frame_at(cell_views(cells@), at as int) is None,
        },
{
    proof {
        reveal(frame_at);
    }
    let ghost cv = cell_views(cells@);
    if cells.len() - at < FIXED_CELLS {
        assert(bytes_at(cv, at + 28) is None);
        return None;
    }
    let numbers: Numbers = match get_numbers(cells, at) {
        Some(n) => n,
        None => {
            return None;
        },
    };
    let named: Named = match get_named(cells, at) {
        Some(n) => n,
        None => {
            return None;
        },
    };
    let (tags, a) = match get_texts(cells, at + FIXED_CELLS) {
        Some(found) => found,
        None => {
            return None;
        },
    };
    let (labels, b) = match get_texts(cells, a) {
        Some(found) => found,
        None => {
            return None;
        },
    };
    let (content_dates, c) = match get_texts(cells, b) {
        Some(found) => found,
        None => {
            return None;
        },
    };
    let (extra_metadata, d) = match get_pairs(cells, c) {
        Some(found) => found,
        None => {
            return None;
        },
    };
    let retired: Option<Retirement> = match get_end(cells, d) {
        Some(r) => r,
        None => {
            return None;
        },
    };
    let frame = Frame {
        id: numbers.id,
        seq_no: numbers.seq_no,
        timestamp: numbers.timestamp,
        role: numbers.role,
        status: numbers.status,
        canonical_encoding: numbers.canonical_encoding,
        canonical_length: numbers.canonical_length,
        payload_length: numbers.payload_length,
        checksum: numbers.checksum,
        uri: named.uri,
        title: named.title,
        kind: named.kind,
        track: named.track,
        tags,
        labels,
        extra_metadata,
        content_dates,
        parent_id: numbers.parent_id,
        chunk_index: numbers.chunk_index,
        chunk_count: numbers.chunk_count,
        search_text: named.search_text,
        metadata: named.metadata,
        retired,
    };
    Some((frame, named.payload, d + 3))
}

/// What the frames read so far and the frames that follow make together.
pub open spec fn joined_frames(
    frames: Seq<FrameView>,
    payloads: Seq<Seq<u8>>,
    rest: Option<(Seq<FrameView>, Seq<Seq<u8>>, int)>,
) -> Option<(Seq<FrameView>, Seq<Seq<u8>>, int)> {
    match rest {
        Some(r) => Some((frames + r.0, payloads + r.1, r.2)),
        None => None,
    }
}

/// Reads a log from its cells; nothing where they spell none.
pub fn cells_to_store(cells: &Vec<Cell>) -> (r: Option<(Vec<Frame>, Vec<Vec<u8>>, u64)>)
    ensures
        match r {
            Some(parts) => cells_store(cell_views(cells@)) == Some(
                image(parts.0@, parts.1@, parts.2),
            ),
            None => cells_store(cell_views(cells@)) is None,
        },
{
    let ghost cv = cell_views(cells@);
    match (get_num(cells, 0), get_num(cells, 1)) {
        (Some(magic), Some(version)) => {
            if magic != MAGIC || version != VERSION {
                return None;
            }
        },
        _ => {
            return None;
        },
    }
    let seq: u64 = match get_num(cells, 2) {
        Some(v) => v,
        None => {
            return None;
        },
    };
    let count: u64 = match get_num(cells, 3) {
        Some(v) => v,
        None => {
            return None;
        },
    };
    let mut frames: Vec<Frame> = Vec::new();
    let mut payloads: Vec<Vec<u8>> = Vec::new();
    let mut at: usize = 4;
    let mut k: u64 = 0;
    let ghost mut fs: Seq<FrameView> = Seq::empty();
    let ghost mut ps: Seq<Seq<u8>> = Seq::empty();
    proof {
        let rest = frames_at(cv, 4, count as nat);
        if rest is Some {
            let got = rest->0;
            assert(fs + got.0 =~= got.0);
            assert(ps + got.1 =~= got.1);
        }
    }
    while k < count
        invariant
            k <= count,
            4 <= at <= cells.len(),
            cv == cell_views(cells@),
            num_at(cv, 0) == Some(MAGIC),
            num_at(cv, 1) == Some(VERSION),
            num_at(cv, 2) == Some(seq),
            num_at(cv, 3) == Some(count),
            frames.len() == k,
            payloads.len() == k,
            fs == Seq::new(frames.len() as nat, |i: int| frames[i]@),
            ps == Seq::new(payloads.len() as nat, |i: int| payloads[i]@),
            frames_at(cv, 4, count as nat) == joined_frames(
                fs,
                ps,
                frames_at(cv, at as int, (count - k) as nat),
            ),
        decreases count - k,
    {
        match get_frame(cells, at) {
            None => {
                return None;
            },
            Some((frame, payload, next)) => {
                proof {
                    let f = frame@;
                    let p = payload@;
                    let rest = frames_at(cv, next as int, (count - k - 1) as nat);
                    if rest is Some {
                        let got = rest->0;
                        assert(fs + (seq![f] + got.0) =~= fs.push(f) + got.0);
                        assert(ps + (seq![p] + got.1) =~= ps.push(p) + got.1);
                    }
                    fs = fs.push(f);
                    ps = ps.push(p);
                }
                frames.push(frame);
                payloads.push(payload);
                at = next;
                k = k + 1;
                proof {
                    assert(fs =~= Seq::new(frames.len() as nat, |i: int| frames[i]@));
                    assert(ps =~= Seq::new(payloads.len() as nat, |i: int| payloads[i]@));
                }
            },
        }
    }
    if at != cells.len() {
        return None;
    }
    proof {
        assert(fs + Seq::<FrameView>::empty() =~= fs);
        assert(ps + Seq::<Seq<u8>>::empty() =~= ps);
    }
    Some((frames, payloads, seq))
}

impl FrameStore {
    /// Makes a store of the bytes of a container, with nothing pending.
    /// Bytes whose digest at the end does not match, that spell no log, or
    /// whose log is not well formed are refused as corrupt.
    pub fn from_bytes(bytes: &[u8]) -> (r: Result<FrameStore, ErrorKind>)
        ensures
            match r {
                Ok(store) => {
                    &&& bytes_store(bytes@) is Some
                    &&& model_wf(bytes_store(bytes@)->0)
                    &&& store.wf()
                    &&& store@ == bytes_store(bytes@)->0
                    &&& store.durable() == store@
                },
                Err(e) => e == ErrorKind::CorruptFrame && (bytes_store(bytes@) is None
                    || !model_wf(bytes_store(bytes@)->0)),
            },
    {
        if bytes.len() < 8 {
            return Err(ErrorKind::CorruptFrame);
        }
        let split: usize = bytes.len() - 8;
        let body: &[u8] = vstd::slice::slice_subrange(bytes, 0, split);
        if read_le(bytes, split) != checksum(body) {
            return Err(ErrorKind::CorruptFrame);
        }
        let cells: Vec<Cell> = match read_cells(body) {
            Some(cells) => cells,
            None => {
                return Err(ErrorKind::CorruptFrame);
            },
        };
        match cells_to_store(&cells) {
            Some((frames, payloads, seq)) => FrameStore::restore(frames, payloads, seq),
            None => Err(ErrorKind::CorruptFrame),
        }
    }
}

impl FrameStore {
    /// The bytes of the container: what is durable of the store, as cells,
    /// then the digest that marks the write as complete.
    pub fn to_bytes(&self) -> (bytes: Vec<u8>)
        requires
            self.wf(),
        ensures
            bytes@ == container_bytes(self.durable()),
            bytes_store(bytes@) == Some(self.durable()),
    {
        let parts = self.snapshot();
        proof {
            self.lemma_wf();
        }
        let cells: Vec<Cell> = store_to_cells(&parts.0, &parts.1, parts.2);
        let mut bytes: Vec<u8> = write_cells(&cells);
        let sum: u64 = checksum(bytes.as_slice());
        push_le(&mut bytes, sum);
        proof {
            let m = self.durable();
            assert forall|i: int| 0 <= i < m.frames.len() implies countable(
                #[trigger] m.frames[i],
            ) by {
                let f = parts.0[i];
                assert(m.frames[i] == f@);
                assert(f.tags.len() <= usize::MAX && f.labels.len() <= usize::MAX);
                assert(f.content_dates.len() <= usize::MAX);
                assert(f.extra_metadata.len() <= usize::MAX);
            }
            assert(m.frames.len() == parts.0.len());
            assert(m.payloads.len() == parts.1.len());
            assert(storable(m));
            assert forall|i: int| 0 <= i < cells.len() implies ((#[trigger] cell_views(
                cells@,
            )[i]) matches CellView::Bytes(b) ==> b.len() <= u64::MAX) by {
                match cells[i] {
                    Cell::Bytes(b) => {
                        assert(b.len() <= usize::MAX);
                    },
                    Cell::Num(_) => {},
                }
            }
            lemma_container_round_trip(m);
        }
        bytes
    }
}

} // verus!
