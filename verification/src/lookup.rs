//! Point lookups: a frame by id or by URI, rendered for a response, with
//! its canonical payload as base64 where asked for.

use crate::encoding::{base64_encode, base64_encoded, hex_encode, hex_text};
use crate::error::{describe, ErrorKind};
use crate::frame::{
    canonical_encoding_label, clone_metadata, encoding_label, frame_role_label, frame_status_label,
    opt_metadata, role_label, status_label, DocMetadata, DocMetadataView, Frame, FrameView,
};
use crate::model::{canonical_payload_spec, frame_by_id_spec, frame_by_uri_spec, StoreModel};
use crate::store::FrameStore;
use crate::text::{clone_opt, clone_pairs, clone_texts, opt_text, text_pairs, texts};
use crate::tools::{flag, reports, RequestError};
use vstd::prelude::*;

verus! {

/// A request for one frame: by id or by URI, never both.
#[derive(Clone, Debug)]
pub struct GetFrameRequest {
    pub frame_id: Option<u64>,
    pub uri: Option<String>,
    pub include_payload_base64: Option<bool>,
}

/// A frame as a response carries it.
#[derive(Clone, Debug)]
pub struct FrameOutput {
    pub frame_id: u64,
    pub timestamp: i64,
    pub kind: Option<String>,
    pub track: Option<String>,
    pub uri: Option<String>,
    pub title: Option<String>,
    pub role: String,
    pub status: String,
    pub canonical_encoding: String,
    pub canonical_length: Option<u64>,
    pub payload_length: u64,
    pub checksum_hex: String,
    pub tags: Vec<String>,
    pub labels: Vec<String>,
    pub extra_metadata: Vec<(String, String)>,
    pub content_dates: Vec<String>,
    pub parent_id: Option<u64>,
    pub chunk_index: Option<u32>,
    pub chunk_count: Option<u32>,
    pub search_text: Option<String>,
    pub metadata: Option<DocMetadata>,
}

/// The mathematical content of a [`FrameOutput`].
pub struct FrameOutputView {
    pub frame_id: u64,
    pub timestamp: i64,
    pub kind: Option<Seq<char>>,
    pub track: Option<Seq<char>>,
    pub uri: Option<Seq<char>>,
    pub title: Option<Seq<char>>,
    pub role: Seq<char>,
    pub status: Seq<char>,
    pub canonical_encoding: Seq<char>,
    pub canonical_length: Option<u64>,
    pub payload_length: u64,
    pub checksum_hex: Seq<char>,
    pub tags: Seq<Seq<char>>,
    pub labels: Seq<Seq<char>>,
    pub extra_metadata: Seq<(Seq<char>, Seq<char>)>,
    pub content_dates: Seq<Seq<char>>,
    pub parent_id: Option<u64>,
    pub chunk_index: Option<u32>,
    pub chunk_count: Option<u32>,
    pub search_text: Option<Seq<char>>,
    pub metadata: Option<DocMetadataView>,
}

impl View for FrameOutput {
    type V = FrameOutputView;

    open spec fn view(&self) -> FrameOutputView {
        FrameOutputView {
            frame_id: self.frame_id,
            timestamp: self.timestamp,
            kind: opt_text(self.kind),
            track: opt_text(self.track),
            uri: opt_text(self.uri),
            title: opt_text(self.title),
            role: self.role@,
            status: self.status@,
            canonical_encoding: self.canonical_encoding@,
            canonical_length: self.canonical_length,
            payload_length: self.payload_length,
            checksum_hex: self.checksum_hex@,
            tags: texts(self.tags@),
            labels: texts(self.labels@),
            extra_metadata: text_pairs(self.extra_metadata@),
            content_dates: texts(self.content_dates@),
            parent_id: self.parent_id,
            chunk_index: self.chunk_index,
            chunk_count: self.chunk_count,
            search_text: opt_text(self.search_text),
            metadata: opt_metadata(self.metadata),
        }
    }
}

/// The answer to a lookup.
#[derive(Clone, Debug)]
pub struct GetFrameResponse {
    pub frame: FrameOutput,
    pub payload_base64: Option<String>,
}

/// The eight bytes of a digest, the most significant first.
pub open spec fn digest_bytes(sum: u64) -> Seq<u8> {
    seq![
        (sum / 0x100_0000_0000_0000) as u8,
        (sum / 0x1_0000_0000_0000 % 256) as u8,
        (sum / 0x100_0000_0000 % 256) as u8,
        (sum / 0x1_0000_0000 % 256) as u8,
        (sum / 0x100_0000 % 256) as u8,
        (sum / 0x1_0000 % 256) as u8,
        (sum / 0x100 % 256) as u8,
        (sum % 256) as u8,
    ]
}

/// The frame as a response carries it: the same fields, the role, the
/// status and the encoding by their names, the digest in hexadecimal.
pub open spec fn frame_output(f: FrameView) -> FrameOutputView {
    FrameOutputView {
        frame_id: f.id,
        timestamp: f.timestamp,
        kind: f.kind,
        track: f.track,
        uri: f.uri,
        title: f.title,
        role: role_label(f.role),
        status: status_label(f.status),
        canonical_encoding: encoding_label(f.canonical_encoding),
        canonical_length: f.canonical_length,
        payload_length: f.payload_length,
        checksum_hex: hex_text(digest_bytes(f.checksum)),
        tags: f.tags,
        labels: f.labels,
        extra_metadata: f.extra_metadata,
        content_dates: f.content_dates,
        parent_id: f.parent_id,
        chunk_index: f.chunk_index,
        chunk_count: f.chunk_count,
        search_text: f.search_text,
        metadata: f.metadata,
    }
}

/// The eight bytes of a digest, the most significant first.
pub fn checksum_bytes(sum: u64) -> (bytes: Vec<u8>)
    ensures
        bytes@ == digest_bytes(sum),
{
    let mut bytes: Vec<u8> = Vec::new();
    bytes.push((sum / 0x100_0000_0000_0000) as u8);
    bytes.push((sum / 0x1_0000_0000_0000 % 256) as u8);
    bytes.push((sum / 0x100_0000_0000 % 256) as u8);
    bytes.push((sum / 0x1_0000_0000 % 256) as u8);
    bytes.push((sum / 0x100_0000 % 256) as u8);
    bytes.push((sum / 0x1_0000 % 256) as u8);
    bytes.push((sum / 0x100 % 256) as u8);
    bytes.push((sum % 256) as u8);
    assert(bytes@ =~= digest_bytes(sum));
    bytes
}

impl FrameOutput {
    /// Renders a frame for a response. It never fails.
    pub fn try_from_frame(frame: &Frame) -> (r: Result<FrameOutput, String>)
        ensures
            r is Ok,
            r->Ok_0@ == frame_output(frame@),
    {
        let sum: Vec<u8> = checksum_bytes(frame.checksum);
        Ok(
            FrameOutput {
                frame_id: frame.id,
                timestamp: frame.timestamp,
                kind: clone_opt(&frame.kind),
                track: clone_opt(&frame.track),
                uri: clone_opt(&frame.uri),
                title: clone_opt(&frame.title),
                role: frame_role_label(frame.role).to_string(),
                status: frame_status_label(frame.status).to_string(),
                canonical_encoding: canonical_encoding_label(frame.canonical_encoding).to_string(),
                canonical_length: frame.canonical_length,
                payload_length: frame.payload_length,
                checksum_hex: hex_encode(sum.as_slice()),
                tags: clone_texts(&frame.tags),
                labels: clone_texts(&frame.labels),
                extra_metadata: clone_pairs(&frame.extra_metadata),
                content_dates: clone_texts(&frame.content_dates),
                parent_id: frame.parent_id,
                chunk_index: frame.chunk_index,
                chunk_count: frame.chunk_count,
                search_text: clone_opt(&frame.search_text),
                metadata: clone_metadata(&frame.metadata),
            },
        )
    }
}

/// Whether a payload of `len` bytes can be rendered as base64.
pub open spec fn encodable(len: nat) -> bool {
    (len / 3 + 1) * 4 <= usize::MAX
}

/// The frame that a request names.
pub open spec fn requested_frame(m: StoreModel, request: GetFrameRequest) -> Result<
    FrameView,
    RequestError,
> {
    if (request.frame_id is Some) == (request.uri is Some) {
        Err(RequestError::FrameOrUri)
    } else {
        let found = match request.frame_id {
            Some(id) => frame_by_id_spec(m, id),
            None => frame_by_uri_spec(m, request.uri->0@),
        };
        match found {
            Ok(f) => Ok(f),
            Err(kind) => Err(RequestError::Store(kind)),
        }
    }
}

/// What a lookup returns: the frame, and its canonical payload as base64
/// where the request asks for it.
pub open spec fn get_frame_spec(m: StoreModel, request: GetFrameRequest) -> Result<
    (FrameOutputView, Option<Seq<char>>),
    RequestError,
> {
    match requested_frame(m, request) {
        Err(e) => Err(e),
        Ok(f) => if flag(request.include_payload_base64) {
            match canonical_payload_spec(m, f.id) {
                Err(kind) => Err(RequestError::Store(kind)),
                Ok(bytes) => if encodable(bytes.len()) {
                    Ok((frame_output(f), Some(base64_encoded(bytes))))
                } else {
                    Err(RequestError::TooLarge)
                },
            }
        } else {
            Ok((frame_output(f), None))
        },
    }
}

/// Renders a payload as base64, where its length allows.
pub fn encode_payload(bytes: &Vec<u8>) -> (r: Option<String>)
    ensures
        match r {
            Some(text) => encodable(bytes@.len()) && text@ == base64_encoded(bytes@),
            None => !encodable(bytes@.len()),
        },
{
    if bytes.len() / 3 < usize::MAX / 4 {
        assert((bytes@.len() / 3 + 1) * 4 <= usize::MAX) by (nonlinear_arith)
            requires
                bytes@.len() / 3 < usize::MAX / 4,
        ;
        Some(base64_encode(bytes.as_slice()))
    } else {
        assert((bytes@.len() / 3 + 1) * 4 > usize::MAX) by (nonlinear_arith)
            requires
                bytes@.len() / 3 >= usize::MAX / 4,
                usize::MAX % 4 == 3,
        ;
        None
    }
}

/// Fetches a frame by id or by URI.
pub fn memvid_get_frame(store: &FrameStore, request: &GetFrameRequest) -> (r: Result<
    GetFrameResponse,
    String,
>)
    requires
        store.wf(),
    ensures
        match get_frame_spec(store@, *request) {
            Ok(found) => {
                &&& r is Ok
                &&& r->Ok_0.frame@ == found.0
                &&& opt_text(r->Ok_0.payload_base64) == found.1
            },
            Err(e) => r is Err && reports(r->Err_0@, e),
        },
{
    let include_payload: bool = match request.include_payload_base64 {
        Some(b) => b,
        None => false,
    };
    if request.frame_id.is_some() == request.uri.is_some() {
        return Err("provide exactly one of frame_id or uri".to_string());
    }
    let found: Result<Frame, ErrorKind> = match request.frame_id {
        Some(id) => store.frame_by_id(id),
        None => match &request.uri {
            Some(uri) => store.frame_by_uri(uri.as_str()),
            None => Err(ErrorKind::NotFound),
        },
    };
    let frame: Frame = match found {
        Ok(f) => f,
        Err(kind) => {
            return Err(describe(kind).to_string());
        },
    };
    let payload_base64: Option<String> = if include_payload {
        let payload: Vec<u8> = match store.frame_canonical_payload(frame.id) {
            Ok(bytes) => bytes,
            Err(kind) => {
                return Err(describe(kind).to_string());
            },
        };
        match encode_payload(&payload) {
            Some(text) => Some(text),
            None => {
                return Err("payload is too large to encode".to_string());
            },
        }
    } else {
        None
    };
    match FrameOutput::try_from_frame(&frame) {
        Ok(output) => Ok(GetFrameResponse { frame: output, payload_base64 }),
        Err(e) => Err(e),
    }
}

} // verus!
