//! The frame: one versioned, checksummed record of the store.

use crate::text::{clone_opt, clone_pairs, clone_texts, opt_text, text_pairs, texts};
use vstd::prelude::*;

verus! {

/// What a frame's payload represents.
#[derive(Clone, Copy, Debug, PartialEq, Eq, Structural)]
pub enum FrameRole {
    Document,
    DocumentChunk,
    ExtractedImage,
}

/// Where a frame stands in its life: `Active` until an update supersedes it
/// or a delete marks it; the other two states are final.
#[derive(Clone, Copy, Debug, PartialEq, Eq, Structural)]
pub enum FrameStatus {
    Active,
    Superseded,
    Deleted,
}

/// How the stored canonical bytes of a frame are encoded.
#[derive(Clone, Copy, Debug, PartialEq, Eq, Structural)]
pub enum CanonicalEncoding {
    Plain,
    Zstd,
}

/// When a frame left the active state: the sequence number and the time
/// of the write that superseded or deleted it.
#[derive(Clone, Copy, Debug, PartialEq, Eq, Structural)]
pub struct Retirement {
    pub seq_no: u64,
    pub timestamp: i64,
}

/// Structured metadata of a document.
#[derive(Clone, Debug)]
pub struct DocMetadata {
    pub mime: Option<String>,
}

/// The mathematical content of a [`DocMetadata`].
pub struct DocMetadataView {
    pub mime: Option<Seq<char>>,
}

impl View for DocMetadata {
    type V = DocMetadataView;

    open spec fn view(&self) -> DocMetadataView {
        DocMetadataView { mime: opt_text(self.mime) }
    }
}

/// The metadata of an optional record.
pub open spec fn opt_metadata(o: Option<DocMetadata>) -> Option<DocMetadataView> {
    match o {
        Some(m) => Some(m@),
        None => None,
    }
}

/// One record of the store.
#[derive(Clone, Debug)]
pub struct Frame {
    pub id: u64,
    pub seq_no: u64,
    pub timestamp: i64,
    pub role: FrameRole,
    pub status: FrameStatus,
    pub canonical_encoding: CanonicalEncoding,
    pub canonical_length: Option<u64>,
    pub payload_length: u64,
    pub checksum: u64,
    pub uri: Option<String>,
    pub title: Option<String>,
    pub kind: Option<String>,
    pub track: Option<String>,
    pub tags: Vec<String>,
    pub labels: Vec<String>,
    pub extra_metadata: Vec<(String, String)>,
    pub content_dates: Vec<String>,
    pub parent_id: Option<u64>,
    pub chunk_index: Option<u32>,
    pub chunk_count: Option<u32>,
    pub search_text: Option<String>,
    pub metadata: Option<DocMetadata>,
    /// When the frame left the active state, if it has.
    pub retired: Option<Retirement>,
}

/// The mathematical content of a [`Frame`].
pub struct FrameView {
    pub id: u64,
    pub seq_no: u64,
    pub timestamp: i64,
    pub role: FrameRole,
    pub status: FrameStatus,
    pub canonical_encoding: CanonicalEncoding,
    pub canonical_length: Option<u64>,
    pub payload_length: u64,
    pub checksum: u64,
    pub uri: Option<Seq<char>>,
    pub title: Option<Seq<char>>,
    pub kind: Option<Seq<char>>,
    pub track: Option<Seq<char>>,
    pub tags: Seq<Seq<char>>,
    pub labels: Seq<Seq<char>>,
    pub extra_metadata: Seq<(Seq<char>, Seq<char>)>,
    pub content_dates: Seq<Seq<char>>,
    pub parent_id: Option<u64>,
    pub chunk_index: Option<u32>,
    pub chunk_count: Option<u32>,
    pub search_text: Option<Seq<char>>,
    pub metadata: Option<DocMetadataView>,
    pub retired: Option<Retirement>,
}

impl View for Frame {
    type V = FrameView;

    open spec fn view(&self) -> FrameView {
        FrameView {
            id: self.id,
            seq_no: self.seq_no,
            timestamp: self.timestamp,
            role: self.role,
            status: self.status,
            canonical_encoding: self.canonical_encoding,
            canonical_length: self.canonical_length,
            payload_length: self.payload_length,
            checksum: self.checksum,
            uri: opt_text(self.uri),
            title: opt_text(self.title),
            kind: opt_text(self.kind),
            track: opt_text(self.track),
            tags: texts(self.tags@),
            labels: texts(self.labels@),
            extra_metadata: text_pairs(self.extra_metadata@),
            content_dates: texts(self.content_dates@),
            parent_id: self.parent_id,
            chunk_index: self.chunk_index,
            chunk_count: self.chunk_count,
            search_text: opt_text(self.search_text),
            metadata: opt_metadata(self.metadata),
            retired: self.retired,
        }
    }
}

impl FrameView {
    /// This record at another point of its life: in the state `status`,
    /// which it reached as `retired` says.
    pub open spec fn at_stage(self, status: FrameStatus, retired: Option<Retirement>) -> FrameView {
        FrameView { status, retired, ..self }
    }
}

/// The text of a role in responses.
pub open spec fn role_label(role: FrameRole) -> Seq<char> {
    match role {
        FrameRole::Document => "document"@,
        FrameRole::DocumentChunk => "document_chunk"@,
        FrameRole::ExtractedImage => "extracted_image"@,
    }
}

/// The text of a status in responses.
pub open spec fn status_label(status: FrameStatus) -> Seq<char> {
    match status {
        FrameStatus::Active => "active"@,
        FrameStatus::Superseded => "superseded"@,
        FrameStatus::Deleted => "deleted"@,
    }
}

/// The text of an encoding in responses.
pub open spec fn encoding_label(encoding: CanonicalEncoding) -> Seq<char> {
    match encoding {
        CanonicalEncoding::Plain => "plain"@,
        CanonicalEncoding::Zstd => "zstd"@,
    }
}

/// Names a role.
pub fn frame_role_label(role: FrameRole) -> (label: &'static str)
    ensures
        label@ == role_label(role),
{
    match role {
        FrameRole::Document => "document",
        FrameRole::DocumentChunk => "document_chunk",
        FrameRole::ExtractedImage => "extracted_image",
    }
}

/// Names a status.
pub fn frame_status_label(status: FrameStatus) -> (label: &'static str)
    ensures
        label@ == status_label(status),
{
    match status {
        FrameStatus::Active => "active",
        FrameStatus::Superseded => "superseded",
        FrameStatus::Deleted => "deleted",
    }
}

/// Names an encoding.
pub fn canonical_encoding_label(encoding: CanonicalEncoding) -> (label: &'static str)
    ensures
        label@ == encoding_label(encoding),
{
    match encoding {
        CanonicalEncoding::Plain => "plain",
        CanonicalEncoding::Zstd => "zstd",
    }
}

/// A copy of optional document metadata.
pub fn clone_metadata(o: &Option<DocMetadata>) -> (r: Option<DocMetadata>)
    ensures
        opt_metadata(r) == opt_metadata(*o),
{
    match o {
        Some(m) => Some(DocMetadata { mime: clone_opt(&m.mime) }),
        None => None,
    }
}

/// A copy of a frame.
pub fn clone_frame(f: &Frame) -> (r: Frame)
    ensures
        r@ == f@,
{
    Frame {
        id: f.id,
        seq_no: f.seq_no,
        timestamp: f.timestamp,
        role: f.role,
        status: f.status,
        canonical_encoding: f.canonical_encoding,
        canonical_length: f.canonical_length,
        payload_length: f.payload_length,
        checksum: f.checksum,
        uri: clone_opt(&f.uri),
        title: clone_opt(&f.title),
        kind: clone_opt(&f.kind),
        track: clone_opt(&f.track),
        tags: clone_texts(&f.tags),
        labels: clone_texts(&f.labels),
        extra_metadata: clone_pairs(&f.extra_metadata),
        content_dates: clone_texts(&f.content_dates),
        parent_id: f.parent_id,
        chunk_index: f.chunk_index,
        chunk_count: f.chunk_count,
        search_text: clone_opt(&f.search_text),
        metadata: clone_metadata(&f.metadata),
        retired: f.retired,
    }
}

} // verus!
