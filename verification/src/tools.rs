//! The operations that callers reach the store through: each takes a request
//! in plain values, checks it, runs it on the store and renders the answer.

use crate::cursor::{cursor_error_text, CursorError};
use crate::encoding::{base64_decode, base64_decoded, decode_error_text, trim_text, trimmed};
use crate::error::{describe, error_text, ErrorKind};
use crate::frame::{DocMetadata, DocMetadataView};
use crate::model::{delete_spec, put_spec, update_spec, StoreModel};
use crate::options::{default_options, PutOptions, PutOptionsView};
use crate::store::{payload_view, FrameStore};
use crate::text::{opt_text, text_pairs, texts};
use vstd::prelude::*;
use vstd::string::{StrSliceExecFns, StringExecFns};
use vstd::utf8::encode_utf8;

verus! {

/// The version that a created container reports.
pub const STORE_VERSION: &'static str = "0.1.0";

/// The options of a put or an update as a request carries them: what is
/// left out takes its default.
#[derive(Clone, Debug)]
pub struct PutOptionsInput {
    pub timestamp: Option<i64>,
    pub track: Option<String>,
    pub kind: Option<String>,
    pub uri: Option<String>,
    pub title: Option<String>,
    pub search_text: Option<String>,
    pub tags: Option<Vec<String>>,
    pub labels: Option<Vec<String>>,
    pub extra_metadata: Option<Vec<(String, String)>>,
    pub enable_embedding: Option<bool>,
    pub auto_tag: Option<bool>,
    pub extract_dates: Option<bool>,
    pub extract_triplets: Option<bool>,
    pub no_raw: Option<bool>,
    pub source_path: Option<String>,
    pub dedup: Option<bool>,
    pub instant_index: Option<bool>,
    pub extraction_budget_ms: Option<u64>,
}

/// The flag, or `false` where none is given.
pub open spec fn flag(given: Option<bool>) -> bool {
    match given {
        Some(b) => b,
        None => false,
    }
}

impl PutOptionsInput {
    /// Nothing is given.
    pub open spec fn is_blank(self) -> bool {
        &&& self.timestamp is None
        &&& self.track is None
        &&& self.kind is None
        &&& self.uri is None
        &&& self.title is None
        &&& self.search_text is None
        &&& self.tags is None
        &&& self.labels is None
        &&& self.extra_metadata is None
        &&& self.enable_embedding is None
        &&& self.auto_tag is None
        &&& self.extract_dates is None
        &&& self.extract_triplets is None
        &&& self.no_raw is None
        &&& self.source_path is None
        &&& self.dedup is None
        &&& self.instant_index is None
        &&& self.extraction_budget_ms is None
    }

    /// The options that the input stands for: each given field, and the
    /// default of each field that is left out.
    pub open spec fn options_view(self) -> PutOptionsView {
        PutOptionsView {
            timestamp: self.timestamp,
            track: opt_text(self.track),
            kind: opt_text(self.kind),
            uri: opt_text(self.uri),
            title: opt_text(self.title),
            search_text: opt_text(self.search_text),
            tags: match self.tags {
                Some(t) => texts(t@),
                None => Seq::empty(),
            },
            labels: match self.labels {
                Some(t) => texts(t@),
                None => Seq::empty(),
            },
            extra_metadata: match self.extra_metadata {
                Some(t) => text_pairs(t@),
                None => Seq::empty(),
            },
            metadata: None,
            enable_embedding: flag(self.enable_embedding),
            auto_tag: flag(self.auto_tag),
            extract_dates: flag(self.extract_dates),
            extract_triplets: flag(self.extract_triplets),
            no_raw: flag(self.no_raw),
            source_path: opt_text(self.source_path),
            dedup: flag(self.dedup),
            instant_index: flag(self.instant_index),
            extraction_budget_ms: match self.extraction_budget_ms {
                Some(b) => b,
                None => 0,
            },
        }
    }

    /// Turns the input into the options of the store: the defaults, each
    /// overridden by what the input gives.
    pub fn into_put_options(self) -> (options: PutOptions)
        ensures
            options@ == self.options_view(),
    {
        let base: PutOptions = PutOptions::default();
        PutOptions {
            timestamp: self.timestamp,
            track: self.track,
            kind: self.kind,
            uri: self.uri,
            title: self.title,
            search_text: self.search_text,
            tags: list_or(self.tags, base.tags),
            labels: list_or(self.labels, base.labels),
            extra_metadata: pairs_or_default(self.extra_metadata, base.extra_metadata),
            metadata: None,
            enable_embedding: flag_or(self.enable_embedding, base.enable_embedding),
            auto_tag: flag_or(self.auto_tag, base.auto_tag),
            extract_dates: flag_or(self.extract_dates, base.extract_dates),
            extract_triplets: flag_or(self.extract_triplets, base.extract_triplets),
            no_raw: flag_or(self.no_raw, base.no_raw),
            source_path: self.source_path,
            dedup: flag_or(self.dedup, base.dedup),
            instant_index: flag_or(self.instant_index, base.instant_index),
            extraction_budget_ms: match self.extraction_budget_ms {
                Some(b) => b,
                None => base.extraction_budget_ms,
            },
        }
    }
}

/// The given flag, or the default where none is given.
fn flag_or(given: Option<bool>, default: bool) -> (r: bool)
    ensures
        r == (match given {
            Some(b) => b,
            None => default,
        }),
{
    match given {
        Some(b) => b,
        None => default,
    }
}

/// The given list, or the default where none is given.
fn list_or(given: Option<Vec<String>>, default: Vec<String>) -> (r: Vec<String>)
    ensures
        texts(r@) == (match given {
            Some(t) => texts(t@),
            None => texts(default@),
        }),
{
    match given {
        Some(t) => t,
        None => default,
    }
}

/// The given pairs, or the default where none are given.
fn pairs_or_default(given: Option<Vec<(String, String)>>, default: Vec<(String, String)>) -> (r:
    Vec<(String, String)>)
    ensures
        text_pairs(r@) == (match given {
            Some(t) => text_pairs(t@),
            None => text_pairs(default@),
        }),
{
    match given {
        Some(t) => t,
        None => default,
    }
}

impl Default for PutOptionsInput {
    fn default() -> (input: PutOptionsInput)
        ensures
            input.is_blank(),
    {
        PutOptionsInput {
            timestamp: None,
            track: None,
            kind: None,
            uri: None,
            title: None,
            search_text: None,
            tags: None,
            labels: None,
            extra_metadata: None,
            enable_embedding: None,
            auto_tag: None,
            extract_dates: None,
            extract_triplets: None,
            no_raw: None,
            source_path: None,
            dedup: None,
            instant_index: None,
            extraction_budget_ms: None,
        }
    }
}

/// Why a request is refused.
pub enum RequestError {
    /// Text content came with base64 data.
    DataWithText,
    /// Text content came without a text.
    TextMissing,
    /// Base64 content came with a text.
    TextWithData,
    /// Base64 content came without data.
    DataMissing,
    /// The base64 data does not decode; the decoder's words follow the message.
    BadBase64,
    /// An update gave both a text and base64 data.
    BothPayloads,
    /// A lookup gave both a frame id and a URI, or neither.
    FrameOrUri,
    /// A search asked for no hits.
    ZeroTopK,
    /// A timeline page asked for no entries.
    ZeroLimit,
    /// The cursor of a timeline page is malformed.
    Cursor(CursorError),
    /// The store refused the operation.
    Store(ErrorKind),
    /// The store has handed out its last sequence number.
    Exhausted,
    /// The payload is too long to be rendered as base64.
    TooLarge,
    /// Neither the request nor the fallback names a container.
    PathRequired,
    /// A container already exists at the path.
    Exists(Seq<char>),
    /// No container exists at the path.
    Missing(Seq<char>),
}

/// The message of a refusal.
pub open spec fn request_error_text(e: RequestError) -> Seq<char> {
    match e {
        RequestError::DataWithText => "content.data_base64 must be empty when kind=text"@,
        RequestError::TextMissing => "content.text is required when kind=text"@,
        RequestError::TextWithData => "content.text must be empty when kind=base64"@,
        RequestError::DataMissing => "content.data_base64 is required when kind=base64"@,
        RequestError::BadBase64 => "invalid base64 payload: "@,
        RequestError::BothPayloads => "provide only one of text or data_base64"@,
        RequestError::FrameOrUri => "provide exactly one of frame_id or uri"@,
        RequestError::ZeroTopK => "top_k must be greater than 0"@,
        RequestError::ZeroLimit => "limit must be greater than 0"@,
        RequestError::Cursor(e) => cursor_error_text(e),
        RequestError::Store(kind) => error_text(kind),
        RequestError::Exhausted => "sequence numbers are exhausted"@,
        RequestError::TooLarge => "payload is too large to encode"@,
        RequestError::PathRequired => "path is required or set MEMVID_DEFAULT_PATH"@,
        RequestError::Exists(path) => "memvid file already exists at "@ + path,
        RequestError::Missing(path) => "memvid file not found at "@ + path,
    }
}

/// Whether `text` is the message of the refusal `e`. For base64 data that
/// does not decode, the message is followed by what the decoder says.
pub open spec fn reports(text: Seq<char>, e: RequestError) -> bool {
    if e is BadBase64 {
        request_error_text(e).is_prefix_of(text)
    } else {
        text == request_error_text(e)
    }
}

/// How the content of a put is given.
#[derive(Clone, Copy, Debug, PartialEq, Eq, Structural)]
pub enum PutContentKind {
    Text,
    Base64,
}

/// The content of a put.
#[derive(Clone, Debug)]
pub struct PutContent {
    pub kind: PutContentKind,
    pub text: Option<String>,
    pub data_base64: Option<String>,
    pub mime: Option<String>,
}

/// A request to put content into the store.
#[derive(Clone, Debug)]
pub struct PutRequest {
    pub content: PutContent,
    pub options: Option<PutOptionsInput>,
    /// Whether to commit after the write; yes where left out.
    pub commit: Option<bool>,
    /// Whether a missing container is created when the store is opened.
    pub create_if_missing: Option<bool>,
}

/// The answer to a put.
#[derive(Clone, Copy, Debug, PartialEq, Eq, Structural)]
pub struct PutResponse {
    pub seq_no: u64,
    pub committed: bool,
}

/// A request to update a frame.
#[derive(Clone, Debug)]
pub struct UpdateFrameRequest {
    pub frame_id: u64,
    pub text: Option<String>,
    pub data_base64: Option<String>,
    pub options: Option<PutOptionsInput>,
    pub commit: Option<bool>,
}

/// The answer to an update.
#[derive(Clone, Copy, Debug, PartialEq, Eq, Structural)]
pub struct UpdateFrameResponse {
    pub frame_id: u64,
    pub seq_no: u64,
    pub committed: bool,
}

/// A request to delete a frame.
#[derive(Clone, Copy, Debug, PartialEq, Eq, Structural)]
pub struct DeleteFrameRequest {
    pub frame_id: u64,
    pub commit: Option<bool>,
}

/// The answer to a delete.
#[derive(Clone, Copy, Debug, PartialEq, Eq, Structural)]
pub struct DeleteFrameResponse {
    pub frame_id: u64,
    pub seq_no: u64,
    pub committed: bool,
}

/// The answer to the creation of a container.
#[derive(Clone, Debug)]
pub struct CreateResponse {
    pub path: String,
    pub version: String,
}

/// Whether a write is committed: yes, unless the request says no.
pub open spec fn commits(given: Option<bool>) -> bool {
    match given {
        Some(b) => b,
        None => true,
    }
}

/// The options that a request carries, or the defaults where it has none.
pub open spec fn request_options(given: Option<PutOptionsInput>) -> PutOptionsView {
    match given {
        Some(input) => input.options_view(),
        None => default_options(),
    }
}

/// The options once the MIME type of the content is recorded, unless the
/// options name one already.
pub open spec fn with_mime(o: PutOptionsView, mime: Option<Seq<char>>) -> PutOptionsView {
    match mime {
        None => o,
        Some(m) => match o.metadata {
            Some(metadata) => if metadata.mime is None {
                PutOptionsView { metadata: Some(DocMetadataView { mime: Some(m) }), ..o }
            } else {
                o
            },
            None => PutOptionsView { metadata: Some(DocMetadataView { mime: Some(m) }), ..o },
        },
    }
}

/// The bytes that base64 text decodes to, or the refusal.
pub open spec fn decoded_payload(data: Seq<char>) -> Result<Seq<u8>, RequestError> {
    match base64_decoded(encode_utf8(data)) {
        Some(bytes) => Ok(bytes),
        None => Err(RequestError::BadBase64),
    }
}

/// The payload that the content of a put stands for: the bytes of the
/// text, or what the base64 data decodes to; each kind excludes the field
/// of the other and needs its own.
pub open spec fn content_payload_spec(
    kind: PutContentKind,
    text: Option<Seq<char>>,
    data: Option<Seq<char>>,
) -> Result<Seq<u8>, RequestError> {
    match kind {
        PutContentKind::Text => if data is Some {
            Err(RequestError::DataWithText)
        } else if text is None {
            Err(RequestError::TextMissing)
        } else {
            Ok(encode_utf8(text->0))
        },
        PutContentKind::Base64 => if text is Some {
            Err(RequestError::TextWithData)
        } else if data is None {
            Err(RequestError::DataMissing)
        } else {
            decoded_payload(data->0)
        },
    }
}

/// The payload that an update carries: none, the bytes of the text, or
/// what the base64 data decodes to; never both.
pub open spec fn update_payload_spec(text: Option<Seq<char>>, data: Option<Seq<char>>) -> Result<
    Option<Seq<u8>>,
    RequestError,
> {
    if text is Some && data is Some {
        Err(RequestError::BothPayloads)
    } else if text is Some {
        Ok(Some(encode_utf8(text->0)))
    } else if data is Some {
        match decoded_payload(data->0) {
            Ok(bytes) => Ok(Some(bytes)),
            Err(e) => Err(e),
        }
    } else {
        Ok(None)
    }
}

/// What a write through a request makes of the log: the store's own
/// outcome, or the refusal of a store that has no sequence number left.
pub open spec fn guarded(m: StoreModel, outcome: Result<(StoreModel, u64), ErrorKind>) -> Result<
    (StoreModel, u64),
    RequestError,
> {
    if m.seq == u64::MAX {
        Err(RequestError::Exhausted)
    } else {
        match outcome {
            Ok(next) => Ok(next),
            Err(kind) => Err(RequestError::Store(kind)),
        }
    }
}

/// What a put request makes of the log, and the sequence number it reports.
pub open spec fn put_request_spec(m: StoreModel, request: PutRequest, now: i64) -> Result<
    (StoreModel, u64),
    RequestError,
> {
    let o = with_mime(request_options(request.options), opt_text(request.content.mime));
    match content_payload_spec(
        request.content.kind,
        opt_text(request.content.text),
        opt_text(request.content.data_base64),
    ) {
        Err(e) => Err(e),
        Ok(bytes) => guarded(m, put_spec(m, bytes, o, now)),
    }
}

/// What an update request makes of the log, and the sequence number it reports.
pub open spec fn update_request_spec(m: StoreModel, request: UpdateFrameRequest, now: i64)
    -> Result<(StoreModel, u64), RequestError> {
    match update_payload_spec(opt_text(request.text), opt_text(request.data_base64)) {
        Err(e) => Err(e),
        Ok(payload) => guarded(
            m,
            update_spec(m, request.frame_id, payload, request_options(request.options), now),
        ),
    }
}

/// The message for a refusal of the store.
fn store_error(kind: ErrorKind) -> (text: String)
    ensures
        reports(text@, RequestError::Store(kind)),
{
    describe(kind).to_string()
}

/// Decodes base64 text.
fn decode_payload(data: &str) -> (r: Result<Vec<u8>, String>)
    ensures
        match decoded_payload(data@) {
            Ok(bytes) => r is Ok && r->Ok_0@ == bytes,
            Err(e) => r is Err && reports(r->Err_0@, e),
        },
{
    match base64_decode(data.as_bytes()) {
        Ok(bytes) => Ok(bytes),
        Err(error) => {
            let mut text: String = "invalid base64 payload: ".to_string();
            let ghost prefix = text@;
            let detail: String = decode_error_text(&error);
            text.append(detail.as_str());
            assert(prefix =~= text@.subrange(0, prefix.len() as int));
            Err(text)
        },
    }
}

/// The options of a request, or the defaults where it has none.
fn options_of(given: Option<PutOptionsInput>) -> (options: PutOptions)
    ensures
        options@ == request_options(given),
{
    match given {
        Some(input) => input.into_put_options(),
        None => PutOptions::default(),
    }
}

/// Records the MIME type of the content in the options, unless they name
/// one already.
pub fn record_mime(options: PutOptions, mime: Option<String>) -> (r: PutOptions)
    ensures
        r@ == with_mime(options@, opt_text(mime)),
{
    let mut options = options;
    match mime {
        None => options,
        Some(m) => {
            let ghost before = options@;
            let metadata: DocMetadata = match options.metadata {
                Some(metadata) => if metadata.mime.is_none() {
                    DocMetadata { mime: Some(m) }
                } else {
                    metadata
                },
                None => DocMetadata { mime: Some(m) },
            };
            options.metadata = Some(metadata);
            options
        },
    }
}

/// The payload that the content of a put stands for.
pub fn content_payload(
    kind: PutContentKind,
    text: Option<String>,
    data_base64: Option<String>,
) -> (r: Result<Vec<u8>, String>)
    ensures
        match content_payload_spec(kind, opt_text(text), opt_text(data_base64)) {
            Ok(bytes) => r is Ok && r->Ok_0@ == bytes,
            Err(e) => r is Err && reports(r->Err_0@, e),
        },
{
    match kind {
        PutContentKind::Text => {
            if data_base64.is_some() {
                return Err("content.data_base64 must be empty when kind=text".to_string());
            }
            match text {
                Some(t) => Ok(t.as_str().as_bytes_vec()),
                None => Err("content.text is required when kind=text".to_string()),
            }
        },
        PutContentKind::Base64 => {
            if text.is_some() {
                return Err("content.text must be empty when kind=base64".to_string());
            }
            match data_base64 {
                Some(encoded) => decode_payload(encoded.as_str()),
                None => Err("content.data_base64 is required when kind=base64".to_string()),
            }
        },
    }
}

/// The payload that an update carries.
pub fn update_payload(text: Option<String>, data_base64: Option<String>) -> (r: Result<
    Option<Vec<u8>>,
    String,
>)
    ensures
        match update_payload_spec(opt_text(text), opt_text(data_base64)) {
            Ok(payload) => r is Ok && payload_view(r->Ok_0) == payload,
            Err(e) => r is Err && reports(r->Err_0@, e),
        },
{
    match (text, data_base64) {
        (Some(_), Some(_)) => Err("provide only one of text or data_base64".to_string()),
        (Some(t), None) => Ok(Some(t.as_str().as_bytes_vec())),
        (None, Some(encoded)) => match decode_payload(encoded.as_str()) {
            Ok(bytes) => Ok(Some(bytes)),
            Err(e) => Err(e),
        },
        (None, None) => Ok(None),
    }
}

/// Puts the content of `request` into the store and commits, unless the
/// request says not to. A refusal leaves the store as it was.
pub fn memvid_put(store: &mut FrameStore, request: PutRequest, now: i64) -> (r: Result<
    PutResponse,
    String,
>)
    requires
        old(store).wf(),
    ensures
        final(store).wf(),
        match put_request_spec(old(store)@, request, now) {
            Ok(next) => {
                &&& r == Ok::<PutResponse, String>(
                    PutResponse { seq_no: next.1, committed: commits(request.commit) },
                )
                &&& final(store)@ == next.0
                &&& final(store).durable() == (if commits(request.commit) {
                    next.0
                } else {
                    old(store).durable()
                })
            },
            Err(e) => {
                &&& r is Err
                &&& reports(r->Err_0@, e)
                &&& final(store)@ == old(store)@
                &&& final(store).durable() == old(store).durable()
            },
        },
{
    let commit: bool = match request.commit {
        Some(b) => b,
        None => true,
    };
    let options: PutOptions = record_mime(options_of(request.options), request.content.mime);
    let payload: Vec<u8> = match content_payload(
        request.content.kind,
        request.content.text,
        request.content.data_base64,
    ) {
        Ok(bytes) => bytes,
        Err(e) => {
            return Err(e);
        },
    };
    if !store.has_room() {
        return Err("sequence numbers are exhausted".to_string());
    }
    let seq_no: u64 = match store.put(payload.as_slice(), options, now) {
        Ok(s) => s,
        Err(kind) => {
            return Err(store_error(kind));
        },
    };
    if commit {
        store.commit();
    }
    Ok(PutResponse { seq_no, committed: commit })
}

/// Updates the frame that `request` names and commits, unless the request
/// says not to. A refusal leaves the store as it was.
pub fn memvid_update_frame(store: &mut FrameStore, request: UpdateFrameRequest, now: i64) -> (r:
    Result<UpdateFrameResponse, String>)
    requires
        old(store).wf(),
    ensures
        final(store).wf(),
        match update_request_spec(old(store)@, request, now) {
            Ok(next) => {
                &&& r == Ok::<UpdateFrameResponse, String>(
                    UpdateFrameResponse {
                        frame_id: request.frame_id,
                        seq_no: next.1,
                        committed: commits(request.commit),
                    },
                )
                &&& final(store)@ == next.0
                &&& final(store).durable() == (if commits(request.commit) {
                    next.0
                } else {
                    old(store).durable()
                })
            },
            Err(e) => {
                &&& r is Err
                &&& reports(r->Err_0@, e)
                &&& final(store)@ == old(store)@
                &&& final(store).durable() == old(store).durable()
            },
        },
{
    let commit: bool = match request.commit {
        Some(b) => b,
        None => true,
    };
    let frame_id: u64 = request.frame_id;
    let payload: Option<Vec<u8>> = match update_payload(request.text, request.data_base64) {
        Ok(p) => p,
        Err(e) => {
            return Err(e);
        },
    };
    let options: PutOptions = options_of(request.options);
    if !store.has_room() {
        return Err("sequence numbers are exhausted".to_string());
    }
    let seq_no: u64 = match store.update(frame_id, payload, options, now) {
        Ok(s) => s,
        Err(kind) => {
            return Err(store_error(kind));
        },
    };
    if commit {
        store.commit();
    }
    Ok(UpdateFrameResponse { frame_id, seq_no, committed: commit })
}

/// Deletes the frame that `request` names, at the time `now`, and commits,
/// unless the request says not to. A refusal leaves the store as it was.
pub fn memvid_delete_frame(store: &mut FrameStore, request: DeleteFrameRequest, now: i64) -> (r:
    Result<DeleteFrameResponse, String>)
    requires
        old(store).wf(),
    ensures
        final(store).wf(),
        match guarded(old(store)@, delete_spec(old(store)@, request.frame_id, now)) {
            Ok(next) => {
                &&& r == Ok::<DeleteFrameResponse, String>(
                    DeleteFrameResponse {
                        frame_id: request.frame_id,
                        seq_no: next.1,
                        committed: commits(request.commit),
                    },
                )
                &&& final(store)@ == next.0
                &&& final(store).durable() == (if commits(request.commit) {
                    next.0
                } else {
                    old(store).durable()
                })
            },
            Err(e) => {
                &&& r is Err
                &&& reports(r->Err_0@, e)
                &&& final(store)@ == old(store)@
                &&& final(store).durable() == old(store).durable()
            },
        },
{
    let commit: bool = match request.commit {
        Some(b) => b,
        None => true,
    };
    if !store.has_room() {
        return Err("sequence numbers are exhausted".to_string());
    }
    let seq_no: u64 = match store.delete(request.frame_id, now) {
        Ok(s) => s,
        Err(kind) => {
            return Err(store_error(kind));
        },
    };
    if commit {
        store.commit();
    }
    Ok(DeleteFrameResponse { frame_id: request.frame_id, seq_no, committed: commit })
}

/// Creates an empty container for `path`, unless one exists there and is
/// not to be overwritten. `exists` says whether one does.
pub fn memvid_create(path: &str, exists: bool, overwrite: Option<bool>) -> (r: Result<
    (FrameStore, CreateResponse),
    String,
>)
    ensures
        match r {
            Ok(created) => {
                &&& !(exists && !flag(overwrite))
                &&& created.0.wf()
                &&& created.0@ == crate::model::empty_store()
                &&& created.0.durable() == crate::model::empty_store()
                &&& created.1.path@ == path@
                &&& created.1.version@ == STORE_VERSION@
            },
            Err(text) => exists && !flag(overwrite) && reports(text@, RequestError::Exists(path@)),
        },
{
    let overwrite: bool = match overwrite {
        Some(b) => b,
        None => false,
    };
    if exists && !overwrite {
        let mut text: String = "memvid file already exists at ".to_string();
        text.append(path);
        return Err(text);
    }
    let store: FrameStore = FrameStore::new();
    Ok((store, CreateResponse { path: path.to_string(), version: STORE_VERSION.to_string() }))
}

/// The store to write to: the one found at `path`, or a new one where
/// none is found and the caller allows it.
pub fn open_for_write(path: &str, found: Option<FrameStore>, create_if_missing: bool) -> (r:
    Result<FrameStore, String>)
    requires
        found is Some ==> found->0.wf(),
    ensures
        match found {
            Some(store) => r == Ok::<FrameStore, String>(store),
            None => if create_if_missing {
                &&& r is Ok
                &&& r->Ok_0.wf()
                &&& r->Ok_0@ == crate::model::empty_store()
                &&& r->Ok_0.durable() == crate::model::empty_store()
            } else {
                r is Err && reports(r->Err_0@, RequestError::Missing(path@))
            },
        },
{
    match found {
        Some(store) => Ok(store),
        None => {
            if create_if_missing {
                Ok(FrameStore::new())
            } else {
                let mut text: String = "memvid file not found at ".to_string();
                text.append(path);
                Err(text)
            }
        },
    }
}

/// The path that is chosen of two candidates: the first where there is
/// one and it is not empty, else the second, on the same condition.
pub open spec fn chosen_path(path: Option<Seq<char>>, fallback: Option<Seq<char>>) -> Result<
    Seq<char>,
    RequestError,
> {
    if path is Some && path->0.len() > 0 {
        Ok(path->0)
    } else if fallback is Some && fallback->0.len() > 0 {
        Ok(fallback->0)
    } else {
        Err(RequestError::PathRequired)
    }
}

/// The text of an optional path without the white space at both ends.
pub open spec fn opt_trimmed(path: Option<Seq<char>>) -> Option<Seq<char>> {
    match path {
        Some(p) => Some(trimmed(p)),
        None => None,
    }
}

/// The path that a request means: its own, trimmed, where that is not
/// empty; else the fallback, trimmed, where that is not empty.
pub open spec fn resolve_path_spec(path: Option<Seq<char>>, fallback: Option<Seq<char>>) -> Result<
    Seq<char>,
    RequestError,
> {
    chosen_path(opt_trimmed(path), opt_trimmed(fallback))
}

/// Chooses between a path and a fallback that are both trimmed already.
pub fn choose_path(path: Option<String>, fallback: Option<String>) -> (r: Result<String, String>)
    ensures
        match chosen_path(opt_text(path), opt_text(fallback)) {
            Ok(p) => r is Ok && r->Ok_0@ == p,
            Err(e) => r is Err && reports(r->Err_0@, e),
        },
{
    if let Some(path) = path {
        if !path.as_str().is_empty() {
            return Ok(path);
        }
    }
    match fallback {
        Some(fallback) => {
            if fallback.as_str().is_empty() {
                Err("path is required or set MEMVID_DEFAULT_PATH".to_string())
            } else {
                Ok(fallback)
            }
        },
        None => Err("path is required or set MEMVID_DEFAULT_PATH".to_string()),
    }
}

/// An optional path without the white space at both ends.
fn trim_opt(path: Option<String>) -> (r: Option<String>)
    ensures
        opt_text(r) == opt_trimmed(opt_text(path)),
{
    match path {
        Some(p) => Some(trim_text(p.as_str())),
        None => None,
    }
}

/// Picks the path of the container: that of the request, or the fallback
/// that the environment gives.
pub fn resolve_path(path: Option<String>, fallback: Option<String>) -> (r: Result<String, String>)
    ensures
        match resolve_path_spec(opt_text(path), opt_text(fallback)) {
            Ok(p) => r is Ok && r->Ok_0@ == p,
            Err(e) => r is Err && reports(r->Err_0@, e),
        },
{
    choose_path(trim_opt(path), trim_opt(fallback))
}

} // verus!
