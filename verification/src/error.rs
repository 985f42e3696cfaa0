//! The kinds of failure that an operation reports.

use vstd::prelude::*;

verus! {

/// Why an operation was refused or could not be served.
#[derive(Clone, Copy, Debug, PartialEq, Eq, Structural)]
pub enum ErrorKind {
    /// A container already exists where one was to be created.
    AlreadyExists,
    /// No container, frame or URI answers to what was asked for.
    NotFound,
    /// The options of a put or an update are malformed or contradict each other.
    InvalidOptions,
    /// The URI is already owned by an active frame.
    UriConflict,
    /// The stored payload does not match its checksum.
    CorruptFrame,
    /// A request carries a zero limit, a zero `top_k` or a malformed cursor.
    InvalidRequest,
    /// The storage underneath failed.
    IoFailure,
    /// The primary index is missing or degraded.
    IndexUnavailable,
    /// A query could not be parsed.
    QueryMalformed,
}

/// The message of each kind of failure.
pub open spec fn error_text(kind: ErrorKind) -> Seq<char> {
    match kind {
        ErrorKind::AlreadyExists => "container already exists"@,
        ErrorKind::NotFound => "frame not found"@,
        ErrorKind::InvalidOptions => "invalid options"@,
        ErrorKind::UriConflict => "uri is already owned by an active frame"@,
        ErrorKind::CorruptFrame => "frame payload does not match its checksum"@,
        ErrorKind::InvalidRequest => "invalid request"@,
        ErrorKind::IoFailure => "storage failure"@,
        ErrorKind::IndexUnavailable => "primary index unavailable"@,
        ErrorKind::QueryMalformed => "malformed query"@,
    }
}

/// Describes a kind of failure in words.
pub fn describe(kind: ErrorKind) -> (text: &'static str)
    ensures
        text@ == error_text(kind),
{
    match kind {
        ErrorKind::AlreadyExists => "container already exists",
        ErrorKind::NotFound => "frame not found",
        ErrorKind::InvalidOptions => "invalid options",
        ErrorKind::UriConflict => "uri is already owned by an active frame",
        ErrorKind::CorruptFrame => "frame payload does not match its checksum",
        ErrorKind::InvalidRequest => "invalid request",
        ErrorKind::IoFailure => "storage failure",
        ErrorKind::IndexUnavailable => "primary index unavailable",
        ErrorKind::QueryMalformed => "malformed query",
    }
}

} // verus!
