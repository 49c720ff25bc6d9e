//! Error values returned by the library: the core validation error and the
//! HTTP-facing API error (status code, stable machine code, message).

use crate::text::{cat2, cat3, cat4, cat5, nat_text, u64_to_string};
use vstd::prelude::*;

verus! {

/// Errors raised by the core rules (dashboard validation, role parsing,
/// format versions). Failures of the storage and data layers are carried by
/// their message.
#[derive(Debug, Clone)]
pub enum AlmagestError {
    /// The SQLite layer failed (its message).
    Sqlite(String),
    /// An I/O operation failed (its message).
    Io(String),
    /// The file's format version is newer than this build understands.
    FormatTooNew { found: u32, supported: u32 },
    /// The file exists but is not a valid Almagest file.
    NotAAlmagestFile { path: String, reason: String },
    /// JSON (de)serialization failed (its message).
    Serde(String),
    /// Encoding or decoding a Parquet blob failed (its message).
    Parquet(String),
    /// A columnar-data operation failed (its message).
    Arrow(String),
    /// The file's integrity check found a problem.
    Integrity(String),
    /// A requested entity was not found.
    NotFound {
        /// What kind of entity was looked up (e.g. "dataset").
        kind: &'static str,
        /// The identifier that was looked up.
        id: String,
    },
    /// A value was rejected because it violates a format invariant.
    Invalid(String),
    /// A uniqueness rule was broken (e.g. a taken username).
    Conflict {
        /// What kind of entity collided (e.g. "user").
        kind: &'static str,
        /// What collided.
        detail: String,
    },
    /// A dashboard definition was semantically invalid at `location`.
    InvalidDashboard {
        /// Dotted path to the offending field.
        location: String,
        /// What was wrong.
        detail: String,
    },
}

/// The human-readable message of an error.
pub open spec fn error_message(e: AlmagestError) -> Seq<char> {
    match e {
        AlmagestError::Sqlite(m) => "sqlite error: "@ + m@,
        AlmagestError::Io(m) => "io error: "@ + m@,
        AlmagestError::FormatTooNew { found, supported } => "almagest file format version "@
            + nat_text(found as nat) + " is newer than supported version "@ + nat_text(
            supported as nat,
        ) + "; upgrade Almagest to open this file"@,
        AlmagestError::NotAAlmagestFile { path, reason } => path@
            + " is not a valid almagest file: "@ + reason@,
        AlmagestError::Serde(m) => "serialization error: "@ + m@,
        AlmagestError::Parquet(m) => "parquet error: "@ + m@,
        AlmagestError::Arrow(m) => "arrow error: "@ + m@,
        AlmagestError::Integrity(m) => "almagest file failed integrity check: "@ + m@,
        AlmagestError::NotFound { kind, id } => kind@ + " '"@ + id@ + "' not found"@,
        AlmagestError::Invalid(m) => "invalid almagest operation: "@ + m@,
        AlmagestError::Conflict { kind, detail } => kind@ + " conflict: "@ + detail@,
        AlmagestError::InvalidDashboard { location, detail } => "invalid dashboard ("@ + location@
            + "): "@ + detail@,
    }
}

impl AlmagestError {
    /// The human-readable message of this error.
    pub fn message(&self) -> (r: String)
        ensures
            r@ == error_message(*self),
    {
        match self {
            AlmagestError::Sqlite(m) => cat2("sqlite error: ", m.as_str()),
            AlmagestError::Io(m) => cat2("io error: ", m.as_str()),
            AlmagestError::FormatTooNew { found, supported } => {
                let f = u64_to_string(*found as u64);
                let s = u64_to_string(*supported as u64);
                cat5(
                    "almagest file format version ",
                    f.as_str(),
                    " is newer than supported version ",
                    s.as_str(),
                    "; upgrade Almagest to open this file",
                )
            },
            AlmagestError::NotAAlmagestFile { path, reason } => cat3(
                path.as_str(),
                " is not a valid almagest file: ",
                reason.as_str(),
            ),
            AlmagestError::Serde(m) => cat2("serialization error: ", m.as_str()),
            AlmagestError::Parquet(m) => cat2("parquet error: ", m.as_str()),
            AlmagestError::Arrow(m) => cat2("arrow error: ", m.as_str()),
            AlmagestError::Integrity(m) => cat2("almagest file failed integrity check: ", m.as_str()),
            AlmagestError::NotFound { kind, id } => cat4(kind, " '", id.as_str(), "' not found"),
            AlmagestError::Invalid(m) => cat2("invalid almagest operation: ", m.as_str()),
            AlmagestError::Conflict { kind, detail } => cat3(kind, " conflict: ", detail.as_str()),
            AlmagestError::InvalidDashboard { location, detail } => cat4(
                "invalid dashboard (",
                location.as_str(),
                "): ",
                detail.as_str(),
            ),
        }
    }
}

/// An HTTP-facing error: status code, stable machine-readable code, message.
#[derive(Debug, Clone)]
pub struct ApiError {
    /// HTTP status to return.
    pub status: u16,
    /// Stable, machine-readable error code (e.g. `not_found`).
    pub code: &'static str,
    /// Human-readable explanation.
    pub message: String,
}

impl ApiError {
    /// Construct an error from its parts.
    pub fn new(status: u16, code: &'static str, message: String) -> (r: ApiError)
        ensures
            r.status == status,
            r.code == code,
            r.message@ == message@,
    {
        ApiError { status, code, message }
    }

    /// 400 Bad Request.
    pub fn bad_request(message: String) -> (r: ApiError)
        ensures
            r.status == 400,
            r.code == "bad_request",
            r.message@ == message@,
    {
        ApiError { status: 400, code: "bad_request", message }
    }

    /// 401 Unauthorized.
    pub fn unauthorized(message: String) -> (r: ApiError)
        ensures
            r.status == 401,
            r.code == "unauthorized",
            r.message@ == message@,
    {
        ApiError { status: 401, code: "unauthorized", message }
    }

    /// 403 Forbidden.
    pub fn forbidden(message: String) -> (r: ApiError)
        ensures
            r.status == 403,
            r.code == "forbidden",
            r.message@ == message@,
    {
        ApiError { status: 403, code: "forbidden", message }
    }

    /// 404 Not Found.
    pub fn not_found(message: String) -> (r: ApiError)
        ensures
            r.status == 404,
            r.code == "not_found",
            r.message@ == message@,
    {
        ApiError { status: 404, code: "not_found", message }
    }

    /// 409 Conflict.
    pub fn conflict(message: String) -> (r: ApiError)
        ensures
            r.status == 409,
            r.code == "conflict",
            r.message@ == message@,
    {
        ApiError { status: 409, code: "conflict", message }
    }

    /// 429 Too Many Requests.
    pub fn too_many_requests(message: String) -> (r: ApiError)
        ensures
            r.status == 429,
            r.code == "too_many_requests",
            r.message@ == message@,
    {
        ApiError { status: 429, code: "too_many_requests", message }
    }

    /// 500 Internal Server Error.
    pub fn internal(message: String) -> (r: ApiError)
        ensures
            r.status == 500,
            r.code == "internal",
            r.message@ == message@,
    {
        ApiError { status: 500, code: "internal", message }
    }
}

/// The view of an API error: status, code and message.
pub open spec fn api_view(e: ApiError) -> (u16, Seq<char>, Seq<char>) {
    (e.status, e.code@, e.message@)
}

/// What a core error answers over HTTP: a missing record is a 404, an
/// invalid request or document a 400, anything else a 500; the message is
/// the error's own.
pub open spec fn core_api_view(e: AlmagestError) -> (u16, Seq<char>, Seq<char>) {
    match e {
        AlmagestError::NotFound { .. } => (404u16, "not_found"@, error_message(e)),
        AlmagestError::InvalidDashboard { .. } | AlmagestError::Invalid(_) | AlmagestError::Serde(
            _,
        ) => (400u16, "bad_request"@, error_message(e)),
        _ => (500u16, "internal"@, error_message(e)),
    }
}

impl ApiError {
    /// The HTTP error a core error becomes.
    pub fn from_core(e: &AlmagestError) -> (r: ApiError)
        ensures
            api_view(r) == core_api_view(*e),
    {
        let m = e.message();
        match e {
            AlmagestError::NotFound { .. } => ApiError::not_found(m),
            AlmagestError::InvalidDashboard { .. } | AlmagestError::Invalid(_) | AlmagestError::Serde(
                _,
            ) => ApiError::bad_request(m),
            _ => ApiError::internal(m),
        }
    }
}

} // verus!
