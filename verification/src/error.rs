//! Errors the API answers with, and how each is answered: its HTTP status
//! and the body that is sent.

use vstd::prelude::*;

verus! {

/// One validation diagnostic as the API reports it.
#[derive(Debug)]
pub struct Diagnostic {
    pub rule_id: String,
    pub severity: String,
    pub entity: String,
    pub field_path: Option<String>,
    pub message: String,
}

/// Why a request was refused.
#[derive(Debug)]
pub enum ApiError {
    /// The requested part, device or package is not in the index.
    NotFound(String),
    /// Validation diagnostics blocked the request.
    ValidationFailed(Vec<Diagnostic>),
    /// Building the effective model or generating an artifact failed (for
    /// example an unknown revision or a missing dimension): the server stops
    /// rather than guessing.
    GenerationFailed(String),
}

/// The JSON body of an error response.
#[derive(Debug)]
pub struct ErrorBody {
    pub error: String,
    /// Sent only when non-empty.
    pub diagnostics: Vec<Diagnostic>,
}

/// HTTP 404 Not Found.
pub const NOT_FOUND: u16 = 404;

/// HTTP 422 Unprocessable Entity.
pub const UNPROCESSABLE_ENTITY: u16 = 422;

/// The status an error is answered with.
pub open spec fn status_of(e: ApiError) -> u16 {
    match e {
        ApiError::NotFound(_) => NOT_FOUND,
        ApiError::ValidationFailed(_) => UNPROCESSABLE_ENTITY,
        ApiError::GenerationFailed(_) => UNPROCESSABLE_ENTITY,
    }
}

/// The `error` text of an error's body.
pub open spec fn error_text_of(e: ApiError) -> Seq<char> {
    match e {
        ApiError::NotFound(msg) => msg@,
        ApiError::ValidationFailed(_) => "validation failed"@,
        ApiError::GenerationFailed(msg) => msg@,
    }
}

impl ApiError {
    /// The HTTP status this error is answered with: 404 for a missing
    /// entity, 422 for validation and generation failures.
    pub fn status_code(&self) -> (r: u16)
        ensures
            r == status_of(*self),
    {
        match self {
            ApiError::NotFound(_) => NOT_FOUND,
            ApiError::ValidationFailed(_) => UNPROCESSABLE_ENTITY,
            ApiError::GenerationFailed(_) => UNPROCESSABLE_ENTITY,
        }
    }

    /// The body this error is answered with: its message (or "validation
    /// failed") and the diagnostics that blocked the request, if any.
    pub fn into_body(self) -> (r: ErrorBody)
        ensures
            r.error@ == error_text_of(self),
            match self {
                ApiError::ValidationFailed(diags) => r.diagnostics == diags,
                _ => r.diagnostics@.len() == 0,
            },
    {
        match self {
            ApiError::NotFound(msg) => ErrorBody { error: msg, diagnostics: Vec::new() },
            ApiError::ValidationFailed(diags) => ErrorBody {
                error: String::from_str("validation failed"),
                diagnostics: diags,
            },
            ApiError::GenerationFailed(msg) => ErrorBody { error: msg, diagnostics: Vec::new() },
        }
    }
}

} // verus!
