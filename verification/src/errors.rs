//! Error taxonomy of the lifecycle and generation layer, and its mapping to
//! the public API's error shape.

use vstd::prelude::*;

verus! {

/// What went wrong inside the engine or the manager.
#[derive(Clone, Copy, Debug, PartialEq, Eq, Structural)]
pub enum EngineError {
    /// The requested identifier is absent from the registry or the table.
    ModelNotFound,
    /// The backend or tokenizer could not materialize a model.
    LoadFailure,
    /// The tokenizer rejected the input text.
    EncodingFailure,
    /// The tokenizer rejected the generated token sequence.
    DecodingFailure,
    /// A forward pass failed mid-generation.
    InferenceBackendFailure,
    /// The registry store was unavailable.
    RegistryFailure,
    /// A per-model lock was not acquired within the configured bound.
    ConcurrencyTimeout,
}

/// The only error kinds the public API surface exposes.
#[derive(Clone, Copy, Debug, PartialEq, Eq, Structural)]
pub enum ApiErrorKind {
    NotFound,
    BadRequest,
    InferenceFailure,
    Busy,
}

/// A public-surface error: a kind and a human-readable message, never an
/// internal error value.
pub struct ApiError {
    pub kind: ApiErrorKind,
    pub message: String,
}

/// The kind under which each internal error is reported at the boundary.
pub open spec fn spec_api_kind(e: EngineError) -> ApiErrorKind {
    match e {
        EngineError::ModelNotFound => ApiErrorKind::NotFound,
        EngineError::ConcurrencyTimeout => ApiErrorKind::Busy,
        _ => ApiErrorKind::InferenceFailure,
    }
}

/// The fixed message text reported for each internal error.
pub open spec fn spec_api_message(e: EngineError) -> Seq<char> {
    match e {
        EngineError::ModelNotFound => "model not found"@,
        EngineError::LoadFailure => "model could not be loaded"@,
        EngineError::EncodingFailure => "prompt could not be encoded"@,
        EngineError::DecodingFailure => "output could not be decoded"@,
        EngineError::InferenceBackendFailure => "inference failed"@,
        EngineError::RegistryFailure => "model registry unavailable"@,
        EngineError::ConcurrencyTimeout => "model busy"@,
    }
}

impl EngineError {
    /// Translate an internal error into the public shape: only a kind and a
    /// message cross the boundary.
    pub fn to_api_error(&self) -> (r: ApiError)
        ensures
            r.kind == spec_api_kind(*self),
            r.message@ == spec_api_message(*self),
    {
        match self {
            EngineError::ModelNotFound => ApiError {
                kind: ApiErrorKind::NotFound,
                message: String::from_str("model not found"),
            },
            EngineError::LoadFailure => ApiError {
                kind: ApiErrorKind::InferenceFailure,
                message: String::from_str("model could not be loaded"),
            },
            EngineError::EncodingFailure => ApiError {
                kind: ApiErrorKind::InferenceFailure,
                message: String::from_str("prompt could not be encoded"),
            },
            EngineError::DecodingFailure => ApiError {
                kind: ApiErrorKind::InferenceFailure,
                message: String::from_str("output could not be decoded"),
            },
            EngineError::InferenceBackendFailure => ApiError {
                kind: ApiErrorKind::InferenceFailure,
                message: String::from_str("inference failed"),
            },
            EngineError::RegistryFailure => ApiError {
                kind: ApiErrorKind::InferenceFailure,
                message: String::from_str("model registry unavailable"),
            },
            EngineError::ConcurrencyTimeout => ApiError {
                kind: ApiErrorKind::Busy,
                message: String::from_str("model busy"),
            },
        }
    }
}

} // verus!
