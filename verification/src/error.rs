//! The ways in which describing an asset can fail.

use vstd::prelude::*;

verus! {

/// Why an analysis or a store operation did not succeed.
///
/// The five kinds `TransportError`, `RequestTimeout`, `ServerError`,
/// `MalformedResponse` and `EmptyResponse` belong to a single attempt against
/// a single host; the analysis only reports one of them when its whole
/// attempt budget is spent.
#[derive(Debug, Clone, PartialEq, Eq)]
pub enum ImageAnalysisError {
    /// The image holds no bytes.
    EmptyInput,
    /// The connection to the host failed.
    TransportError { detail: String },
    /// The host did not answer within the bounded wait.
    RequestTimeout,
    /// The host answered with a status outside 200..=299.
    ServerError { status: u16, body: String },
    /// The reply could not be decoded under either accepted shape.
    MalformedResponse,
    /// The reply decoded, but its text is empty once trimmed.
    EmptyResponse,
    /// No host could be selected.
    NoHostsReachable,
    /// The asset that a description was meant for does not exist.
    AssetNotFound,
    /// The storage layer reported a failure.
    StoreError { detail: String },
}

impl ImageAnalysisError {
    /// Whether the error belongs to one attempt against one host, so that the
    /// analysis marks the host and moves on instead of giving up.
    pub open spec fn is_per_host(self) -> bool {
        self is TransportError || self is RequestTimeout || self is ServerError
            || self is MalformedResponse || self is EmptyResponse
    }

    /// A copy of the error, equal to it in every field.
    pub fn copied(&self) -> (r: Self)
        ensures
            r == *self,
    {
        match self {
            ImageAnalysisError::EmptyInput => ImageAnalysisError::EmptyInput,
            ImageAnalysisError::TransportError { detail } => ImageAnalysisError::TransportError {
                detail: detail.clone(),
            },
            ImageAnalysisError::RequestTimeout => ImageAnalysisError::RequestTimeout,
            ImageAnalysisError::ServerError { status, body } => ImageAnalysisError::ServerError {
                status: *status,
                body: body.clone(),
            },
            ImageAnalysisError::MalformedResponse => ImageAnalysisError::MalformedResponse,
            ImageAnalysisError::EmptyResponse => ImageAnalysisError::EmptyResponse,
            ImageAnalysisError::NoHostsReachable => ImageAnalysisError::NoHostsReachable,
            ImageAnalysisError::AssetNotFound => ImageAnalysisError::AssetNotFound,
            ImageAnalysisError::StoreError { detail } => ImageAnalysisError::StoreError {
                detail: detail.clone(),
            },
        }
    }
}

} // verus!
