//! Client-side decoding layer for a JSON-over-HTTP operations gateway.
//!
//! The server answers every operation with a JSON envelope: either a success
//! object holding the payload under a `data` key, or an error object holding
//! an optional `code` and a list of `errors` entries.  This crate decodes a
//! raw response body into one of the two shapes ([`envelope::decode`]) and
//! reconciles that outcome with the transport status code
//! ([`reconcile::reconcile`]), for single bodies and for streams of chunks.
//! The HTTP transport itself lives outside the crate and hands in plain
//! status codes and bytes.

use vstd::prelude::*;

pub mod envelope;
pub mod errors;
pub mod json;
pub mod reconcile;
pub mod request;

pub use envelope::{decode, EnvelopeDecodeResult};
pub use errors::{Error, GraphQLError, GraphQLErrors, ResponseError};
pub use reconcile::{
    decode_bytes, decode_chunks, reconcile, reconcile_payload_failure, stream_start,
};
pub use request::{plan_request, OperationMode, RequestPlan};

verus! {

/// True exactly when the transport status code denotes success.
pub open spec fn spec_is_success_status(status: u16) -> bool {
    200 <= status < 300
}

/// Classifies a transport status code, mirroring the usual 2xx convention.
pub fn is_success_status(status: u16) -> (r: bool)
    ensures
        r == spec_is_success_status(status),
{
    200 <= status && status < 300
}

} // verus!
