//! Reconciling a decoded envelope with the transport status code.
//!
//! The body is decoded first, whatever the status said: servers put rich
//! detail into non-success bodies, and a success status may still wrap a
//! payload-level error.  A decoded success wins outright — a deliberate,
//! documented policy carried by this client.  A decoded error envelope
//! becomes a structured error carrying the status.  Only when the body
//! matches neither shape does the status decide: a failure status is
//! reported on its own, a success status turns into an unstructured parse
//! error.

use vstd::prelude::*;
use vstd::string::StringExecFns;

use crate::envelope::{envelope_of, EnvelopeDecodeResult, EnvelopeModel};
use crate::errors::{code_model, messages_model, Error, ResponseError};
use crate::spec_is_success_status;

verus! {

/// The text carried by an unstructured parse error.
pub open spec fn parse_error_text() -> Seq<char> {
    "response body matched neither envelope shape"@
}

/// The whole reconciliation policy: relates a status code and a decoded
/// shape to the one outcome the caller must see.
pub open spec fn reconciled(status: u16, m: EnvelopeModel, r: Result<Vec<u8>, Error>) -> bool {
    match m {
        EnvelopeModel::Success(p) => r matches Ok(v) && v@ == p,
        EnvelopeModel::Errs { code, messages } => r matches Err(
            Error::ResponseError(e),
        ) && e.status_code == status && code_model(e.code) == code && messages_model(e.errors@)
            == messages,
        EnvelopeModel::Malformed => if spec_is_success_status(status) {
            r matches Err(Error::SerializationError(msg)) && msg@ == parse_error_text()
        } else {
            r matches Err(Error::InvalidHTTPStatusCodeError(c)) && c == status
        },
    }
}

/// Turns a decoded envelope plus the transport status into the final
/// outcome, exactly as [`reconciled`] states.
pub fn reconcile(status_code: u16, decoded: EnvelopeDecodeResult) -> (r: Result<Vec<u8>, Error>)
    ensures
        reconciled(status_code, decoded.model(), r),
{
    match decoded {
        EnvelopeDecodeResult::Success(p) => Ok(p),
        EnvelopeDecodeResult::ErrorEnvelope(g) => Err(
            Error::ResponseError(ResponseError { status_code, code: g.code, errors: g.errors }),
        ),
        EnvelopeDecodeResult::Malformed => {
            if crate::is_success_status(status_code) {
                Err(
                    Error::SerializationError(
                        String::from_str("response body matched neither envelope shape"),
                    ),
                )
            } else {
                Err(Error::InvalidHTTPStatusCodeError(status_code))
            }
        },
    }
}

/// Decodes one response body and reconciles it with the status code: the
/// whole per-body pipeline.
pub fn decode_bytes(status_code: u16, data: &[u8]) -> (r: Result<Vec<u8>, Error>)
    ensures
        reconciled(status_code, envelope_of(data@), r),
{
    let decoded = crate::envelope::decode(data);
    reconcile(status_code, decoded)
}

/// Decodes a realized sequence of stream chunks, each one independently,
/// under the status code captured when the stream opened.  One outcome per
/// chunk, in arrival order; a chunk that fails only fails its own entry.
pub fn decode_chunks(status_code: u16, chunks: &Vec<Vec<u8>>) -> (r: Vec<Result<Vec<u8>, Error>>)
    ensures
        r@.len() == chunks@.len(),
        forall|k: int|
            0 <= k < chunks@.len() ==> reconciled(
                status_code,
                envelope_of(chunks@[k]@),
                #[trigger] r@[k],
            ),
{
    let mut out: Vec<Result<Vec<u8>, Error>> = Vec::new();
    let mut idx: usize = 0;
    while idx < chunks.len()
        invariant
            idx <= chunks@.len(),
            out@.len() == idx,
            forall|k: int|
                0 <= k < idx ==> reconciled(
                    status_code,
                    envelope_of(chunks@[k]@),
                    #[trigger] out@[k],
                ),
        decreases chunks@.len() - idx,
    {
        let chunk: &Vec<u8> = &chunks[idx];
        let one = decode_bytes(status_code, chunk.as_slice());
        out.push(one);
        idx = idx + 1;
    }
    out
}

/// Classifies the failure to realize a decoded payload as the caller's
/// type, under the status the body arrived with: the body as a whole did
/// not decode for this caller, so the status decides, exactly as for a
/// body that matched neither shape.
pub fn reconcile_payload_failure(status_code: u16, detail: String) -> (r: Error)
    ensures
        spec_is_success_status(status_code) ==> (r matches Error::SerializationError(d) && d@
            == detail@),
        !spec_is_success_status(status_code) ==> (r matches Error::InvalidHTTPStatusCodeError(c)
            && c == status_code),
{
    if crate::is_success_status(status_code) {
        Error::SerializationError(detail)
    } else {
        Error::InvalidHTTPStatusCodeError(status_code)
    }
}

/// Admits or refuses a stream at its opening: a failure status observed on
/// the initial response is terminal and no sequence is produced.
pub fn stream_start(status_code: u16) -> (r: Result<(), Error>)
    ensures
        spec_is_success_status(status_code) ==> r is Ok,
        !spec_is_success_status(status_code) ==> (r matches Err(
            Error::InvalidHTTPStatusCodeError(c),
        ) && c == status_code),
{
    if crate::is_success_status(status_code) {
        Ok(())
    } else {
        Err(Error::InvalidHTTPStatusCodeError(status_code))
    }
}

/// A payload-level success wins for every status code: whenever a body
/// decodes to the success shape, reconciliation yields exactly that
/// payload, failure statuses included.
pub proof fn lemma_success_wins(s: Seq<u8>, status: u16, p: Seq<u8>, r: Result<Vec<u8>, Error>)
    requires
        reconciled(status, envelope_of(s), r),
        envelope_of(s) == EnvelopeModel::Success(p),
    ensures
        r matches Ok(v) && v@ == p,
{
}

/// A body of the error shape becomes a structured error carrying the given
/// status code, the envelope's code and its messages in order, whatever
/// the status was.
pub proof fn lemma_error_envelope_structured(
    s: Seq<u8>,
    status: u16,
    code: Option<Seq<char>>,
    messages: Seq<Seq<char>>,
    r: Result<Vec<u8>, Error>,
)
    requires
        reconciled(status, envelope_of(s), r),
        envelope_of(s) == (EnvelopeModel::Errs { code, messages }),
    ensures
        r matches Err(Error::ResponseError(e)) && e.status_code == status && code_model(e.code)
            == code && messages_model(e.errors@) == messages,
{
}

/// A body matching neither shape under a failure status becomes the bare
/// status error: the body added nothing and is discarded.
pub proof fn lemma_malformed_failure_status(s: Seq<u8>, status: u16, r: Result<Vec<u8>, Error>)
    requires
        reconciled(status, envelope_of(s), r),
        envelope_of(s) is Malformed,
        !spec_is_success_status(status),
    ensures
        r matches Err(Error::InvalidHTTPStatusCodeError(c)) && c == status,
{
}

/// A body matching neither shape under a success status becomes an
/// unstructured parse error: never a success and never a status error.
pub proof fn lemma_malformed_success_status(s: Seq<u8>, status: u16, r: Result<Vec<u8>, Error>)
    requires
        reconciled(status, envelope_of(s), r),
        envelope_of(s) is Malformed,
        spec_is_success_status(status),
    ensures
        r matches Err(Error::SerializationError(msg)) && msg@ == parse_error_text(),
{
}

/// Decoding is a pure function of the byte buffer: two decodes of the same
/// bytes classify them identically.
pub proof fn lemma_decode_deterministic(s: Seq<u8>, m1: EnvelopeModel, m2: EnvelopeModel)
    requires
        m1 == envelope_of(s),
        m2 == envelope_of(s),
    ensures
        m1 == m2,
{
}

} // verus!
