use gateway_client::{
    decode, decode_bytes, decode_chunks, is_success_status, reconcile, reconcile_payload_failure,
    stream_start, Error,
};

#[test]
fn payload_realization_failure_falls_back_on_the_status() {
    match reconcile_payload_failure(500, "expected a number".to_string()) {
        Error::InvalidHTTPStatusCodeError(c) => assert_eq!(c, 500),
        _ => panic!("a failure status must decide when the payload cannot be realized"),
    }
    match reconcile_payload_failure(200, "expected a number".to_string()) {
        Error::SerializationError(d) => assert_eq!(d, "expected a number"),
        _ => panic!("a success status makes it an unstructured parse error"),
    }
}

#[test]
fn success_payload_wins_over_failure_status() {
    let r = decode_bytes(500, b"{\"data\": {\"x\": 1}}");
    match r {
        Ok(p) => assert_eq!(p, b"{\"x\": 1}".to_vec()),
        Err(_) => panic!("a decoded success must win over the status"),
    }
}

#[test]
fn error_envelope_is_structured_even_on_success_status() {
    let r = decode_bytes(200, b"{\"code\":\"BAD\",\"errors\":[{\"message\":\"nope\"}]}");
    match r {
        Err(Error::ResponseError(e)) => {
            assert_eq!(e.status_code, 200);
            assert_eq!(e.code.as_deref(), Some("BAD"));
            assert_eq!(e.errors.len(), 1);
            assert_eq!(e.errors[0].message, "nope");
        },
        _ => panic!("expected a structured error"),
    }
}

#[test]
fn error_envelope_carries_failure_status() {
    let r = decode_bytes(503, b"{\"errors\":[{\"message\":\"down\"}]}");
    match r {
        Err(Error::ResponseError(e)) => {
            assert_eq!(e.status_code, 503);
            assert!(e.code.is_none());
        },
        _ => panic!("expected a structured error"),
    }
}

#[test]
fn malformed_body_with_failure_status_is_status_error() {
    let r = decode_bytes(404, b"not json");
    match r {
        Err(Error::InvalidHTTPStatusCodeError(c)) => assert_eq!(c, 404),
        _ => panic!("expected the bare status error"),
    }
}

#[test]
fn malformed_body_with_success_status_is_parse_error() {
    let r = decode_bytes(200, b"not json");
    match r {
        Err(Error::SerializationError(_)) => {},
        _ => panic!("expected an unstructured parse error"),
    }
}

#[test]
fn reconcile_composes_with_decode() {
    let d = decode(b"{\"data\":7}");
    match reconcile(299, d) {
        Ok(p) => assert_eq!(p, b"7".to_vec()),
        Err(_) => panic!("expected a success"),
    }
}

#[test]
fn status_classification_bounds() {
    assert!(!is_success_status(199));
    assert!(is_success_status(200));
    assert!(is_success_status(299));
    assert!(!is_success_status(300));
    assert!(!is_success_status(500));
}

#[test]
fn stream_start_admits_success_and_refuses_failure() {
    assert!(stream_start(200).is_ok());
    match stream_start(500) {
        Err(Error::InvalidHTTPStatusCodeError(c)) => assert_eq!(c, 500),
        _ => panic!("a failure status must end the stream before it starts"),
    }
}

#[test]
fn three_chunks_with_malformed_middle_yield_three_outcomes_in_order() {
    let chunks: Vec<Vec<u8>> = vec![
        b"{\"data\":1}".to_vec(),
        b"oops".to_vec(),
        b"{\"errors\":[{\"message\":\"late\"}]}".to_vec(),
    ];
    let out = decode_chunks(200, &chunks);
    assert_eq!(out.len(), 3);
    match &out[0] {
        Ok(p) => assert_eq!(p, &b"1".to_vec()),
        Err(_) => panic!("chunk one must succeed"),
    }
    match &out[1] {
        Err(Error::SerializationError(_)) => {},
        _ => panic!("chunk two must fail on its own"),
    }
    match &out[2] {
        Err(Error::ResponseError(e)) => {
            assert_eq!(e.status_code, 200);
            assert_eq!(e.errors[0].message, "late");
        },
        _ => panic!("chunk three must be a structured error"),
    }
}

#[test]
fn chunks_under_failure_status_decode_independently() {
    let chunks: Vec<Vec<u8>> = vec![b"{\"data\":true}".to_vec(), b"bad".to_vec()];
    let out = decode_chunks(500, &chunks);
    assert_eq!(out.len(), 2);
    match &out[0] {
        Ok(p) => assert_eq!(p, &b"true".to_vec()),
        Err(_) => panic!("a decoded success wins over the stream status"),
    }
    match &out[1] {
        Err(Error::InvalidHTTPStatusCodeError(c)) => assert_eq!(*c, 500),
        _ => panic!("a malformed chunk under a failure status is a status error"),
    }
}

#[test]
fn empty_chunk_sequence_yields_no_outcomes() {
    let chunks: Vec<Vec<u8>> = Vec::new();
    let out = decode_chunks(200, &chunks);
    assert!(out.is_empty());
}
