use gateway_client::{decode, EnvelopeDecodeResult};

#[test]
fn success_shape_yields_payload_bytes() {
    let body = b"{\"data\": {\"x\": 1}}";
    match decode(body) {
        EnvelopeDecodeResult::Success(p) => assert_eq!(p, b"{\"x\": 1}".to_vec()),
        _ => panic!("expected the success shape"),
    }
}

#[test]
fn success_shape_scalar_payload() {
    let body = b"{\"data\":42}";
    match decode(body) {
        EnvelopeDecodeResult::Success(p) => assert_eq!(p, b"42".to_vec()),
        _ => panic!("expected the success shape"),
    }
}

#[test]
fn success_shape_nested_payload_with_tricky_string() {
    let body = b"{\"data\": [1, 2, {\"a\": \"}]\"}]}";
    match decode(body) {
        EnvelopeDecodeResult::Success(p) => assert_eq!(p, b"[1, 2, {\"a\": \"}]\"}]".to_vec()),
        _ => panic!("expected the success shape"),
    }
}

#[test]
fn success_wins_over_error_members_beside_it() {
    let body = b"{\"errors\":[{\"message\":\"m\"}],\"data\":null}";
    match decode(body) {
        EnvelopeDecodeResult::Success(p) => assert_eq!(p, b"null".to_vec()),
        _ => panic!("expected the success shape"),
    }
}

#[test]
fn error_shape_code_and_messages() {
    let body = b"{\"code\":\"BAD\",\"errors\":[{\"message\":\"nope\"}]}";
    match decode(body) {
        EnvelopeDecodeResult::ErrorEnvelope(g) => {
            assert_eq!(g.code.as_deref(), Some("BAD"));
            assert_eq!(g.errors.len(), 1);
            assert_eq!(g.errors[0].message, "nope");
        },
        _ => panic!("expected the error shape"),
    }
}

#[test]
fn error_shape_null_code_and_message_order() {
    let body = b"{\"code\":null,\"errors\":[{\"message\":\"one\"},{\"message\":\"two\"}]}";
    match decode(body) {
        EnvelopeDecodeResult::ErrorEnvelope(g) => {
            assert!(g.code.is_none());
            let msgs: Vec<&str> = g.errors.iter().map(|e| e.message.as_str()).collect();
            assert_eq!(msgs, vec!["one", "two"]);
        },
        _ => panic!("expected the error shape"),
    }
}

#[test]
fn error_shape_without_code_and_empty_list() {
    let body = b"{\"errors\":[]}";
    match decode(body) {
        EnvelopeDecodeResult::ErrorEnvelope(g) => {
            assert!(g.code.is_none());
            assert!(g.errors.is_empty());
        },
        _ => panic!("expected the error shape"),
    }
}

#[test]
fn error_entries_ignore_extra_members() {
    let body = b"{\"errors\":[{\"path\":[\"a\",1],\"message\":\"m\"}]}";
    match decode(body) {
        EnvelopeDecodeResult::ErrorEnvelope(g) => {
            assert_eq!(g.errors.len(), 1);
            assert_eq!(g.errors[0].message, "m");
        },
        _ => panic!("expected the error shape"),
    }
}

#[test]
fn string_escapes_are_decoded() {
    let body = b"{\"errors\":[{\"message\":\"a\\n\\t\\\"b\\\\\\u0041\"}]}";
    match decode(body) {
        EnvelopeDecodeResult::ErrorEnvelope(g) => {
            assert_eq!(g.errors[0].message, "a\n\t\"b\\A");
        },
        _ => panic!("expected the error shape"),
    }
}

#[test]
fn surrogate_pair_escape_decodes_to_one_character() {
    let body = b"{\"errors\":[{\"message\":\"\\ud83d\\ude00\"}]}";
    match decode(body) {
        EnvelopeDecodeResult::ErrorEnvelope(g) => {
            assert_eq!(g.errors[0].message, "\u{1f600}");
        },
        _ => panic!("expected the error shape"),
    }
}

#[test]
fn raw_utf8_in_message_is_kept() {
    let body = "{\"errors\":[{\"message\":\"caf\u{e9}\"}]}".as_bytes();
    match decode(body) {
        EnvelopeDecodeResult::ErrorEnvelope(g) => {
            assert_eq!(g.errors[0].message, "caf\u{e9}");
        },
        _ => panic!("expected the error shape"),
    }
}

#[test]
fn whitespace_everywhere_is_tolerated() {
    let body = b" \t\r\n{ \"data\" :\n[ true , false , null ]\t} \n";
    match decode(body) {
        EnvelopeDecodeResult::Success(p) => assert_eq!(p, b"[ true , false , null ]".to_vec()),
        _ => panic!("expected the success shape"),
    }
}

#[test]
fn malformed_inputs_match_neither_shape() {
    let cases: Vec<&[u8]> = vec![
        b"not json",
        b"",
        b"null",
        b"[1,2]",
        b"\"data\"",
        b"{\"data\":}",
        b"{\"data\":01}",
        b"{\"data\":1,}",
        b"{\"data\":1",
        b"{\"data\":1}}",
        b"{\"data\":1} x",
        b"{\"data\":[1 2]}",
        b"{\"data\":tru}",
        b"{\"data\":\"\\q\"}",
        b"{\"data\":1,\"data\":2}",
        b"{\"x\":1}",
        b"{}",
        b"{\"errors\":{}}",
        b"{\"errors\":[1]}",
        b"{\"errors\":[{}]}",
        b"{\"errors\":[{\"message\":1}]}",
        b"{\"errors\":[{\"message\":null}]}",
        b"{\"errors\":[{\"message\":\"\\ud83d\"}]}",
        b"{\"errors\":[{\"message\":\"\\ude00\\ud83d\"}]}",
        b"{\"errors\":[{\"message\":\"a\",\"message\":\"b\"}]}",
        b"{\"errors\":[],\"errors\":[]}",
        b"{\"code\":1,\"errors\":[]}",
        b"{\"code\":\"a\",\"code\":\"b\",\"errors\":[]}",
        b"{\"code\":\"a\"}",
    ];
    for body in cases {
        match decode(body) {
            EnvelopeDecodeResult::Malformed => {},
            _ => panic!(
                "expected malformed for {:?}",
                String::from_utf8_lossy(body)
            ),
        }
    }
}

#[test]
fn raw_bytes_in_strings_must_be_well_formed_utf8() {
    // A valid multibyte scalar passes through the payload untouched.
    match decode(b"{\"data\":\"\xf0\x9f\x98\x80\"}") {
        EnvelopeDecodeResult::Success(p) => assert_eq!(p, b"\"\xf0\x9f\x98\x80\"".to_vec()),
        _ => panic!("expected the success shape"),
    }
    // Ill-formed sequences make the body malformed, wherever the string
    // stands: payload values, unknown members, or keys.
    let bad: Vec<&[u8]> = vec![
        b"{\"data\":\"\xc3\x28\"}",
        b"{\"data\":\"\xc0\xaf\"}",
        b"{\"data\":\"\xed\xa0\x80\"}",
        b"{\"data\":\"\xf5\x80\x80\x80\"}",
        b"{\"data\":\"\xc3\"}",
        b"{\"data\":\"\x80\"}",
        b"{\"extra\":\"\xff\",\"data\":1}",
        b"{\"\xff\":1,\"data\":2}",
    ];
    for body in bad {
        match decode(body) {
            EnvelopeDecodeResult::Malformed => {},
            _ => panic!("expected malformed for {:?}", String::from_utf8_lossy(body)),
        }
    }
}

#[test]
fn unknown_members_are_tolerated_around_the_payload() {
    let body = b"{ \"extra\" : [ { } ] , \"data\" : 1 , \"more\" : \"x\" }";
    match decode(body) {
        EnvelopeDecodeResult::Success(p) => assert_eq!(p, b"1".to_vec()),
        _ => panic!("expected the success shape"),
    }
}

#[test]
fn number_payloads_follow_the_number_grammar() {
    match decode(b"{\"data\":-0.5e+10}") {
        EnvelopeDecodeResult::Success(p) => assert_eq!(p, b"-0.5e+10".to_vec()),
        _ => panic!("expected the success shape"),
    }
    let bad: Vec<&[u8]> = vec![
        b"{\"data\":1.}",
        b"{\"data\":.5}",
        b"{\"data\":-}",
        b"{\"data\":1e}",
        b"{\"data\":+1}",
        b"{\"data\":0x1}",
    ];
    for body in bad {
        match decode(body) {
            EnvelopeDecodeResult::Malformed => {},
            _ => panic!("expected malformed for {:?}", String::from_utf8_lossy(body)),
        }
    }
}

#[test]
fn deeply_nested_payload_needs_no_recursion() {
    let mut body: Vec<u8> = b"{\"data\":".to_vec();
    for _ in 0..1000 {
        body.push(b'[');
    }
    for _ in 0..1000 {
        body.push(b']');
    }
    body.push(b'}');
    match decode(&body) {
        EnvelopeDecodeResult::Success(p) => assert_eq!(p.len(), 2000),
        _ => panic!("expected the success shape"),
    }
}

#[test]
fn payload_strings_are_passed_through_uninterpreted() {
    // The payload is opaque: its strings are scanned for extent, not
    // decoded, so a lone surrogate escape inside it stays the caller's
    // problem and the raw bytes come back unchanged.
    let body = b"{\"data\":\"\\ud83d\"}";
    match decode(body) {
        EnvelopeDecodeResult::Success(p) => assert_eq!(p, b"\"\\ud83d\"".to_vec()),
        _ => panic!("expected the success shape"),
    }
}

#[test]
fn decoding_twice_gives_the_same_classification() {
    let bodies: Vec<&[u8]> = vec![
        b"{\"data\":{\"x\":1}}",
        b"{\"errors\":[{\"message\":\"m\"}]}",
        b"garbage",
    ];
    for body in bodies {
        let first = decode(body);
        let second = decode(body);
        match (first, second) {
            (EnvelopeDecodeResult::Success(a), EnvelopeDecodeResult::Success(b)) => {
                assert_eq!(a, b)
            },
            (EnvelopeDecodeResult::ErrorEnvelope(a), EnvelopeDecodeResult::ErrorEnvelope(b)) => {
                assert_eq!(a.code, b.code);
                assert_eq!(a.errors.len(), b.errors.len());
            },
            (EnvelopeDecodeResult::Malformed, EnvelopeDecodeResult::Malformed) => {},
            _ => panic!("the two decodes disagreed"),
        }
    }
}
