use gateway_client::{plan_request, Error, GraphQLError, OperationMode, ResponseError};

#[test]
fn error_kinds_show_their_own_texts() {
    let e = Error::SerializationError("bad value".to_string());
    assert_eq!(e.to_display_string(), "error serializing data: bad value");
    let e = Error::InvalidHTTPStatusCodeError(503);
    assert_eq!(e.to_display_string(), "invalid HTTP response status code 503");
    let e = Error::ResponseError(ResponseError { status_code: 500, code: None, errors: vec![] });
    assert_eq!(e.to_display_string(), "GraphQL error");
    let e = Error::Other("connection refused".to_string());
    assert_eq!(e.to_display_string(), "connection refused");
}

#[test]
fn response_error_text_without_messages() {
    let e = ResponseError { status_code: 404, code: None, errors: vec![] };
    assert_eq!(e.to_display_string(), "status code 404");
}

#[test]
fn response_error_text_with_messages() {
    let e = ResponseError {
        status_code: 500,
        code: Some("BAD".to_string()),
        errors: vec![
            GraphQLError { message: "first".to_string() },
            GraphQLError { message: "second".to_string() },
        ],
    };
    assert_eq!(e.to_display_string(), "status code 500: first, second");
}

#[test]
fn graphql_error_text_is_its_message() {
    let e = GraphQLError { message: "boom".to_string() };
    assert_eq!(e.to_display_string(), "boom");
}

#[test]
fn query_plan_carries_variables_and_hash() {
    let plan = plan_request(OperationMode::Query, "users/get", "{\"id\":1}".to_string(), &"h1".to_string());
    assert_eq!(plan.subpath, "users/get");
    assert!(plan.use_get);
    assert!(plan.body.is_none());
    assert_eq!(plan.query_params.len(), 2);
    assert_eq!(plan.query_params[0], ("wg_variables".to_string(), "{\"id\":1}".to_string()));
    assert_eq!(plan.query_params[1], ("wg_app_hash".to_string(), "h1".to_string()));
}

#[test]
fn mutate_plan_posts_the_input_as_body() {
    let plan = plan_request(OperationMode::Mutate, "users/update", "{}".to_string(), &"h".to_string());
    assert!(!plan.use_get);
    assert_eq!(plan.body.as_deref(), Some("{}"));
    assert_eq!(plan.query_params.len(), 1);
    assert_eq!(plan.query_params[0], ("wg_app_hash".to_string(), "h".to_string()));
}

#[test]
fn subscribe_plan_has_no_live_marker() {
    let plan = plan_request(OperationMode::Subscribe, "feed", "null".to_string(), &"h".to_string());
    assert!(plan.use_get);
    assert_eq!(plan.query_params.len(), 2);
}

#[test]
fn live_query_plan_adds_the_live_marker() {
    let plan = plan_request(OperationMode::LiveQuery, "feed", "null".to_string(), &"h".to_string());
    assert!(plan.use_get);
    assert_eq!(plan.query_params.len(), 3);
    assert_eq!(plan.query_params[2], ("wg_live".to_string(), "true".to_string()));
}
