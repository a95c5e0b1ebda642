use query::graphql::{
    any_auth_error, check_http_status, interpret_graphql_response, is_auth_error, ErrorLocation,
    GraphQLError, GraphQLRequest, GraphQLResponse, QueryError,
};
use serde_json::Value;

fn error(message: &str) -> GraphQLError {
    GraphQLError {
        message: message.to_string(),
        locations: vec![ErrorLocation { line: 1, column: 1 }],
        path: vec![],
    }
}

#[test]
fn status_401_is_unauthorized() {
    match check_http_status(401, "401 Unauthorized", "nope") {
        Err(QueryError::Unauthorized(m)) => assert_eq!(m, "HTTP 401 Unauthorized Unauthorized: nope"),
        other => panic!("unexpected {:?}", other),
    }
}

#[test]
fn other_failures_carry_status_and_body() {
    match check_http_status(500, "500 Internal Server Error", "boom") {
        Err(QueryError::Other(m)) => assert_eq!(m, "HTTP 500 Internal Server Error: boom"),
        other => panic!("unexpected {:?}", other),
    }
    assert!(matches!(check_http_status(302, "302 Found", ""), Err(QueryError::Other(_))));
    assert!(check_http_status(200, "200 OK", "{}").is_ok());
    assert!(check_http_status(299, "299 <unknown status code>", "").is_ok());
}

#[test]
fn auth_errors_ignore_case() {
    assert!(is_auth_error("Authentication required"));
    assert!(is_auth_error("User NOT AUTHENTICATED."));
    assert!(!is_auth_error("bad query"));
    assert!(any_auth_error(&vec![error("bad query"), error("authentication required")]));
    assert!(!any_auth_error(&vec![]));
}

#[test]
fn auth_error_reply_is_unauthorized() {
    let response = GraphQLResponse {
        data: None,
        errors: Some(vec![error("Authentication required")]),
    };
    match interpret_graphql_response(response, "[rendered]") {
        Err(QueryError::Unauthorized(m)) => assert_eq!(m, "GraphQL auth error:\n[rendered]"),
        other => panic!("unexpected {:?}", other),
    }
}

#[test]
fn other_errors_fail_even_with_data() {
    let response = GraphQLResponse {
        data: Some(Value::Bool(true)),
        errors: Some(vec![error("bad query")]),
    };
    match interpret_graphql_response(response, "[e]") {
        Err(QueryError::Other(m)) => assert_eq!(m, "GraphQL Errors:\n[e]"),
        other => panic!("unexpected {:?}", other),
    }
}

#[test]
fn data_is_returned() {
    let data: Value = serde_json::from_str(r#"{"viewer": {"id": "123"}}"#).unwrap();
    let response = GraphQLResponse { data: Some(data.clone()), errors: None };
    assert_eq!(interpret_graphql_response(response, "").unwrap(), data);
    let empty = GraphQLResponse { data: None, errors: None };
    match interpret_graphql_response(empty, "") {
        Err(QueryError::Other(m)) => assert_eq!(m, "No data in response"),
        other => panic!("unexpected {:?}", other),
    }
}

#[test]
fn request_holds_query_and_variables() {
    let req = GraphQLRequest::new("query { viewer { id } }", None);
    assert_eq!(req.query, "query { viewer { id } }");
    assert!(req.variables.is_none());
}
