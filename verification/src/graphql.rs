//! GraphQL requests and responses, and how the reply to a query is judged.

use vstd::prelude::*;
use serde_json::Value;
use crate::text::{contains_seq, lowercase, str_contains, to_lowercase};

verus! {

broadcast use vstd::string::group_string_axioms;

/// The body of a GraphQL request.
pub struct GraphQLRequest {
    pub query: String,
    /// Left out of the serialised request when absent.
    pub variables: Option<Value>,
}

/// The body of a GraphQL reply.
pub struct GraphQLResponse {
    pub data: Option<Value>,
    pub errors: Option<Vec<GraphQLError>>,
}

/// One error of a GraphQL reply.
pub struct GraphQLError {
    pub message: String,
    pub locations: Vec<ErrorLocation>,
    pub path: Vec<Value>,
}

/// A position in the query text that an error refers to.
#[derive(Debug, Clone, Copy, PartialEq, Eq)]
pub struct ErrorLocation {
    pub line: u32,
    pub column: u32,
}

/// Distinguishes recoverable 401 errors from other failures.
#[derive(Debug)]
pub enum QueryError {
    Unauthorized(String),
    Other(String),
}

/// `code` is a 2xx status.
pub open spec fn is_success_status(code: u16) -> bool {
    200 <= code < 300
}

/// `res` is a recoverable authorisation failure with message `msg`.
pub open spec fn fails_unauthorized<T>(res: Result<T, QueryError>, msg: Seq<char>) -> bool {
    res matches Err(QueryError::Unauthorized(m)) && m@ == msg
}

/// `res` is a plain failure with message `msg`.
pub open spec fn fails_other<T>(res: Result<T, QueryError>, msg: Seq<char>) -> bool {
    res matches Err(QueryError::Other(m)) && m@ == msg
}

/// An error message that says the caller is not authenticated.
pub open spec fn is_auth_error_message(message: Seq<char>) -> bool {
    ||| contains_seq(lowercase(message), "authentication required"@)
    ||| contains_seq(lowercase(message), "not authenticated"@)
}

/// Some error of the list says the caller is not authenticated.
pub open spec fn has_auth_error(errors: Seq<GraphQLError>) -> bool {
    exists|i: int| 0 <= i < errors.len() && is_auth_error_message(#[trigger] errors[i].message@)
}

impl GraphQLRequest {
    /// A request for `query` with the given variables.
    pub fn new(query: &str, variables: Option<Value>) -> (req: GraphQLRequest)
        ensures
            req.query@ == query@,
            req.variables == variables,
    {
        GraphQLRequest { query: query.to_string(), variables }
    }
}

/// Judges the HTTP status of a reply to a query: 401 is a recoverable
/// authorisation failure, any other status outside 2xx a plain failure; both
/// carry the status line and the body. `status_line` is the status as it
/// displays, such as `401 Unauthorized`.
pub fn check_http_status(status_code: u16, status_line: &str, body: &str) -> (res: Result<
    (),
    QueryError,
>)
    ensures
        status_code == 401 ==> fails_unauthorized(
            res,
            "HTTP "@ + status_line@ + " Unauthorized: "@ + body@,
        ),
        status_code != 401 && !is_success_status(status_code) ==> fails_other(
            res,
            "HTTP "@ + status_line@ + ": "@ + body@,
        ),
        is_success_status(status_code) ==> res is Ok,
{
    if status_code == 401 {
        let m = String::from_str("HTTP ").concat(status_line).concat(" Unauthorized: ").concat(
            body,
        );
        return Err(QueryError::Unauthorized(m));
    }
    if !(200 <= status_code && status_code < 300) {
        let m = String::from_str("HTTP ").concat(status_line).concat(": ").concat(body);
        return Err(QueryError::Other(m));
    }
    Ok(())
}

/// Whether an already lowercased error message says the caller is not
/// authenticated.
pub fn mentions_missing_authentication(lowercase_message: &str) -> (b: bool)
    ensures
        b == (contains_seq(lowercase_message@, "authentication required"@) || contains_seq(
            lowercase_message@,
            "not authenticated"@,
        )),
{
    str_contains(lowercase_message, "authentication required") || str_contains(
        lowercase_message,
        "not authenticated",
    )
}

/// Whether an error message says the caller is not authenticated, ignoring case.
pub fn is_auth_error(message: &str) -> (b: bool)
    ensures
        b == is_auth_error_message(message@),
{
    let lower = to_lowercase(message);
    mentions_missing_authentication(lower.as_str())
}

/// Whether some error of the list says the caller is not authenticated.
pub fn any_auth_error(errors: &Vec<GraphQLError>) -> (b: bool)
    ensures
        b == has_auth_error(errors@),
{
    let mut i: usize = 0;
    while i < errors.len()
        invariant
            i <= errors.len(),
            forall|j: int| 0 <= j < i ==> !is_auth_error_message(#[trigger] errors@[j].message@),
        decreases errors.len() - i,
    {
        if is_auth_error(errors[i].message.as_str()) {
            assert(is_auth_error_message(errors@[i as int].message@));
            return true;
        }
        i = i + 1;
    }
    false
}

/// Judges a parsed GraphQL reply. Errors that say the caller is not
/// authenticated make a recoverable authorisation failure, other errors a plain
/// failure, both carrying `rendered_errors`, the errors as they are to be shown;
/// without errors the reply's data is the result, and a reply without data is a
/// failure.
pub fn interpret_graphql_response(response: GraphQLResponse, rendered_errors: &str) -> (res: Result<
    Value,
    QueryError,
>)
    ensures
        response.errors matches Some(es) && has_auth_error(es@) ==> fails_unauthorized(
            res,
            "GraphQL auth error:\n"@ + rendered_errors@,
        ),
        response.errors matches Some(es) && !has_auth_error(es@) ==> fails_other(
            res,
            "GraphQL Errors:\n"@ + rendered_errors@,
        ),
        response.errors is None && response.data is Some ==> res == Ok::<Value, QueryError>(
            response.data->0,
        ),
        response.errors is None && response.data is None ==> fails_other(
            res,
            "No data in response"@,
        ),
{
    match response.errors {
        Some(errors) => {
            if any_auth_error(&errors) {
                Err(
                    QueryError::Unauthorized(
                        String::from_str("GraphQL auth error:\n").concat(rendered_errors),
                    ),
                )
            } else {
                Err(QueryError::Other(String::from_str("GraphQL Errors:\n").concat(rendered_errors)))
            }
        },
        None => match response.data {
            Some(data) => Ok(data),
            None => Err(QueryError::Other(String::from_str("No data in response"))),
        },
    }
}

/// A list of errors counts as an authentication failure exactly when the
/// message of some error, at any position, says `authentication required` or
/// `not authenticated`, ignoring case; adding an error at either end adds its
/// own verdict and loses none.
pub proof fn law_auth_error_anywhere(errors: Seq<GraphQLError>, extra: GraphQLError)
    ensures
        has_auth_error(errors) <==> exists|i: int|
            0 <= i < errors.len() && (contains_seq(
                lowercase(#[trigger] errors[i].message@),
                "authentication required"@,
            ) || contains_seq(lowercase(errors[i].message@), "not authenticated"@)),
        has_auth_error(errors.push(extra)) == (has_auth_error(errors) || contains_seq(
            lowercase(extra.message@),
            "authentication required"@,
        ) || contains_seq(lowercase(extra.message@), "not authenticated"@)),
        has_auth_error(seq![extra] + errors) == (has_auth_error(errors) || contains_seq(
            lowercase(extra.message@),
            "authentication required"@,
        ) || contains_seq(lowercase(extra.message@), "not authenticated"@)),
{
    let back = errors.push(extra);
    let front = seq![extra] + errors;
    if has_auth_error(errors) {
        let i = choose|i: int| 0 <= i < errors.len() && is_auth_error_message(#[trigger] errors[i].message@);
        assert(back[i] == errors[i]);
        assert(front[i + 1] == errors[i]);
    }
    assert(back[errors.len() as int] == extra);
    assert(front[0] == extra);
    if has_auth_error(back) {
        let i = choose|i: int| 0 <= i < back.len() && is_auth_error_message(#[trigger] back[i].message@);
        if i < errors.len() {
            assert(errors[i] == back[i]);
        }
    }
    if has_auth_error(front) {
        let i = choose|i: int| 0 <= i < front.len() && is_auth_error_message(#[trigger] front[i].message@);
        if i > 0 {
            assert(errors[i - 1] == front[i]);
        }
    }
}

/// The successful statuses are exactly those of the 2xx class.
pub proof fn law_success_status(code: u16)
    ensures
        is_success_status(code) <==> code / 100 == 2,
{
}

} // verus!
