use query::auth::{
    check_refresh_status, cli_failure_message, failure_message, get_token, refresh_credentials,
    refresh_form, retry_step, RetryAction, RetryEvent, RetryFailure, RetryState,
};
use query::graphql::QueryError;

#[test]
fn test_get_token_prefers_agent_token() {
    let result = get_token(Some("agent_tok"), Some("api_key")).unwrap();
    assert_eq!(result, "agent_tok");
}

#[test]
fn test_get_token_falls_back_to_api_key() {
    let result = get_token(None, Some("lin_api_test")).unwrap();
    assert_eq!(result, "lin_api_test");
}

#[test]
fn test_get_token_fails_without_credentials() {
    let result = get_token(None, None);
    assert!(result.is_err());
    assert!(result.unwrap_err().contains("LINEAR_AGENT_TOKEN"));
}

#[test]
fn test_empty_token_treated_as_missing() {
    let result = get_token(Some(""), None);
    assert!(result.is_err());
    assert_eq!(get_token(Some(""), Some("k")).unwrap(), "k");
    assert!(get_token(Some(""), Some("")).is_err());
}

#[test]
fn refresh_credentials_report_the_first_missing() {
    assert_eq!(
        refresh_credentials(None, None, None).err().unwrap(),
        "LINEAR_REFRESH_TOKEN not set — cannot refresh expired token"
    );
    assert_eq!(
        refresh_credentials(Some("r"), None, Some("s")).err().unwrap(),
        "LINEAR_OAUTH_CLIENT_ID not set — cannot refresh expired token"
    );
    assert_eq!(
        refresh_credentials(Some("r"), Some("i"), None).err().unwrap(),
        "LINEAR_OAUTH_CLIENT_SECRET not set — cannot refresh expired token"
    );
    assert_eq!(
        refresh_credentials(Some("r"), Some(""), Some("s")).err().unwrap(),
        "OAuth refresh credentials are empty"
    );
}

#[test]
fn refresh_form_fields() {
    let c = refresh_credentials(Some("r"), Some("i"), Some("s")).ok().unwrap();
    let form = refresh_form(&c);
    let expected: Vec<(String, String)> = vec![
        ("grant_type".into(), "refresh_token".into()),
        ("refresh_token".into(), "r".into()),
        ("client_id".into(), "i".into()),
        ("client_secret".into(), "s".into()),
    ];
    assert_eq!(form, expected);
}

#[test]
fn refresh_status() {
    assert!(check_refresh_status(200, "200 OK", "").is_ok());
    assert_eq!(
        check_refresh_status(400, "400 Bad Request", "invalid_grant").unwrap_err(),
        "Token refresh failed (HTTP 400 Bad Request): invalid_grant"
    );
}

#[test]
fn retry_refreshes_once_then_fails() {
    let (s, a) = retry_step(
        RetryState::FirstAttempt,
        RetryEvent::QueryDone(Err(QueryError::Unauthorized("401".into()))),
    );
    assert_eq!(s, RetryState::Refreshing);
    assert!(matches!(a, RetryAction::RefreshToken));
    let (s, a) = retry_step(s, RetryEvent::RefreshDone(Ok(())));
    assert_eq!(s, RetryState::Retrying);
    assert!(matches!(a, RetryAction::RunQuery));
    let (s, a) = retry_step(
        s,
        RetryEvent::QueryDone(Err(QueryError::Unauthorized("still".into()))),
    );
    assert_eq!(s, RetryState::Finished);
    match a {
        RetryAction::Fail(f) => {
            assert_eq!(failure_message(&f), "Auth failed after token refresh: still");
            assert_eq!(cli_failure_message(&f), "Error executing query (after token refresh):\nstill");
        }
        other => panic!("unexpected {:?}", other),
    }
}

#[test]
fn retry_other_outcomes() {
    let (s, a) = retry_step(RetryState::FirstAttempt, RetryEvent::QueryDone(Ok(())));
    assert_eq!(s, RetryState::Finished);
    assert!(matches!(a, RetryAction::ReturnData));
    let (_, a) = retry_step(
        RetryState::FirstAttempt,
        RetryEvent::QueryDone(Err(QueryError::Other("net".into()))),
    );
    match a {
        RetryAction::Fail(f) => {
            assert_eq!(failure_message(&f), "net");
            assert_eq!(cli_failure_message(&f), "Error executing query:\nnet");
        }
        other => panic!("unexpected {:?}", other),
    }
    let (s, a) = retry_step(RetryState::Refreshing, RetryEvent::RefreshDone(Err("gone".into())));
    assert_eq!(s, RetryState::Finished);
    match a {
        RetryAction::Fail(f) => {
            assert!(matches!(f, RetryFailure::RefreshFailed(_)));
            assert_eq!(failure_message(&f), "gone");
            assert_eq!(
                cli_failure_message(&f),
                "Error executing query:\nToken expired and refresh failed: gone"
            );
        }
        other => panic!("unexpected {:?}", other),
    }
    let (_, a) = retry_step(RetryState::Retrying, RetryEvent::QueryDone(Ok(())));
    assert!(matches!(a, RetryAction::ReturnData));
}
