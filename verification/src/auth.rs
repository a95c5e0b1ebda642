//! Credentials: which token a query runs with, the OAuth refresh exchange, and
//! the retry of a query after its token has expired.

use vstd::prelude::*;
use crate::graphql::{is_success_status, QueryError};

verus! {

broadcast use vstd::string::group_string_axioms;

/// Response from the tracker's OAuth token refresh endpoint.
pub struct OAuthTokenResponse {
    pub access_token: String,
    pub refresh_token: Option<String>,
    pub token_type: Option<String>,
    pub expires_in: Option<u64>,
    pub scope: Option<String>,
}

/// The message when no credential is configured.
pub open spec fn missing_credentials_message() -> Seq<char> {
    "No Linear credentials found. Set LINEAR_AGENT_TOKEN (preferred) or LINEAR_API_KEY."@
}

/// A configured, non-empty credential.
pub open spec fn usable(value: Option<&str>) -> bool {
    value matches Some(v) && v@.len() > 0
}

/// Chooses the token to query with, from the values of `LINEAR_AGENT_TOKEN`
/// and `LINEAR_API_KEY` (`None` where unset): the agent token when it is set
/// and not empty, else the API key when it is set and not empty.
pub fn get_token(agent_token: Option<&str>, api_key: Option<&str>) -> (res: Result<String, String>)
    ensures
        usable(agent_token) ==> (res matches Ok(t) && t@ == agent_token->0@),
        !usable(agent_token) && usable(api_key) ==> (res matches Ok(t) && t@ == api_key->0@),
        !usable(agent_token) && !usable(api_key) ==> (res matches Err(m) && m@
            == missing_credentials_message()),{
    if let Some(token) = agent_token {
        if token.unicode_len() > 0 {
            return Ok(token.to_string());
        }
    }
    if let Some(key) = api_key {
        if key.unicode_len() > 0 {
            return Ok(key.to_string());
        }
    }
    Err(
        String::from_str(
            "No Linear credentials found. Set LINEAR_AGENT_TOKEN (preferred) or LINEAR_API_KEY.",
        ),
    )
}

/// What the refresh exchange sends besides its grant type.
pub struct RefreshCredentials {
    pub refresh_token: String,
    pub client_id: String,
    pub client_secret: String,
}

/// Checks the values of `LINEAR_REFRESH_TOKEN`, `LINEAR_OAUTH_CLIENT_ID` and
/// `LINEAR_OAUTH_CLIENT_SECRET` (`None` where unset): the first unset one is
/// reported by name; when all are set but one is empty, that is reported.
pub fn refresh_credentials(
    refresh_token: Option<&str>,
    client_id: Option<&str>,
    client_secret: Option<&str>,
) -> (res: Result<RefreshCredentials, String>)
    ensures
        refresh_token is None ==> (res matches Err(m) && m@
            == "LINEAR_REFRESH_TOKEN not set — cannot refresh expired token"@),
        refresh_token is Some && client_id is None ==> (res matches Err(m) && m@
            == "LINEAR_OAUTH_CLIENT_ID not set — cannot refresh expired token"@),
        refresh_token is Some && client_id is Some && client_secret is None ==> (res matches Err(m)
            && m@ == "LINEAR_OAUTH_CLIENT_SECRET not set — cannot refresh expired token"@),
        refresh_token is Some && client_id is Some && client_secret is Some && !(usable(
            refresh_token,
        ) && usable(client_id) && usable(client_secret)) ==> (res matches Err(m) && m@
            == "OAuth refresh credentials are empty"@),
        usable(refresh_token) && usable(client_id) && usable(client_secret) ==> (res matches Ok(c)
            && c.refresh_token@ == refresh_token->0@ && c.client_id@ == client_id->0@
            && c.client_secret@ == client_secret->0@),{
    let refresh_token = match refresh_token {
        Some(t) => t,
        None => {
            return Err(
                String::from_str("LINEAR_REFRESH_TOKEN not set — cannot refresh expired token"),
            )
        },
    };
    let client_id = match client_id {
        Some(t) => t,
        None => {
            return Err(
                String::from_str("LINEAR_OAUTH_CLIENT_ID not set — cannot refresh expired token"),
            )
        },
    };
    let client_secret = match client_secret {
        Some(t) => t,
        None => {
            return Err(
                String::from_str(
                    "LINEAR_OAUTH_CLIENT_SECRET not set — cannot refresh expired token",
                ),
            )
        },
    };
    if refresh_token.unicode_len() == 0 || client_id.unicode_len() == 0
        || client_secret.unicode_len() == 0 {
        return Err(String::from_str("OAuth refresh credentials are empty"));
    }
    Ok(
        RefreshCredentials {
            refresh_token: refresh_token.to_string(),
            client_id: client_id.to_string(),
            client_secret: client_secret.to_string(),
        },
    )
}

/// The form fields of the refresh exchange, in the order they are sent.
pub open spec fn refresh_form_spec(c: RefreshCredentials) -> Seq<(Seq<char>, Seq<char>)> {
    seq![
        ("grant_type"@, "refresh_token"@),
        ("refresh_token"@, c.refresh_token@),
        ("client_id"@, c.client_id@),
        ("client_secret"@, c.client_secret@),
    ]
}

/// The form fields of the refresh exchange.
pub fn refresh_form(credentials: &RefreshCredentials) -> (form: Vec<(String, String)>)
    ensures
        form@.map_values(|p: (String, String)| (p.0@, p.1@)) == refresh_form_spec(*credentials),
{
    let mut form: Vec<(String, String)> = Vec::new();
    form.push((String::from_str("grant_type"), String::from_str("refresh_token")));
    form.push((String::from_str("refresh_token"), credentials.refresh_token.clone()));
    form.push((String::from_str("client_id"), credentials.client_id.clone()));
    form.push((String::from_str("client_secret"), credentials.client_secret.clone()));
    assert(form@.map_values(|p: (String, String)| (p.0@, p.1@)) =~= refresh_form_spec(
        *credentials,
    ));
    form
}

/// Judges the HTTP status of the refresh exchange's reply.
pub fn check_refresh_status(status_code: u16, status_line: &str, body: &str) -> (res: Result<
    (),
    String,
>)
    ensures
        is_success_status(status_code) ==> res is Ok,
        !is_success_status(status_code) ==> (res matches Err(m) && m@ == "Token refresh failed (HTTP "@
            + status_line@ + "): "@ + body@),{
    if 200 <= status_code && status_code < 300 {
        Ok(())
    } else {
        Err(
            String::from_str("Token refresh failed (HTTP ").concat(status_line).concat(
                "): ",
            ).concat(body),
        )
    }
}

/// Where a query stands in its cycle of expiry, refresh and retry.
#[derive(Debug, Clone, Copy, PartialEq, Eq, Structural)]
pub enum RetryState {
    /// The query runs with the token it was given.
    FirstAttempt,
    /// The token was refused and is being refreshed.
    Refreshing,
    /// The query runs again with the refreshed token.
    Retrying,
    /// The cycle is over.
    Finished,
}

/// What the caller reports back after carrying out an action.
pub enum RetryEvent {
    /// A run of the query ended (its data stays with the caller).
    QueryDone(Result<(), QueryError>),
    /// The refresh exchange ended (its new tokens stay with the caller).
    RefreshDone(Result<(), String>),
}

/// Why a query failed for good.
#[derive(Debug)]
pub enum RetryFailure {
    QueryFailed(String),
    RefreshFailed(String),
    UnauthorizedAfterRefresh(String),
}

/// What the caller is to do next.
#[derive(Debug)]
pub enum RetryAction {
    /// Run the query again with the refreshed token.
    RunQuery,
    /// Refresh the token.
    RefreshToken,
    /// Hand back the data of the last run.
    ReturnData,
    /// Give up with this failure.
    Fail(RetryFailure),
}

/// The events each state waits for.
pub open spec fn retry_accepts(state: RetryState, event: RetryEvent) -> bool {
    match state {
        RetryState::FirstAttempt => event is QueryDone,
        RetryState::Refreshing => event is RefreshDone,
        RetryState::Retrying => event is QueryDone,
        RetryState::Finished => false,
    }
}

/// The state after `event`.
pub open spec fn retry_next_state(state: RetryState, event: RetryEvent) -> RetryState {
    match (state, event) {
        (RetryState::FirstAttempt, RetryEvent::QueryDone(Err(QueryError::Unauthorized(_)))) => {
            RetryState::Refreshing
        },
        (RetryState::Refreshing, RetryEvent::RefreshDone(Ok(()))) => RetryState::Retrying,
        _ => RetryState::Finished,
    }
}

/// The action after `event`: a first refusal of the token leads to a refresh,
/// a successful refresh to a second run, and every other outcome ends the cycle.
pub open spec fn retry_next_action(state: RetryState, event: RetryEvent) -> RetryAction {
    match (state, event) {
        (_, RetryEvent::QueryDone(Ok(()))) => RetryAction::ReturnData,
        (RetryState::FirstAttempt, RetryEvent::QueryDone(Err(QueryError::Unauthorized(_)))) => {
            RetryAction::RefreshToken
        },
        (_, RetryEvent::QueryDone(Err(QueryError::Unauthorized(e)))) => RetryAction::Fail(
            RetryFailure::UnauthorizedAfterRefresh(e),
        ),
        (_, RetryEvent::QueryDone(Err(QueryError::Other(e)))) => RetryAction::Fail(
            RetryFailure::QueryFailed(e),
        ),
        (_, RetryEvent::RefreshDone(Ok(()))) => RetryAction::RunQuery,
        (_, RetryEvent::RefreshDone(Err(e))) => RetryAction::Fail(RetryFailure::RefreshFailed(e)),
    }
}

/// Whether `state` waits for `event`.
pub fn retry_accepts_event(state: RetryState, event: &RetryEvent) -> (b: bool)
    ensures
        b == retry_accepts(state, *event),
{
    match (state, event) {
        (RetryState::FirstAttempt, RetryEvent::QueryDone(_)) => true,
        (RetryState::Retrying, RetryEvent::QueryDone(_)) => true,
        (RetryState::Refreshing, RetryEvent::RefreshDone(_)) => true,
        _ => false,
    }
}

/// One step of running a query with automatic token refresh on a 401.
pub fn retry_step(state: RetryState, event: RetryEvent) -> (res: (RetryState, RetryAction))
    requires
        retry_accepts(state, event),
    ensures
        res.0 == retry_next_state(state, event),
        res.1 == retry_next_action(state, event),
{
    match event {
        RetryEvent::QueryDone(Ok(())) => (RetryState::Finished, RetryAction::ReturnData),
        RetryEvent::QueryDone(Err(QueryError::Unauthorized(e))) => {
            if state == RetryState::FirstAttempt {
                (RetryState::Refreshing, RetryAction::RefreshToken)
            } else {
                (
                    RetryState::Finished,
                    RetryAction::Fail(RetryFailure::UnauthorizedAfterRefresh(e)),
                )
            }
        },
        RetryEvent::QueryDone(Err(QueryError::Other(e))) => (
            RetryState::Finished,
            RetryAction::Fail(RetryFailure::QueryFailed(e)),
        ),
        RetryEvent::RefreshDone(Ok(())) => (RetryState::Retrying, RetryAction::RunQuery),
        RetryEvent::RefreshDone(Err(e)) => (
            RetryState::Finished,
            RetryAction::Fail(RetryFailure::RefreshFailed(e)),
        ),
    }
}

/// The message of a failure, as a query with automatic refresh reports it.
pub fn failure_message(failure: &RetryFailure) -> (m: String)
    ensures
        m@ == match failure {
            RetryFailure::QueryFailed(e) => e@,
            RetryFailure::RefreshFailed(e) => e@,
            RetryFailure::UnauthorizedAfterRefresh(e) => "Auth failed after token refresh: "@ + e@,
        },
{
    match failure {
        RetryFailure::QueryFailed(e) => e.clone(),
        RetryFailure::RefreshFailed(e) => e.clone(),
        RetryFailure::UnauthorizedAfterRefresh(e) => String::from_str(
            "Auth failed after token refresh: ",
        ).concat(e.as_str()),
    }
}

/// The message of a failure, as the command-line query tool prints it.
pub fn cli_failure_message(failure: &RetryFailure) -> (m: String)
    ensures
        m@ == match failure {
            RetryFailure::QueryFailed(e) => "Error executing query:\n"@ + e@,
            RetryFailure::RefreshFailed(e) => "Error executing query:\nToken expired and refresh failed: "@
                + e@,
            RetryFailure::UnauthorizedAfterRefresh(e) => "Error executing query (after token refresh):\n"@
                + e@,
        },
{
    match failure {
        RetryFailure::QueryFailed(e) => String::from_str("Error executing query:\n").concat(
            e.as_str(),
        ),
        RetryFailure::RefreshFailed(e) => String::from_str(
            "Error executing query:\nToken expired and refresh failed: ",
        ).concat(e.as_str()),
        RetryFailure::UnauthorizedAfterRefresh(e) => String::from_str(
            "Error executing query (after token refresh):\n",
        ).concat(e.as_str()),
    }
}

/// Runs the cycle over `events` as long as it accepts them, and counts the
/// refreshes and the second runs of the query it asks for along the way:
/// `(final state, refreshes, second runs)`.
pub open spec fn retry_run(state: RetryState, events: Seq<RetryEvent>) -> (RetryState, nat, nat)
    decreases events.len(),
{
    if events.len() == 0 || !retry_accepts(state, events[0]) {
        (state, 0, 0)
    } else {
        let rest = retry_run(retry_next_state(state, events[0]), events.drop_first());
        let action = retry_next_action(state, events[0]);
        (
            rest.0,
            rest.1 + if action is RefreshToken {
                1nat
            } else {
                0nat
            },
            rest.2 + if action is RunQuery {
                1nat
            } else {
                0nat
            },
        )
    }
}

proof fn lemma_retry_run_late(state: RetryState, events: Seq<RetryEvent>)
    requires
        state != RetryState::FirstAttempt,
    ensures
        retry_run(state, events).1 == 0,
        state != RetryState::Refreshing ==> retry_run(state, events).2 == 0,
        retry_run(state, events).2 <= 1,
    decreases events.len(),
{
    if events.len() > 0 && retry_accepts(state, events[0]) {
        lemma_retry_run_late(retry_next_state(state, events[0]), events.drop_first());
    }
}

/// A query's token is refreshed at most once and the query is run again at
/// most once, whatever the outcomes of its runs and of the refresh.
pub proof fn law_refresh_at_most_once(events: Seq<RetryEvent>)
    ensures
        retry_run(RetryState::FirstAttempt, events).1 <= 1,
        retry_run(RetryState::FirstAttempt, events).2 <= 1,
{
    if events.len() > 0 && retry_accepts(RetryState::FirstAttempt, events[0]) {
        lemma_retry_run_late(
            retry_next_state(RetryState::FirstAttempt, events[0]),
            events.drop_first(),
        );
    }
}

/// How many more events a state can accept before the cycle is over.
pub open spec fn retry_budget(state: RetryState) -> int {
    match state {
        RetryState::FirstAttempt => 3,
        RetryState::Refreshing => 2,
        RetryState::Retrying => 1,
        RetryState::Finished => 0,
    }
}

proof fn lemma_retry_run_prefix(state: RetryState, events: Seq<RetryEvent>)
    requires
        retry_budget(state) <= events.len(),
    ensures
        retry_run(state, events) == retry_run(state, events.take(retry_budget(state))),
    decreases events.len(),
{
    let k = retry_budget(state);
    let short = events.take(k);
    if k == 0 {
        assert(!retry_accepts(state, events[0]) || events.len() == 0);
    } else {
        assert(short[0] == events[0]);
        if retry_accepts(state, events[0]) {
            let next = retry_next_state(state, events[0]);
            assert(retry_budget(next) <= k - 1);
            lemma_retry_run_prefix(next, events.drop_first());
            lemma_retry_run_prefix(next, short.drop_first());
            assert(short.drop_first().take(retry_budget(next)) =~= events.drop_first().take(
                retry_budget(next),
            ));
        }
    }
}

/// The cycle is over within three events (a run, a refresh and a second run):
/// whatever follows them changes nothing.
pub proof fn law_retry_finishes(events: Seq<RetryEvent>)
    requires
        events.len() >= 3,
    ensures
        retry_run(RetryState::FirstAttempt, events) == retry_run(
            RetryState::FirstAttempt,
            events.take(3),
        ),
{
    lemma_retry_run_prefix(RetryState::FirstAttempt, events);
}

/// What each outcome leads to, in every state that waits for it: the data is
/// handed back only after a successful run; a failed run, a failed refresh and
/// a second refusal each end the cycle with their own message; only a first
/// refusal asks for a refresh, and only a successful refresh for a second run.
pub proof fn law_retry_outcomes(state: RetryState, event: RetryEvent)
    requires
        retry_accepts(state, event),
    ensures
        retry_next_action(state, event) is ReturnData <==> event matches RetryEvent::QueryDone(
            Ok(_),
        ),
        retry_next_action(state, event) is ReturnData ==> retry_next_state(state, event)
            == RetryState::Finished,
        event matches RetryEvent::QueryDone(Err(QueryError::Other(e))) ==> (retry_next_action(
            state,
            event,
        ) == RetryAction::Fail(RetryFailure::QueryFailed(e)) && retry_next_state(state, event)
            == RetryState::Finished),
        event matches RetryEvent::RefreshDone(Err(e)) ==> (retry_next_action(state, event)
            == RetryAction::Fail(RetryFailure::RefreshFailed(e)) && retry_next_state(state, event)
            == RetryState::Finished),
        event matches RetryEvent::QueryDone(Err(QueryError::Unauthorized(e))) ==> (if state
            == RetryState::FirstAttempt {
            retry_next_action(state, event) is RefreshToken && retry_next_state(state, event)
                == RetryState::Refreshing
        } else {
            retry_next_action(state, event) == RetryAction::Fail(
                RetryFailure::UnauthorizedAfterRefresh(e),
            ) && retry_next_state(state, event) == RetryState::Finished
        }),
        event matches RetryEvent::RefreshDone(Ok(_)) ==> (retry_next_action(state, event) is RunQuery
            && retry_next_state(state, event) == RetryState::Retrying),
        retry_next_action(state, event) is RefreshToken ==> state == RetryState::FirstAttempt,
        retry_next_action(state, event) is RunQuery ==> state == RetryState::Refreshing,
{
}

} // verus!
