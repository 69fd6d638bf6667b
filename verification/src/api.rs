//! The response envelope and what each read endpoint answers.

use crate::getters;
use crate::helpers::{authorized, validate_headers};
use crate::pairs::is_pair_listing;
use crate::types::{
    APIResponse,
    Component,
    PairTag,
    Status,
    Token,
    Version,
    component_views,
    pair_views,
};
use http::HeaderMap;
use vstd::prelude::*;
use vstd::string::*;

verus! {

/// Puts an answer into the envelope: a failure with its reason and no data
/// where `error` holds one, else a success with the data and an empty
/// reason. `ts` is the time of the answer.
pub fn wrap<T>(data: Option<T>, error: Option<String>, ts: u64) -> (r: APIResponse<T>)
    ensures
        r.ts == ts,
        r.success == (error is None),
        match error {
            Some(e) => r.error@ == e@ && r.data is None,
            None => r.error@ == Seq::<char>::empty() && r.data == data,
        },
{
    match error {
        Some(err) => APIResponse { success: false, error: err, ts, data: None },
        None => APIResponse { success: true, error: String::new(), ts, data },
    }
}

/// What a read endpoint answers: the reason for turning the request away
/// where it is not authorized; else the data, or `failure` where there is
/// none.
pub fn answer<T>(
    headers: &HeaderMap,
    expected: String,
    data: Option<T>,
    failure: &str,
    ts: u64,
) -> (r: APIResponse<T>)
    ensures
        r.ts == ts,
        r.success == (authorized(*headers, expected@) && data is Some),
        r.success ==> r.error@ == Seq::<char>::empty() && r.data == data,
        !r.success ==> r.data is None,
        !authorized(*headers, expected@) ==> r.error@ == "Invalid orderbook API key"@,
        authorized(*headers, expected@) && data is None ==> r.error@ == failure@,
{
    let (allowed, msg) = validate_headers(headers, expected);
    if !allowed {
        return wrap(None, Some(msg), ts);
    }
    match data {
        Some(d) => wrap(Some(d), None, ts),
        None => wrap(None, Some(String::from_str(failure)), ts),
    }
}

/// The greeting of the root endpoint.
pub fn root(ts: u64) -> (r: APIResponse<String>)
    ensures
        r.ts == ts,
        r.success,
        r.error@ == Seq::<char>::empty(),
        r.data matches Some(s) && s@ == "Gm!"@,
{
    wrap(Some(String::from_str("Gm!")), None, ts)
}

/// The version endpoint.
pub fn version(headers: &HeaderMap, expected: String, ts: u64) -> (r: APIResponse<Version>)
    ensures
        r.ts == ts,
        r.success == authorized(*headers, expected@),
        r.success ==> r.error@ == Seq::<char>::empty() && r.data is Some
            && r.data->0.version@ == "0.1.0"@,
        !r.success ==> r.data is None && r.error@ == "Invalid orderbook API key"@,
{
    answer(headers, expected, Some(Version { version: String::from_str("0.1.0") }), "", ts)
}

/// The endpoint that lists the networks.
pub fn networks<N>(headers: &HeaderMap, expected: String, nets: Vec<N>, ts: u64) -> (r:
    APIResponse<Vec<N>>)
    ensures
        r.ts == ts,
        r.success == authorized(*headers, expected@),
        r.success ==> r.error@ == Seq::<char>::empty() && r.data == Some(nets),
        !r.success ==> r.data is None && r.error@ == "Invalid orderbook API key"@,
{
    answer(headers, expected, Some(nets), "", ts)
}

/// The status endpoint. `fetched` is the stored status, `None` where it
/// could not be read.
pub fn status(headers: &HeaderMap, expected: String, fetched: Option<Status>, ts: u64) -> (r:
    APIResponse<Status>)
    ensures
        r.ts == ts,
        r.success == (authorized(*headers, expected@) && fetched is Some),
        r.success ==> r.error@ == Seq::<char>::empty() && r.data == fetched,
        !r.success ==> r.data is None,
        !authorized(*headers, expected@) ==> r.error@ == "Invalid orderbook API key"@,
        authorized(*headers, expected@) && fetched is None ==> r.error@ == "Failed to get status"@,
{
    answer(headers, expected, fetched, "Failed to get status", ts)
}

/// The tokens endpoint. `fetched` is the stored token list.
pub fn tokens(headers: &HeaderMap, expected: String, fetched: Option<Vec<Token>>, ts: u64) -> (r:
    APIResponse<Vec<Token>>)
    ensures
        r.ts == ts,
        r.success == (authorized(*headers, expected@) && fetched is Some),
        r.success ==> r.error@ == Seq::<char>::empty() && r.data == fetched,
        !r.success ==> r.data is None,
        !authorized(*headers, expected@) ==> r.error@ == "Invalid orderbook API key"@,
        authorized(*headers, expected@) && fetched is None ==> r.error@ == "Failed to get tokens"@,
{
    answer(headers, expected, fetched, "Failed to get tokens", ts)
}

/// The components endpoint. `fetched` is the stored component list.
pub fn components(
    headers: &HeaderMap,
    expected: String,
    fetched: Option<Vec<Component>>,
    ts: u64,
) -> (r: APIResponse<Vec<Component>>)
    ensures
        r.ts == ts,
        r.success == (authorized(*headers, expected@) && fetched is Some),
        r.success ==> r.error@ == Seq::<char>::empty() && r.data == fetched,
        !r.success ==> r.data is None,
        !authorized(*headers, expected@) ==> r.error@ == "Invalid orderbook API key"@,
        authorized(*headers, expected@) && fetched is None ==> r.error@
            == "Failed to get components"@,
{
    answer(headers, expected, fetched, "Failed to get components", ts)
}

/// The pairs endpoint. `fetched` is the stored component list.
pub fn pairs(
    headers: &HeaderMap,
    expected: String,
    fetched: Option<Vec<Component>>,
    ts: u64,
) -> (r: APIResponse<Vec<PairTag>>)
    ensures
        r.ts == ts,
        r.success == (authorized(*headers, expected@) && fetched is Some),
        r.success ==> r.error@ == Seq::<char>::empty() && r.data is Some && is_pair_listing(
            component_views(fetched->0@),
            pair_views(r.data->0@),
        ),
        !r.success ==> r.data is None,
        !authorized(*headers, expected@) ==> r.error@ == "Invalid orderbook API key"@,
        authorized(*headers, expected@) && fetched is None ==> r.error@
            == "Failed to generate pair tags"@,
{
    answer(headers, expected, getters::pairs(fetched), "Failed to generate pair tags", ts)
}

/// The execute endpoint: the reason for turning the request away where
/// `rejected` holds one, else the payload that was built, or the reason why
/// building it failed.
pub fn execute<T>(rejected: Option<String>, built: Result<T, String>, ts: u64) -> (r: APIResponse<
    T,
>)
    ensures
        r.ts == ts,
        r.success == (rejected is None && built is Ok),
        r.success ==> r.error@ == Seq::<char>::empty() && r.data == Some(built->Ok_0),
        !r.success ==> r.data is None,
        rejected is Some ==> r.error@ == rejected->0@,
        rejected is None && built is Err ==> r.error@ == built->Err_0@,
{
    match rejected {
        Some(e) => wrap(None, Some(e), ts),
        None => match built {
            Ok(result) => wrap(Some(result), None, ts),
            Err(e) => wrap(None, Some(e), ts),
        },
    }
}

} // verus!
