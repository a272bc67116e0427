//! Planning one request: the mechanical shape each operation sends.
//!
//! The decisions live here, verified: which HTTP shape an operation uses,
//! which query parameters it carries and in what order, and what the body
//! holds.  Executing the plan — joining the URL, sending, awaiting — is the
//! transport's business and stays outside the crate.

use vstd::prelude::*;
use vstd::string::StringExecFns;

verus! {

/// The four operations the gateway exposes.
#[derive(Clone, Copy, PartialEq, Eq, Structural, Debug)]
pub enum OperationMode {
    /// One idempotent fetch.
    Query,
    /// One state-changing request.
    Mutate,
    /// A long-lived stream of results.
    Subscribe,
    /// A long-lived stream re-running a query on changes.
    LiveQuery,
}

/// One planned request, ready for a transport to execute.
pub struct RequestPlan {
    /// The operation's subpath under the operations root.
    pub subpath: String,
    /// True for the fetch shape, false for the post shape.
    pub use_get: bool,
    /// The query parameters, in order.
    pub query_params: Vec<(String, String)>,
    /// The body, for the post shape.
    pub body: Option<String>,
}

/// Lays out the request for one operation.  Fetch-shaped operations carry
/// the JSON-encoded input as the `wg_variables` parameter and the
/// application hash as `wg_app_hash`; the live mode adds the `wg_live`
/// marker.  The post shape sends the input as the body instead.
pub fn plan_request(
    mode: OperationMode,
    subpath: &str,
    encoded_input: String,
    application_hash: &String,
) -> (r: RequestPlan)
    ensures
        r.subpath@ == subpath@,
        r.use_get == (mode != OperationMode::Mutate),
        mode == OperationMode::Mutate ==> (r.body matches Some(b) && b@ == encoded_input@),
        mode != OperationMode::Mutate ==> r.body is None,
        mode == OperationMode::Mutate ==> r.query_params@.len() == 1 && r.query_params@[0].0@
            == "wg_app_hash"@ && r.query_params@[0].1@ == application_hash@,
        mode != OperationMode::Mutate ==> r.query_params@.len() >= 2 && r.query_params@[0].0@
            == "wg_variables"@ && r.query_params@[0].1@ == encoded_input@
            && r.query_params@[1].0@ == "wg_app_hash"@ && r.query_params@[1].1@
            == application_hash@,
        (mode == OperationMode::Query || mode == OperationMode::Subscribe)
            ==> r.query_params@.len() == 2,
        mode == OperationMode::LiveQuery ==> r.query_params@.len() == 3 && r.query_params@[2].0@
            == "wg_live"@ && r.query_params@[2].1@ == "true"@,
{
    let subpath_owned = String::from_str(subpath);
    let mut query_params: Vec<(String, String)> = Vec::new();
    if matches!(mode, OperationMode::Mutate) {
        query_params.push((String::from_str("wg_app_hash"), application_hash.clone()));
        RequestPlan { subpath: subpath_owned, use_get: false, query_params, body: Some(
            encoded_input,
        ) }
    } else {
        query_params.push((String::from_str("wg_variables"), encoded_input));
        query_params.push((String::from_str("wg_app_hash"), application_hash.clone()));
        if matches!(mode, OperationMode::LiveQuery) {
            query_params.push((String::from_str("wg_live"), String::from_str("true")));
        }
        RequestPlan { subpath: subpath_owned, use_get: true, query_params, body: None }
    }
}

} // verus!
