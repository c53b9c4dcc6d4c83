use vstd::prelude::*;
use crate::errors::ProxyError;

verus! {

/// Where a proxied POST goes: the embeddings handler, or verbatim
/// passthrough to the upstream.
#[derive(Clone, Copy, Debug, PartialEq, Eq, Structural)]
pub enum Route {
    Embeddings,
    Passthrough,
}

/// Dispatch a request path: exactly `/v1/embeddings` enters the embeddings
/// handler; every other path is passed through.
pub fn route_for(path: &String) -> (r: Route)
    ensures
        r == (if path@ == "/v1/embeddings"@ {
            Route::Embeddings
        } else {
            Route::Passthrough
        }),
{
    let embeddings_path = String::from_str("/v1/embeddings");
    if *path == embeddings_path {
        Route::Embeddings
    } else {
        Route::Passthrough
    }
}

/// Demand the forwarded credential: a request without an `Authorization`
/// header is refused, and the header's value is otherwise forwarded
/// verbatim.
pub fn authorize(header: Option<String>) -> (r: Result<String, ProxyError>)
    ensures
        match r {
            Ok(key) => header matches Some(h) && key == h,
            Err(e) => header is None && e == ProxyError::Unauthorized,
        },
{
    match header {
        Some(h) => Ok(h),
        None => Err(ProxyError::Unauthorized),
    }
}

/// The upstream URL for a request: the upstream host over TLS on its
/// default port, with the original path and query kept.
pub fn upstream_url(path_and_query: &str) -> (u: String)
    ensures
        u@ == "https://api.openai.com"@ + path_and_query@,
{
    let mut u = String::from_str("https://api.openai.com");
    u.append(path_and_query);
    u
}

} // verus!
