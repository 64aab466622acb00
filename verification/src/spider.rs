//! The fetch worker's decisions. A spider loops: it waits on the shutdown
//! signal or the next request, fetches through the rate limiter under the
//! request's domain, and hands a successful fetch on as a response. Every
//! choice in that loop is made here; the waiting, the HTTP call and the
//! channels are the runtime shell's.

use vstd::prelude::*;

verus! {

use crate::messages::{Request, Response};
use crate::urls::{url_domain, domain_of};

/// What a fetch worker does next.
pub enum SpiderAction {
    /// Leave the loop: the run is shutting down, or the request queue is
    /// closed and no more work will come.
    Exit,
    /// Drop the request: its URL has no resolvable domain to throttle under.
    Skip,
    /// Fetch the URL, throttled under the key.
    Fetch { key: String, url: String },
}

/// Decide one turn of the fetch loop from what the worker woke up to: the
/// shutdown signal wins over work; a closed queue ends the loop rather than
/// spinning; a request is fetched under its domain as throttle key, and one
/// without a domain is dropped.
pub fn spider_step(shutdown: bool, next: Option<Request>) -> (action: SpiderAction)
    ensures
        shutdown ==> action is Exit,
        !shutdown ==> match next {
            None => action is Exit,
            Some(req) => match domain_of(req.url@) {
                Some(d) => (action matches SpiderAction::Fetch { key, url } && key@ == d && url
                    == req.url),
                None => action is Skip,
            },
        },
{
    if shutdown {
        return SpiderAction::Exit;
    }
    match next {
        None => SpiderAction::Exit,
        Some(req) => match url_domain(req.url.as_str()) {
            Some(d) => SpiderAction::Fetch { key: d, url: req.url },
            None => SpiderAction::Skip,
        },
    }
}

/// What a fetch worker does with the transport's outcome, whatever came back:
/// a fetched body becomes the response handed to the extraction pool; a
/// failed fetch produces no response and the request is dropped for the run.
pub fn accept_fetch(url: String, body: Option<String>) -> (r: Option<Response>)
    ensures
        body matches Some(b) ==> (r matches Some(resp) && resp.source == url && resp.body == b),
        body is None ==> r is None,
{
    match body {
        Some(b) => Some(Response::new(url, b)),
        None => None,
    }
}

} // verus!
