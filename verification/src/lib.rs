//! Core logic of a bounded-concurrency web crawler.
//!
//! The crawl pipeline is a cycle: a request queue feeds fetch workers
//! ("spiders"), whose responses feed extraction workers, whose newly
//! discovered links become new requests. This crate holds the parts of that
//! pipeline that are plain logic — the visited-URL index with its atomic
//! claim operation, the per-domain rate-limiter schedule, the bounded queue
//! model, the shutdown flag, the worker decision steps, and the link
//! extraction rules — each with a verified contract. The asynchronous shell
//! around it (HTTP transport, channels, task spawning) lives outside.

pub mod args;
pub mod index;
pub mod limiter;
pub mod messages;
pub mod processor;
pub mod queue;
pub mod shutdown;
pub mod spider;
pub mod urls;

use vstd::prelude::*;

verus! {

use crate::index::Index;
use crate::messages::Request;
use crate::urls::norm_of;
use crate::urls::parse_url;

/// Prepare the seed: parse the operator-supplied target, claim it in the
/// fresh index so it is never scheduled again, and build the run's first
/// request. `None` where the target is not a valid URL — fatal at startup,
/// reported by the caller — or where the target is already claimed.
pub fn seed_request(index: &mut Index, target: &str) -> (r: Option<Request>)
    ensures
        match norm_of(target@) {
            None => r is None && final(index)@ == old(index)@,
            Some(u) => {
                if old(index)@.dom().contains(u) {
                    r is None && final(index)@ == old(index)@
                } else {
                    (r matches Some(req) && req.url@ == u && final(index)@ == old(index)@.insert(
                        u,
                        Set::empty(),
                    ))
                }
            },
        },
{
    match parse_url(target) {
        None => None,
        Some(u) => {
            if index.try_claim(u.as_str()) {
                Some(Request::new(u))
            } else {
                None
            }
        },
    }
}

} // verus!
