//! The two messages that flow through the pipeline: a request for a URL to be
//! fetched, and the fetched document travelling to the extraction workers.

use vstd::prelude::*;

verus! {

/// The URL which should be downloaded next. Created when a link is discovered
/// (or as the seed) and consumed exactly once by a fetch worker.
pub struct Request {
    pub url: String,
}

impl Request {
    pub fn new(url: String) -> (r: Self)
        ensures
            r.url == url,
    {
        Self { url }
    }
}

/// The document which was downloaded from a URL. Created by a fetch worker on
/// success — a failed fetch never produces one — and consumed exactly once by
/// an extraction worker.
pub struct Response {
    /// The URL the document was fetched from.
    pub source: String,
    /// The document's text.
    pub body: String,
}

impl Response {
    pub fn new(source: String, body: String) -> (r: Self)
        ensures
            r.source == source,
            r.body == body,
    {
        Self { source, body }
    }
}

} // verus!
