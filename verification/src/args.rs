//! The crawler's configuration, as the orchestrator consumes it. Parsing the
//! command line is the outer shell's affair; this type carries the values and
//! checks them before anything is spawned.

use vstd::prelude::*;

verus! {

/// A web crawler's configuration.
pub struct Args {
    /// The target URL to start crawling from.
    pub target: String,
    /// The number of connections (fetch workers) to use.
    pub connections: u16,
    /// The number of parsers (extraction workers) to use.
    pub parsers: u16,
    /// The millisecond time interval between requests to a particular domain.
    pub interval: u64,
    /// The file to write the index to; none means a console summary.
    pub file: Option<String>,
}

impl Args {
    /// A sound configuration: each pool has at least one worker and the
    /// per-domain interval is positive.
    pub open spec fn wf(&self) -> bool {
        self.connections >= 1 && self.parsers >= 1 && self.interval >= 1
    }

    /// Check the configuration before any worker is spawned: a zero worker
    /// count or a zero interval is fatal at startup and reported by the
    /// caller.
    pub fn validate(&self) -> (ok: bool)
        ensures
            ok == self.wf(),
    {
        self.connections >= 1 && self.parsers >= 1 && self.interval >= 1
    }
}

} // verus!
