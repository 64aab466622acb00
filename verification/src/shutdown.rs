//! The run's cancellation flag: unset at startup, set exactly once on
//! interrupt, and permanently set from then on — no operation clears it.
//! Workers observe it cooperatively at their suspension points; the broadcast
//! plumbing around it belongs to the runtime shell.

use vstd::prelude::*;

verus! {

/// The shutdown state of a run. Its view is `true` exactly when the run is
/// shutting down.
pub struct ShutdownSignal {
    fired: bool,
}

impl View for ShutdownSignal {
    type V = bool;

    closed spec fn view(&self) -> bool {
        self.fired
    }
}

impl ShutdownSignal {
    /// A run that is still going.
    pub fn new() -> (r: Self)
        ensures
            !r@,
    {
        ShutdownSignal { fired: false }
    }

    /// Move to shutting down. Signalling an already-signalled run changes
    /// nothing; there is no way back.
    pub fn signal(&mut self)
        ensures
            final(self)@,
    {
        self.fired = true;
    }

    /// Whether the run is shutting down.
    pub fn is_set(&self) -> (r: bool)
        ensures
            r == self@,
    {
        self.fired
    }
}

} // verus!
