//! The errors of a session.

use vstd::prelude::*;

verus! {

/// Why an operation on a session did not succeed.
#[derive(Clone, Copy, Debug, PartialEq, Eq, Structural)]
pub enum DtlnError {
    /// The inference engine could not be initialised: there is no session.
    Creation,
    /// The inference engine faulted: the session can no longer be used.
    EngineFailure,
    /// The session was stopped before the operation was attempted.
    SessionStopped,
    /// The output buffer cannot hold the samples that were produced.
    BufferTooSmall,
}

} // verus!
