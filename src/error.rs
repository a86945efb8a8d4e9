use vstd::prelude::*;

verus! {

/// The ways an orchestration step can fail.
#[derive(Debug, Clone, Copy, PartialEq, Eq, Structural)]
pub enum OrchestratorError {
    /// No port of the range could be leased.
    Exhausted,
    /// The operating system could not start the worker.
    Spawn,
    /// No worker runtime answered its version probe.
    RuntimeNotFound,
    /// The session is unknown or already closed.
    SessionNotFound,
    /// A session with this id is already registered.
    SessionExists,
    /// The port is not leased, or a live worker already holds it.
    PortUnavailable,
    /// No response arrived within the deadline.
    Timeout,
    /// The worker answered with an error status.
    Worker,
}

} // verus!
