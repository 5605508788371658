use vstd::prelude::*;

verus! {

/// The error taxonomy of the persistence core.
#[derive(Clone, Copy, Debug, PartialEq, Eq, Structural)]
pub enum Error {
    /// A save-time invariant was violated: the conversation has no exchanges
    /// or its first exchange carries no query text.
    Validation,
    /// No row matches the requested id, project, and owner. Used uniformly
    /// for true absence and for rows owned by someone else.
    NotFound,
    /// The persistence engine failed mid-transaction. Never produced by the
    /// in-memory model; reserved for callers that run against a real engine.
    Storage,
    /// A stored transport blob could not be decoded back into exchanges.
    Internal,
}

} // verus!
