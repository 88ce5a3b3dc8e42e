use vstd::prelude::*;

verus! {

/// Typed failures returned by the registry's mutating and reading
/// operations. Every validation failure is reported to the caller as one of
/// these; nothing is swallowed and no operation aborts the process.
#[derive(Clone, Copy, Debug, PartialEq, Eq, Structural)]
pub enum ContractError {
    /// The caller is not the principal permitted to perform the operation.
    Unauthorized,
    /// Initialization was attempted on a registry that already holds a
    /// singleton session.
    AlreadyInitialized,
    /// The singleton session was requested before it was created.
    NotFound,
}

} // verus!
