//! Typed failures reported by the module layer.

use vstd::prelude::*;

verus! {

/// Every failure a module operation can report.  Nothing is retried
/// internally and no operation mutates state on failure.
#[derive(Clone, Copy, Debug, PartialEq, Eq, Structural)]
pub enum GraphModuleError {
    /// A port or flatten operation was attempted before `numbering_ports`.
    NotInitialized,
    /// A name lookup found no port of that name.
    PortNotFound,
    /// An arena merge met an id collision it could not resolve.
    DuplicateId,
    /// A referenced node, graph or module is absent, or the hierarchy is
    /// cyclic: the collaborator broke its contract.
    MalformedGraph,
}

} // verus!
