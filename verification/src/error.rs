//! The ways in which an operation on the tracker can be turned down.

use vstd::prelude::*;

verus! {

/// Why an operation was turned down. A failed operation leaves the tracker
/// exactly as it found it.
#[derive(Clone, Copy, Debug, PartialEq, Eq, Structural)]
pub enum TrackerError {
    /// The operation needs an open scope and none is open.
    ScopeUnderflow,
    /// No binding of that name is visible from the current scope.
    UnknownName,
    /// The nearest binding of that name has given its value away.
    UseAfterMove,
}

} // verus!
