use vstd::prelude::*;

verus! {

/// Why a path-emission call failed.
#[derive(Clone, Copy, PartialEq, Eq, Structural, Debug)]
pub enum EmitError {
    /// The caller-owned point source could not be read, or did not have the
    /// expected `(n, 2)` shape.
    InputAccess,
    /// A drawing-context operation reported a failure. The operations already
    /// issued to the context are not undone.
    ContextCall,
}

/// The failure report of a single drawing-context operation.
#[derive(Clone, Copy, PartialEq, Eq, Structural, Debug)]
pub struct ContextError;

} // verus!
