//! The engine's error taxonomy.

use vstd::prelude::*;

verus! {

/// Every way a guarded execution can fail.
///
/// Structural errors (`SchemaMismatch`, `MissingPolicyFile`) surface before
/// any propagation runs; `PolicyViolation` and
/// `UnsupportedTransformForDeclassification` come only from the terminal
/// collect gate; `InvalidPolicyLabel` comes from reading a malformed
/// policy file.
#[derive(Debug, Clone, PartialEq, Eq)]
pub enum EngineError {
    /// A policy frame's shape does not align with its raw frame.
    SchemaMismatch,
    /// A scan had no companion policy frame.
    MissingPolicyFile,
    /// An operator without a propagation rule was treated as a
    /// non-declassifying pass-through, so the result is unverified
    /// rather than verified clean.
    UnsupportedTransformForDeclassification,
    /// The collect gate found a cell whose policy is not `Clean`; the
    /// first offending column (and row) is named, the value is not.
    PolicyViolation { column: String, col: usize, row: usize },
    /// A malformed label or operation was parsed from a policy file.
    InvalidPolicyLabel,
}

} // verus!
