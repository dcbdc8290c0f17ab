//! The ways in which a count can fail.

use vstd::prelude::*;

verus! {

/// Errors that can occur while counting.
#[derive(Debug)]
pub enum CountingError {
    /// The native counter failed; the text says how.
    SolverError(String),
    /// The formula has no model.
    Unsatisfiable,
    /// A configuration value is out of range; the text says which.
    InvalidParameter(String),
}

} // verus!
