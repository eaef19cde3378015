//! The failures that end a validation run.

use vstd::prelude::*;

verus! {

/// Why a run was aborted before the comparison could take place.
#[derive(Clone, Copy, Debug, PartialEq, Eq, Structural)]
pub enum HarnessError {
    /// The generator was asked for keys from an empty range.
    InvalidConfiguration,
    /// The engine rejected the program description.
    CompileError,
    /// The engine aborted while executing the program.
    RuntimeError,
}

} // verus!
