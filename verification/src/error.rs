//! Errors surfaced by the library's own computations.
//!
//! Failures of the surrounding tooling (filesystem calls, process spawning,
//! configuration parsing) are reported by the binary that drives this
//! library; the library itself only fails in the two ways below.

use vstd::prelude::*;

verus! {

/// An error from the overlay manager's core logic.
#[derive(Debug)]
pub enum DtMgrError {
    /// An external command reported a non-zero exit status.
    CommandStatus { command: String, code: Option<i32> },
    /// The canonical encoding of the configuration could not be produced.
    HashConfig,
}

} // verus!
