//! The ways in which the library refuses its input. Failures of the
//! operating system and of the archive writer arise with the caller, who
//! performs those calls, and are reported to a worker as a failed step.

use vstd::prelude::*;

verus! {

/// Why an operation of the library was refused.
#[derive(Clone, Copy, Debug, PartialEq, Eq, Structural)]
pub enum TriageError {
    /// The path is malformed: it has no drive letter followed by a colon.
    BadPath,
    /// The destination buffer is smaller than one cluster.
    BufferTooSmall,
    /// The file's layout is one the raw reader does not handle.
    Unsupported,
}

} // verus!
