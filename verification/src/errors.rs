//! Error taxonomy of the transform engine.

use vstd::prelude::*;

verus! {

/// Everything that can go wrong while building a plan or running it.
#[derive(Clone, Copy, Debug, PartialEq, Eq, Structural)]
pub enum FftError {
    /// The requested length is zero or exceeds the supported maximum.
    InvalidLength,
    /// Table construction failed while a plan was being built.
    PlanBuildError,
    /// A run was attempted with buffers whose length differs from the
    /// length the handle was built for.
    LengthMismatch,
    /// An operation was attempted on a handle that was already released.
    UseAfterRelease,
    /// Scratch allocation failed while a transform was executing.
    ExecutionError,
}

} // verus!
