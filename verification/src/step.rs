//! How a system call goes on.
use vstd::prelude::*;

verus! {

/// Result of a system call that fails.
pub const FAILED: isize = -1;

/// What a system call does next. `R` is what it may ask the rest of the kernel
/// to perform.
#[derive(Clone, Copy, Debug, PartialEq, Eq)]
pub enum Step<R> {
    /// The call ends with this result.
    Return(isize),
    /// Perform the request; the call goes on with its outcome.
    Perform(R),
    /// Perform the request; the call then ends with this result.
    PerformThenReturn(R, isize),
}

} // verus!
