//! [`CancellationKind`] — why a cancellation was triggered.

use vstd::prelude::*;

verus! {

/// Why a cancellation was triggered.
#[derive(Clone, Copy, PartialEq, Eq, Hash, Debug, Structural)]
pub enum CancellationKind {
    /// Direct cancel — explicit user or system request.
    Hard,
    /// Deadline expired and auto-propagated to the inner task.
    Timeout,
    /// Propagated from a sibling or dependency failure in a conductor DAG.
    Failed,
}

} // verus!
