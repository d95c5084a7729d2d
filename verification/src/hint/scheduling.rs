//! [`SchedulingHint`] — which scheduler should execute a task.

use vstd::prelude::*;

verus! {

/// Hint to the runtime about which scheduler should execute a task.
#[derive(Clone, Copy, PartialEq, Eq, Hash, Debug, Structural)]
pub enum SchedulingHint {
    /// Work-stealing scheduler — tasks may migrate between workers.
    WorkStealing,
    /// Thread-per-core scheduler — tasks are pinned to their originating core.
    ThreadPerCore,
}

impl Default for SchedulingHint {
    /// The work-stealing scheduler.
    fn default() -> (r: SchedulingHint)
        ensures
            r == SchedulingHint::WorkStealing,
    {
        SchedulingHint::WorkStealing
    }
}

} // verus!
