//! [`AffinityHint`] — CPU affinity hint for task placement.

use vstd::prelude::*;

verus! {

/// CPU affinity hint for task placement.
#[derive(Clone, Copy, PartialEq, Eq, Hash, Debug, Structural)]
pub enum AffinityHint {
    /// No placement preference — runtime decides.
    Unbound,
    /// Prefer a specific worker thread (best-effort).
    Worker(u32),
    /// Must run on a specific core (hard pin, `ThreadPerCore` only).
    Pinned(u32),
}

impl Default for AffinityHint {
    /// No placement preference.
    fn default() -> (r: AffinityHint)
        ensures
            r == AffinityHint::Unbound,
    {
        AffinityHint::Unbound
    }
}

} // verus!
