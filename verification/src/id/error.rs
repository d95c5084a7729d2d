//! Error type for the `id` module.

use vstd::prelude::*;
use vstd::string::StringExecFns;

verus! {

/// Errors emitted by [`super::Nid`] operations.
#[derive(Clone, Copy, PartialEq, Eq, Debug, Structural)]
pub enum NidError {
    /// `child()` was called on a `Nid` whose depth is already at `u16::MAX`.
    DepthOverflow,
}

impl NidError {
    /// Human-readable description of the error.
    pub fn to_string(&self) -> (s: String)
        ensures
            s@ == "Nid depth would exceed u16::MAX"@,
    {
        "Nid depth would exceed u16::MAX".to_owned()
    }
}

} // verus!
