//! The supertrait that keeps [`super::marker::Mode`] closed to other crates.

use vstd::prelude::*;

verus! {

/// Implemented only by the two mode markers.
pub trait Sealed {}

} // verus!
