//! [`ArenaPhase`] — lifecycle phase of a bump allocator.

use vstd::prelude::*;

verus! {

/// Lifecycle phase of a [`super::BumpAllocator`].
///
/// The arena moves Build → Frozen on `freeze()` and Frozen → Build on
/// `reset()`. Allocation is permitted only in Build.
#[derive(Clone, Copy, PartialEq, Eq, Hash, Debug, Structural)]
pub enum ArenaPhase {
    /// Allocation phase.
    Build,
    /// Frozen phase: allocation returns `WrongPhase`.
    Frozen,
}

impl ArenaPhase {
    /// The phase's name.
    pub open spec fn spec_name(self) -> Seq<char> {
        match self {
            ArenaPhase::Build => "Build"@,
            ArenaPhase::Frozen => "Frozen"@,
        }
    }

    /// The phase's name.
    pub fn name(&self) -> (s: &'static str)
        ensures
            s@ == self.spec_name(),
    {
        match self {
            ArenaPhase::Build => "Build",
            ArenaPhase::Frozen => "Frozen",
        }
    }
}

} // verus!
