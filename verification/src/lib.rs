//! Verified core of the Nabi async runtime: identifiers, generational
//! handles, the per-worker slab, the bump arena, task lifecycle rules and
//! the intrusive children list.

pub mod cancellation;
pub mod flat;
pub mod hint;
pub mod id;
pub mod memory;
pub mod task;
pub mod uring;

pub use hint::{AffinityHint, SchedulingHint};
pub use id::{Nid, NidError, NidSequence};
pub mod text;
