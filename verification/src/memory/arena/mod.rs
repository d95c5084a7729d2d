//! Conductor DAG bump allocator.

pub mod builder;
pub mod bump;
pub mod phase;

pub use builder::{BumpAllocatorBuilder, DEFAULT_BYTES, DEFAULT_DROP_SLOTS};
pub use bump::{ArenaError, BumpAllocator};
pub use phase::ArenaPhase;
