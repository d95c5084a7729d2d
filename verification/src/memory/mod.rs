//! Runtime memory layer: the generational counter shared by the slab and
//! the arena, the slab itself, and the arena's bookkeeping.

pub mod arena;
pub mod generation;
pub mod slab;

pub use generation::Generation;
