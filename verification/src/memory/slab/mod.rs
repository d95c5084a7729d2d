//! Per-worker generational slab and its packed key.

pub mod key;
pub mod slab;

pub use key::SlabKey;
pub use slab::{Slab, SlabError};
