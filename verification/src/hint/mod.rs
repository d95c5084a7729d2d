//! Task placement and scheduler-selection hints.

pub mod affinity;
pub mod scheduling;

pub use affinity::AffinityHint;
pub use scheduling::SchedulingHint;
