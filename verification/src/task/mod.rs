//! Typed task handles, mode markers, lifecycle state and the intrusive
//! children list.

pub mod cell;
pub mod children;
pub mod marker;
mod sealed;
pub mod state;
pub mod task_ref;

pub use cell::{PollOutcome, TaskCell};
pub use marker::{Affine, Mode, Stealing};
pub use state::{LiveHalf, TaskState};
pub use task_ref::TaskRef;
