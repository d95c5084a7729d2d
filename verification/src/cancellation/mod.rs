//! Cancellation semantics.

pub mod kind;

pub use kind::CancellationKind;
