//! [`Nid`] — tree-structured observability identifier, its constructors,
//! relations and error type.

pub mod error;
pub mod generate;
pub mod layout;
pub mod nid;
pub mod relation;

pub use error::NidError;
pub use generate::NidSequence;
pub use nid::Nid;
