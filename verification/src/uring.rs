//! Kernel `io_uring` capabilities reported at ring setup.

use vstd::prelude::*;

verus! {

/// Features reported by the kernel at ring initialisation.
#[derive(Clone, Copy, PartialEq, Eq, Debug, Structural)]
pub struct UringCapabilities {
    /// `IORING_FEAT_NODROP` — CQ overflow is reported instead of silently
    /// dropping completions. Present since Linux 5.1.
    pub nodrop: bool,
}

} // verus!
