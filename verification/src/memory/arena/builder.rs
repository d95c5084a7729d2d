//! [`BumpAllocatorBuilder`] — fluent constructor for a bump allocator.

use vstd::prelude::*;

use crate::memory::arena::bump::{ArenaError, BumpAllocator, MAX_ALIGN};

verus! {

/// Default backing capacity in bytes when `bytes` is not set.
pub const DEFAULT_BYTES: usize = 65536;

/// Default drop-slot capacity when `drop_slots` is not set. Zero forbids
/// drop registrations entirely.
pub const DEFAULT_DROP_SLOTS: usize = 0;

/// Builder for [`BumpAllocator`]. Obtain via [`BumpAllocator::builder`].
#[derive(Clone, Copy, Debug)]
pub struct BumpAllocatorBuilder {
    bytes: usize,
    drop_slots: usize,
}

impl BumpAllocatorBuilder {
    /// Requested backing capacity in bytes.
    pub closed spec fn spec_bytes(&self) -> usize {
        self.bytes
    }

    /// Requested drop-registry capacity.
    pub closed spec fn spec_drop_slots(&self) -> usize {
        self.drop_slots
    }

    /// A builder with the default settings.
    pub fn new() -> (b: BumpAllocatorBuilder)
        ensures
            b.spec_bytes() == DEFAULT_BYTES,
            b.spec_drop_slots() == DEFAULT_DROP_SLOTS,
    {
        BumpAllocatorBuilder { bytes: DEFAULT_BYTES, drop_slots: DEFAULT_DROP_SLOTS }
    }

    /// Sets the backing buffer capacity in bytes.
    pub fn bytes(self, bytes: usize) -> (b: BumpAllocatorBuilder)
        ensures
            b.spec_bytes() == bytes,
            b.spec_drop_slots() == self.spec_drop_slots(),
    {
        BumpAllocatorBuilder { bytes, drop_slots: self.drop_slots }
    }

    /// Sets the maximum number of drop registrations; zero forbids them.
    pub fn drop_slots(self, drop_slots: usize) -> (b: BumpAllocatorBuilder)
        ensures
            b.spec_bytes() == self.spec_bytes(),
            b.spec_drop_slots() == drop_slots,
    {
        BumpAllocatorBuilder { bytes: self.bytes, drop_slots }
    }

    /// Constructs the [`BumpAllocator`]; fails with `ZeroCapacity` when
    /// `bytes` is zero.
    pub fn build(self) -> (r: Result<BumpAllocator, ArenaError>)
        ensures
            self.spec_bytes() == 0 ==> r == Err::<BumpAllocator, ArenaError>(ArenaError::ZeroCapacity),
            self.spec_bytes() > 0 && self.spec_bytes() + MAX_ALIGN > isize::MAX + 1 ==> r
                == Err::<BumpAllocator, ArenaError>(
                ArenaError::Exhausted { requested: self.spec_bytes(), available: 0 },
            ),
            self.spec_bytes() > 0 && self.spec_bytes() + MAX_ALIGN <= isize::MAX + 1 ==> r is Ok,
            r is Ok ==> {
                let a = r->Ok_0;
                &&& a.wf()
                &&& a.spec_capacity() == self.spec_bytes()
                &&& a.spec_used() == 0
                &&& a.spec_phase() == crate::memory::arena::phase::ArenaPhase::Build
                &&& a.spec_generation() == crate::memory::generation::Generation(0)
                &&& a.spec_drop_count() == 0
                &&& a.spec_drop_capacity() == self.spec_drop_slots()
            },
    {
        BumpAllocator::from_builder(self.bytes, self.drop_slots)
    }
}

impl Default for BumpAllocatorBuilder {
    fn default() -> (b: BumpAllocatorBuilder)
        ensures
            b.spec_bytes() == DEFAULT_BYTES,
            b.spec_drop_slots() == DEFAULT_DROP_SLOTS,
    {
        BumpAllocatorBuilder::new()
    }
}

} // verus!
