//! [`Nid`] constructors — `root`, `root_on`, `child`, `detached` — and the
//! sequence they draw from.

use vstd::prelude::*;

use crate::id::error::NidError;
use crate::id::layout::{nid_bits, pack};
use crate::id::nid::Nid;

verus! {

/// Monotonic sequence counter that ids draw their sequence numbers from.
///
/// Starts at 1 (0 is reserved for "no id") and wraps at `u64::MAX`; the id
/// keeps the low 48 bits of each number drawn.
pub struct NidSequence {
    next: u64,
}

impl NidSequence {
    /// The number the next draw returns.
    pub closed spec fn peek(&self) -> u64 {
        self.next
    }

    /// A fresh sequence whose first draw returns 1.
    pub fn new() -> (s: NidSequence)
        ensures
            s.peek() == 1,
    {
        NidSequence { next: 1 }
    }

    /// Returns the current number and advances the counter by one, wrapping
    /// at `u64::MAX`.
    pub fn next_seq(&mut self) -> (r: u64)
        ensures
            r == old(self).peek(),
            final(self).peek() == (old(self).peek() as int + 1) % 0x1_0000_0000_0000_0000,
    {
        let r = self.next;
        self.next = self.next.wrapping_add(1);
        r
    }
}

impl Nid {
    /// Creates a root-level `Nid` with depth 0 and no worker hint.
    pub fn root(seq: &mut NidSequence) -> (r: Nid)
        ensures
            final(seq).peek() == (old(seq).peek() as int + 1) % 0x1_0000_0000_0000_0000,
            r.0 == nid_bits(old(seq).peek() as int % 0x1_0000_0000_0000, 0, 0),
            r.spec_seq() == old(seq).peek() as int % 0x1_0000_0000_0000,
            r.spec_depth() == 0,
            r.spec_worker() == 0,
    {
        Nid(pack(seq.next_seq(), 0, 0))
    }

    /// Creates a root-level `Nid` pinned to a specific worker. A `worker_id`
    /// of more than 38 bits is a caller bug; it is masked to its low 38 bits
    /// (the release-build behaviour) rather than panicking.
    pub fn root_on(seq: &mut NidSequence, worker_id: u64) -> (r: Nid)
        ensures
            final(seq).peek() == (old(seq).peek() as int + 1) % 0x1_0000_0000_0000_0000,
            r.0 == nid_bits(old(seq).peek() as int % 0x1_0000_0000_0000, 0, worker_id as int % 0x40_0000_0000),
            r.spec_seq() == old(seq).peek() as int % 0x1_0000_0000_0000,
            r.spec_depth() == 0,
            r.spec_worker() == worker_id as int % 0x40_0000_0000,
    {
        Nid(pack(seq.next_seq(), 0, worker_id))
    }

    /// Creates a child `Nid` nested one level below `self`: it inherits the
    /// worker hint, has depth one more, and draws a fresh sequence number.
    /// Fails with [`NidError::DepthOverflow`] at depth `u16::MAX`, drawing
    /// nothing.
    pub fn child(self, seq: &mut NidSequence) -> (r: Result<Nid, NidError>)
        ensures
            self.spec_depth() == 0xffff <==> r is Err,
            r is Err ==> r == Err::<Nid, NidError>(NidError::DepthOverflow) && final(seq).peek() == old(seq).peek(),
            r is Ok ==> {
                let c = r->Ok_0;
                &&& final(seq).peek() == (old(seq).peek() as int + 1) % 0x1_0000_0000_0000_0000
                &&& c.0 == nid_bits(old(seq).peek() as int % 0x1_0000_0000_0000, self.spec_depth() + 1, self.spec_worker())
                &&& c.spec_seq() == old(seq).peek() as int % 0x1_0000_0000_0000
                &&& c.spec_depth() == self.spec_depth() + 1
                &&& c.spec_worker() == self.spec_worker()
            },
    {
        let d = self.depth();
        if d == 0xffff {
            return Err(NidError::DepthOverflow);
        }
        let w = self.worker_id();
        Ok(Nid(pack(seq.next_seq(), d + 1, w)))
    }

    /// Creates a detached `Nid` with no parent relationship: the same as
    /// [`Nid::root`], named for intent at the call site.
    pub fn detached(seq: &mut NidSequence) -> (r: Nid)
        ensures
            final(seq).peek() == (old(seq).peek() as int + 1) % 0x1_0000_0000_0000_0000,
            r.0 == nid_bits(old(seq).peek() as int % 0x1_0000_0000_0000, 0, 0),
            r.spec_seq() == old(seq).peek() as int % 0x1_0000_0000_0000,
            r.spec_depth() == 0,
            r.spec_worker() == 0,
    {
        Nid::root(seq)
    }
}

/// While the counter stays below `2^48 - 1`, the next draw yields an id
/// with a larger sequence number than the current one.
pub proof fn lemma_draws_increase(p: u64)
    requires
        p < 0xffff_ffff_ffff,
    ensures
        p as int % 0x1_0000_0000_0000 < ((p as int + 1) % 0x1_0000_0000_0000_0000) % 0x1_0000_0000_0000,
{
}

} // verus!
