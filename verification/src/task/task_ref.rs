//! [`TaskRef`] — 64-bit packed task handle.
//!
//! Path-agnostic: overlays metadata on either a [`SlabKey`] (spawn path) or
//! an arena offset and [`Generation`] (conductor path). The routing worker id
//! is carried in-band so any thread can locate the task.
//!
//! ```text
//! [63]     tag        — 0 = slab path, 1 = arena path
//! [62..56] worker_id  — 7 bits, routing target (≤ 127)
//! [55..32] generation — 24 bits
//! [31.. 0] index      — 32 bits, slab slot index or arena offset
//! ```

use vstd::prelude::*;
use vstd::string::StringExecFns;

use crate::memory::generation::Generation;
use crate::memory::slab::key::{key_generation, key_index, SlabKey};
use crate::text::{decimal, decimal_digits};

verus! {

/// Tag bit of a raw handle: 1 on the arena path.
pub open spec fn ref_tag(bits: u64) -> int {
    bits as int / 0x8000_0000_0000_0000
}

/// Worker field of a raw handle.
pub open spec fn ref_worker(bits: u64) -> int {
    (bits as int / 0x100_0000_0000_0000) % 0x80
}

/// 64-bit task handle. `Copy`, path-agnostic over slab and arena.
///
/// The derived `Debug` prints the packed word, as `TaskRef(..)`; the
/// rendering with path, worker, generation and index is
/// [`TaskRef::to_debug_string`].
#[derive(Clone, Copy, PartialEq, Eq, Hash, Debug, Structural)]
pub struct TaskRef(u64);

impl TaskRef {
    /// Maximum routable worker id (`2^7 - 1`).
    pub const WORKER_ID_MAX: u8 = 127;

    /// The raw 64-bit representation.
    pub closed spec fn bits(self) -> u64 {
        self.0
    }

    /// Whether the handle is on the arena path.
    pub open spec fn spec_is_arena(self) -> bool {
        ref_tag(self.bits()) == 1
    }

    /// The routing worker id.
    pub open spec fn spec_worker_id(self) -> int {
        ref_worker(self.bits())
    }

    /// The generation field.
    pub open spec fn spec_generation(self) -> int {
        key_generation(self.bits())
    }

    /// The slot index or arena offset.
    pub open spec fn spec_index(self) -> int {
        key_index(self.bits())
    }

    /// Constructs a slab-path reference: the worker id is laid over the
    /// key's zero high byte.
    pub fn from_slab(worker_id: u8, key: SlabKey) -> (r: TaskRef)
        requires
            worker_id <= TaskRef::WORKER_ID_MAX,
        ensures
            r.bits() == worker_id as int * 0x100_0000_0000_0000 + key.bits(),
            !r.spec_is_arena(),
            r.spec_worker_id() == worker_id,
            r.spec_generation() == key.spec_generation(),
            r.spec_index() == key.spec_index(),
    {
        let k = key.to_bits();
        let w = worker_id as u64;
        let bits = (w << 56u64) | k;
        proof {
            assert(w <= 127u64 && k < 0x100_0000_0000_0000u64 ==> {
                let b = (w << 56u64) | k;
                &&& b == w * 0x100_0000_0000_0000u64 + k
                &&& b / 0x8000_0000_0000_0000u64 == 0
                &&& (b / 0x100_0000_0000_0000u64) % 0x80u64 == w
                &&& (b / 0x1_0000_0000u64) % 0x100_0000u64 == (k / 0x1_0000_0000u64) % 0x100_0000u64
                &&& b % 0x1_0000_0000u64 == k % 0x1_0000_0000u64
            }) by (bit_vector);
        }
        TaskRef(bits)
    }

    /// Constructs an arena-path reference from a worker id, an offset and
    /// the 24-bit value of a generation.
    pub fn from_arena(worker_id: u8, offset: u32, generation: Generation) -> (r: TaskRef)
        requires
            worker_id <= TaskRef::WORKER_ID_MAX,
        ensures
            r.bits() == 0x8000_0000_0000_0000 + worker_id as int * 0x100_0000_0000_0000
                + generation.value() * 0x1_0000_0000 + offset,
            r.spec_is_arena(),
            r.spec_worker_id() == worker_id,
            r.spec_generation() == generation.value(),
            r.spec_index() == offset,
    {
        let g = generation.get() as u64;
        let w = worker_id as u64;
        let o = offset as u64;
        let bits = 0x8000_0000_0000_0000u64 | (w << 56u64) | (g << 32u64) | o;
        proof {
            assert(w <= 127u64 && g < 0x100_0000u64 && o < 0x1_0000_0000u64 ==> {
                let b = 0x8000_0000_0000_0000u64 | (w << 56u64) | (g << 32u64) | o;
                &&& b == 0x8000_0000_0000_0000u64 + w * 0x100_0000_0000_0000u64 + g * 0x1_0000_0000u64 + o
                &&& b / 0x8000_0000_0000_0000u64 == 1
                &&& (b / 0x100_0000_0000_0000u64) % 0x80u64 == w
                &&& (b / 0x1_0000_0000u64) % 0x100_0000u64 == g
                &&& b % 0x1_0000_0000u64 == o
            }) by (bit_vector);
        }
        TaskRef(bits)
    }

    /// Returns `true` for arena-path references, `false` for slab-path.
    pub fn is_arena(self) -> (r: bool)
        ensures
            r == self.spec_is_arena(),
    {
        let x = self.0;
        proof {
            assert(x >> 63u64 == x / 0x8000_0000_0000_0000u64) by (bit_vector);
        }
        x >> 63u64 == 1
    }

    /// Returns the routing worker id.
    pub fn worker_id(self) -> (r: u8)
        ensures
            r == self.spec_worker_id(),
    {
        let x = self.0;
        proof {
            assert((x >> 56u64) & 0x7fu64 == (x / 0x100_0000_0000_0000u64) % 0x80u64) by (bit_vector);
        }
        ((x >> 56u64) & 0x7f) as u8
    }

    /// Returns the generation captured at construction.
    pub fn generation(self) -> (r: Generation)
        ensures
            r.0 == self.spec_generation(),
            r.value() == self.spec_generation(),
    {
        let x = self.0;
        proof {
            assert(((x >> 32u64) & 0xff_ffffu64) == (x / 0x1_0000_0000u64) % 0x100_0000u64) by (bit_vector);
        }
        Generation(((x >> 32u64) & 0xff_ffff) as u32)
    }

    /// Returns the slot index (slab path) or arena offset (arena path).
    pub fn index(self) -> (r: u32)
        ensures
            r == self.spec_index(),
    {
        let x = self.0;
        proof {
            assert((x & 0xffff_ffffu64) == x % 0x1_0000_0000u64) by (bit_vector);
        }
        (x & 0xffff_ffff) as u32
    }

    /// Returns the raw 64-bit representation.
    pub fn raw(self) -> (r: u64)
        ensures
            r == self.bits(),
    {
        self.0
    }

    /// A debugging rendering that names the path and the fields:
    /// `TaskRef { path: "arena", worker_id: .., generation: .., index: .. }`.
    pub fn to_debug_string(&self) -> (s: String)
        ensures
            s@ == "TaskRef { path: "@ + (if self.spec_is_arena() { "\"arena\""@ } else { "\"slab\""@ })
                + ", worker_id: "@ + decimal_digits(self.spec_worker_id() as nat) + ", generation: "@
                + decimal_digits(self.spec_generation() as nat) + ", index: "@ + decimal_digits(
                self.spec_index() as nat,
            ) + " }"@,
    {
        let mut s = "TaskRef { path: ".to_owned();
        if self.is_arena() {
            s.append("\"arena\"");
        } else {
            s.append("\"slab\"");
        }
        s.append(", worker_id: ");
        s.append(decimal(self.worker_id() as u64).as_str());
        s.append(", generation: ");
        s.append(decimal(self.generation().get() as u64).as_str());
        s.append(", index: ");
        s.append(decimal(self.index() as u64).as_str());
        s.append(" }");
        s
    }

    /// Reconstructs a [`TaskRef`] from its raw 64-bit form.
    pub fn from_raw(raw: u64) -> (r: TaskRef)
        ensures
            r.bits() == raw,
    {
        TaskRef(raw)
    }
}

/// A handle is determined by its raw bits: `from_raw(t.raw())` is `t`.
pub proof fn lemma_raw_determines_handle(a: TaskRef, b: TaskRef)
    ensures
        a.bits() == b.bits() <==> a == b,
{
}

} // verus!
