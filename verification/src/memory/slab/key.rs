//! [`SlabKey`] — 64-bit packed slot reference.
//!
//! ```text
//! [63..56] reserved   — 8 bits, zero
//! [55..32] generation — 24 bits, insert-time generation
//! [31.. 0] index      — 32 bits, slot index
//! ```

use vstd::prelude::*;
use vstd::string::StringExecFns;

use crate::memory::generation::Generation;
use crate::text::{decimal, decimal_digits};

verus! {

/// Slot index packed in the low 32 bits of a key.
pub open spec fn key_index(bits: u64) -> int {
    bits as int % 0x1_0000_0000
}

/// Generation packed in bits 32..56 of a key.
pub open spec fn key_generation(bits: u64) -> int {
    (bits as int / 0x1_0000_0000) % 0x100_0000
}

/// 64-bit handle returned by `Slab::insert`.
///
/// The derived `Debug` prints the packed word, as `SlabKey(..)`; the
/// rendering with index and generation is [`SlabKey::to_debug_string`].
#[derive(Clone, Copy, PartialEq, Eq, Hash, Debug, Structural)]
pub struct SlabKey(u64);

impl SlabKey {
    /// The reserved high byte of every key is zero.
    #[verifier::type_invariant]
    spec fn reserved_bits_zero(self) -> bool {
        self.0 < 0x100_0000_0000_0000
    }

    /// The raw 64-bit representation.
    pub closed spec fn bits(self) -> u64 {
        self.0
    }

    /// The slot index this key designates.
    pub open spec fn spec_index(self) -> int {
        key_index(self.bits())
    }

    /// The generation this key was minted with.
    pub open spec fn spec_generation(self) -> int {
        key_generation(self.bits())
    }

    /// Packs `index` and the 24-bit value of `generation` into a key; the
    /// reserved high byte is zero.
    pub fn new(index: u32, generation: Generation) -> (k: SlabKey)
        ensures
            k.spec_index() == index,
            k.spec_generation() == generation.value(),
            k.bits() == generation.value() * 0x1_0000_0000 + index,
            k.bits() < 0x100_0000_0000_0000,
    {
        let g = generation.get();
        let bits = ((g as u64) << 32u64) | index as u64;
        proof {
            let g64 = g as u64;
            let i64 = index as u64;
            assert(g64 < 0x100_0000u64 ==> ((g64 << 32u64) | i64) == g64 * 0x1_0000_0000u64 + i64)
                by (bit_vector)
                requires i64 < 0x1_0000_0000u64;
        }
        SlabKey(bits)
    }

    /// Returns the slot index.
    pub fn index(self) -> (r: u32)
        ensures
            r == self.spec_index(),
    {
        let x = self.0;
        proof {
            assert((x & 0xffff_ffffu64) == x % 0x1_0000_0000) by (bit_vector);
        }
        (x & 0xffff_ffff) as u32
    }

    /// Returns the generation captured at insert time.
    pub fn generation(self) -> (r: Generation)
        ensures
            r.0 == self.spec_generation(),
            r.value() == self.spec_generation(),
    {
        let x = self.0;
        proof {
            assert(((x >> 32u64) & 0xff_ffffu64) == (x / 0x1_0000_0000) % 0x100_0000) by (bit_vector);
        }
        Generation(((x >> 32) & 0xff_ffff) as u32)
    }

    /// A debugging rendering: `SlabKey { index: .., generation: .. }`.
    pub fn to_debug_string(&self) -> (s: String)
        ensures
            s@ == "SlabKey { index: "@ + decimal_digits(self.spec_index() as nat) + ", generation: "@
                + decimal_digits(self.spec_generation() as nat) + " }"@,
    {
        let mut s = "SlabKey { index: ".to_owned();
        s.append(decimal(self.index() as u64).as_str());
        s.append(", generation: ");
        s.append(decimal(self.generation().get() as u64).as_str());
        s.append(" }");
        s
    }

    /// Returns the raw 64-bit representation; its reserved high byte is
    /// zero.
    pub fn to_bits(self) -> (r: u64)
        ensures
            r == self.bits(),
            r < 0x100_0000_0000_0000,
    {
        proof {
            use_type_invariant(self);
        }
        self.0
    }
}

} // verus!
