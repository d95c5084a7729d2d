//! [`Generation`] — 24-bit wrapping counter shared by slab and arena.
//!
//! The slab treats parity as occupancy (odd = occupied, even = empty) and
//! bumps the generation on both insert and remove; the arena uses the
//! counter as a plain version tag bumped once per reset.

use vstd::prelude::*;

verus! {

/// Number of bits kept by a [`Generation`].
pub const GENERATION_BITS: u32 = 24;

/// 24-bit wrapping generation counter.
///
/// The derived `Debug` prints `Generation(n)` with the counter's value.
#[derive(Clone, Copy, PartialEq, Eq, Hash, Debug, Default, Structural)]
pub struct Generation(pub u32);

/// `2^24 - 1` as a mathematical integer.
pub open spec fn generation_max() -> int {
    0xff_ffff
}

/// The counter's value modulo `2^24`.
pub open spec fn generation_value(raw: u32) -> int {
    raw as int % 0x100_0000
}

impl Generation {
    /// Maximum 24-bit value (`2^24 - 1`).
    pub const MAX: u32 = 0xff_ffff;

    /// The value this generation denotes: its raw bits modulo `2^24`.
    pub open spec fn value(self) -> int {
        generation_value(self.0)
    }

    /// The initial generation, zero: even, so it marks an empty slot.
    pub fn zero() -> (g: Generation)
        ensures
            g.0 == 0,
            g.value() == 0,
    {
        Generation(0)
    }

    /// Returns the raw value masked to 24 bits.
    pub fn get(self) -> (r: u32)
        ensures
            r == self.value(),
            r <= Generation::MAX,
    {
        let r = self.0 & Self::MAX;
        proof {
            let x = self.0;
            assert(x & 0xff_ffffu32 == x % 0x100_0000) by (bit_vector);
        }
        r
    }

    /// Returns `true` when the generation parity marks a slot as occupied.
    pub fn is_occupied(self) -> (r: bool)
        ensures
            r == (self.0 % 2 == 1),
    {
        proof {
            let x = self.0;
            assert((x & 1u32 == 1u32) == (x % 2 == 1)) by (bit_vector);
        }
        self.0 & 1 == 1
    }

    /// Increments the generation, wrapping at `2^24`.
    pub fn next(self) -> (r: Generation)
        ensures
            r.0 == (self.0 as int + 1) % 0x100_0000,
            r.0 <= Generation::MAX,
    {
        let w = self.0.wrapping_add(1);
        let r = w & Self::MAX;
        proof {
            let x = self.0;
            if x == 0xffff_ffffu32 {
                assert(w == 0);
                assert(0u32 & 0xff_ffffu32 == 0u32) by (bit_vector);
            } else {
                assert(w == x + 1);
                assert(w & 0xff_ffffu32 == w % 0x100_0000) by (bit_vector);
            }
        }
        Generation(r)
    }
}

/// Advancing a generation flips its occupancy parity and advances its
/// 24-bit value by one, wrapping at `2^24`.
pub proof fn lemma_next_flips_parity_and_advances(g: Generation)
    ensures
        ((g.0 as int + 1) % 0x100_0000) % 2 != g.0 % 2,
        generation_value(((g.0 as int + 1) % 0x100_0000) as u32) == (g.value() + 1) % 0x100_0000,
{
}

} // verus!
