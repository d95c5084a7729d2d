//! [`Nid`] core type and accessors.

use vstd::prelude::*;
use vstd::string::StringExecFns;

use crate::id::layout::{nid_depth, nid_seq, nid_worker};
use crate::text::{decimal, decimal_digits, hex32, hex_digits};

verus! {

/// A bit-packed 128-bit tree-structured task identifier.
///
/// `Nid` is the observability primitive for tasks, conductor stages, chain
/// steps and other first-class entities. It is `Copy` and carries no heap
/// state; see [`crate::id::layout`] for the bit layout.
///
/// The derived `Debug` prints the raw word, as `Nid(..)`; the field-by-field
/// rendering with sequence, depth, worker and hex word is
/// [`Nid::to_debug_string`].
#[derive(Clone, Copy, PartialEq, Eq, Hash, PartialOrd, Ord, Debug, Structural)]
pub struct Nid(pub u128);

impl Nid {
    /// The sequence number this id carries.
    pub open spec fn spec_seq(self) -> int {
        nid_seq(self.0)
    }

    /// The nesting depth this id carries.
    pub open spec fn spec_depth(self) -> int {
        nid_depth(self.0)
    }

    /// The worker routing hint this id carries.
    pub open spec fn spec_worker(self) -> int {
        nid_worker(self.0)
    }

    /// `nid:` followed by the 32 lowercase hexadecimal digits of the raw
    /// value.
    pub fn to_string(&self) -> (s: String)
        ensures
            s@ == "nid:"@ + hex_digits(self.0 as nat, 32),
    {
        let mut s = "nid:".to_owned();
        s.append(hex32(self.0).as_str());
        s
    }

    /// A debugging rendering that names the fields:
    /// `Nid { seq: .., depth: .., worker: .., raw: 0x.. }`.
    pub fn to_debug_string(&self) -> (s: String)
        ensures
            s@ == "Nid { seq: "@ + decimal_digits(self.spec_seq() as nat) + ", depth: "@
                + decimal_digits(self.spec_depth() as nat) + ", worker: "@
                + decimal_digits(self.spec_worker() as nat) + ", raw: 0x"@ + hex_digits(self.0 as nat, 32)
                + " }"@,
    {
        let mut s = "Nid { seq: ".to_owned();
        s.append(decimal(self.seq()).as_str());
        s.append(", depth: ");
        s.append(decimal(self.depth() as u64).as_str());
        s.append(", worker: ");
        s.append(decimal(self.worker_id()).as_str());
        s.append(", raw: 0x");
        s.append(hex32(self.0).as_str());
        s.append(" }");
        s
    }

    /// Returns the raw `u128` representation.
    pub fn as_u128(self) -> (r: u128)
        ensures
            r == self.0,
    {
        self.0
    }

    /// Returns the parent-child nesting depth (0 for root).
    pub fn depth(self) -> (r: u16)
        ensures
            r == self.spec_depth(),
    {
        let x = self.0;
        proof {
            assert(((x & 0x0000_0000_0000_ffff_0000_0000_0000_0000u128) >> 64u32)
                == (x / 0x1_0000_0000_0000_0000u128) % 0x1_0000u128) by (bit_vector);
        }
        ((x & 0x0000_0000_0000_ffff_0000_0000_0000_0000) >> 64u32) as u16
    }

    /// Returns the sequence number assigned at creation.
    pub fn seq(self) -> (r: u64)
        ensures
            r == self.spec_seq(),
    {
        let x = self.0;
        proof {
            assert(((x & 0xffff_ffff_ffff_0000_0000_0000_0000_0000u128) >> 80u32)
                == (x / 0x1_0000_0000_0000_0000_0000u128) % 0x1_0000_0000_0000u128) by (bit_vector);
        }
        ((x & 0xffff_ffff_ffff_0000_0000_0000_0000_0000) >> 80u32) as u64
    }

    /// Returns the worker routing hint encoded in this id.
    pub fn worker_id(self) -> (r: u64)
        ensures
            r == self.spec_worker(),
    {
        let x = self.0;
        proof {
            assert(((x & 0x0000_0000_0000_0000_0000_00ff_ffff_fffcu128) >> 2u32)
                == (x / 4u128) % 0x40_0000_0000u128) by (bit_vector);
        }
        ((x & 0x0000_0000_0000_0000_0000_00ff_ffff_fffc) >> 2u32) as u64
    }
}

} // verus!
