//! Bit layout of a [`super::Nid`].
//!
//! ```text
//! [127..80] seq      — 48 bits, monotonic sequence number
//! [ 79..64] depth    — 16 bits, parent-child nesting depth
//! [ 63..48] kind     — 16 bits, reserved
//! [ 47..40] version  —  8 bits, layout version
//! [ 39.. 2] worker   — 38 bits, originating worker / routing hint
//! [  1.. 0] flags    —  2 bits, reserved
//! ```

use vstd::prelude::*;

verus! {

pub const SEQ_SHIFT: u32 = 80;
pub const SEQ_BITS: u32 = 48;
pub const SEQ_MASK: u128 = 0xffff_ffff_ffff_0000_0000_0000_0000_0000;

pub const DEPTH_SHIFT: u32 = 64;
pub const DEPTH_BITS: u32 = 16;
pub const DEPTH_MASK: u128 = 0x0000_0000_0000_ffff_0000_0000_0000_0000;

pub const KIND_BITS: u32 = 16;

pub const VERSION_SHIFT: u32 = 40;
pub const VERSION_BITS: u32 = 8;

pub const WORKER_SHIFT: u32 = 2;
pub const WORKER_BITS: u32 = 38;
pub const WORKER_MASK: u128 = 0x0000_0000_0000_0000_0000_00ff_ffff_fffc;

pub const FLAGS_BITS: u32 = 2;

/// Current layout version stored in every `Nid`.
pub const CURRENT_VERSION: u8 = 0;

/// Sequence field of a raw id.
pub open spec fn nid_seq(raw: u128) -> int {
    (raw as int / 0x1_0000_0000_0000_0000_0000) % 0x1_0000_0000_0000
}

/// Depth field of a raw id.
pub open spec fn nid_depth(raw: u128) -> int {
    (raw as int / 0x1_0000_0000_0000_0000) % 0x1_0000
}

/// Version field of a raw id.
pub open spec fn nid_version(raw: u128) -> int {
    (raw as int / 0x100_0000_0000) % 0x100
}

/// Worker field of a raw id.
pub open spec fn nid_worker(raw: u128) -> int {
    (raw as int / 4) % 0x40_0000_0000
}

/// The raw id whose seq, depth and worker fields hold the given values and
/// whose kind, version and flags fields are zero.
pub open spec fn nid_bits(seq: int, depth: int, worker: int) -> int {
    seq * 0x1_0000_0000_0000_0000_0000 + depth * 0x1_0000_0000_0000_0000 + worker * 4
}

/// The layout's field widths sum to 128 and the active masks are pairwise
/// disjoint.
pub proof fn lemma_layout_partitions_word()
    ensures
        SEQ_BITS + DEPTH_BITS + KIND_BITS + VERSION_BITS + WORKER_BITS + FLAGS_BITS == 128,
        SEQ_MASK & DEPTH_MASK == 0,
        SEQ_MASK & WORKER_MASK == 0,
        DEPTH_MASK & WORKER_MASK == 0,
        SEQ_MASK | DEPTH_MASK | WORKER_MASK == SEQ_MASK ^ DEPTH_MASK ^ WORKER_MASK,
{
    assert(0xffff_ffff_ffff_0000_0000_0000_0000_0000u128 & 0x0000_0000_0000_ffff_0000_0000_0000_0000u128 == 0) by (bit_vector);
    assert(0xffff_ffff_ffff_0000_0000_0000_0000_0000u128 & 0x0000_0000_0000_0000_0000_00ff_ffff_fffcu128 == 0) by (bit_vector);
    assert(0x0000_0000_0000_ffff_0000_0000_0000_0000u128 & 0x0000_0000_0000_0000_0000_00ff_ffff_fffcu128 == 0) by (bit_vector);
    assert(0xffff_ffff_ffff_0000_0000_0000_0000_0000u128 | 0x0000_0000_0000_ffff_0000_0000_0000_0000u128 | 0x0000_0000_0000_0000_0000_00ff_ffff_fffcu128
        == 0xffff_ffff_ffff_0000_0000_0000_0000_0000u128 ^ 0x0000_0000_0000_ffff_0000_0000_0000_0000u128 ^ 0x0000_0000_0000_0000_0000_00ff_ffff_fffcu128) by (bit_vector);
}

proof fn lemma_pack_bits(s: u128, d: u128, w: u128)
    requires
        s < 0x1_0000_0000_0000_0000u128,
        d < 0x1_0000u128,
        w < 0x1_0000_0000_0000_0000u128,
    ensures
        ((s << 80u32) | (d << 64u32) | (0u128 << 40u32) | ((w & 0x3f_ffff_ffffu128) << 2u32))
            == (s % 0x1_0000_0000_0000u128) * 0x1_0000_0000_0000_0000_0000u128 + d * 0x1_0000_0000_0000_0000u128
                + (w % 0x40_0000_0000u128) * 4u128,
{
    assert(s < 0x1_0000_0000_0000_0000u128 && d < 0x1_0000u128 && w < 0x1_0000_0000_0000_0000u128 ==>
        ((s << 80u32) | (d << 64u32) | (0u128 << 40u32) | ((w & 0x3f_ffff_ffffu128) << 2u32))
        == (s % 0x1_0000_0000_0000u128) * 0x1_0000_0000_0000_0000_0000u128 + d * 0x1_0000_0000_0000_0000u128
            + (w % 0x40_0000_0000u128) * 4u128) by (bit_vector);
}

proof fn lemma_pack_fields(s: u128, d: u128, w: u128)
    requires
        s < 0x1_0000_0000_0000u128,
        d < 0x1_0000u128,
        w < 0x40_0000_0000u128,
    ensures
        nid_seq((s * 0x1_0000_0000_0000_0000_0000u128 + d * 0x1_0000_0000_0000_0000u128 + w * 4u128) as u128) == s,
        nid_depth((s * 0x1_0000_0000_0000_0000_0000u128 + d * 0x1_0000_0000_0000_0000u128 + w * 4u128) as u128) == d,
        nid_worker((s * 0x1_0000_0000_0000_0000_0000u128 + d * 0x1_0000_0000_0000_0000u128 + w * 4u128) as u128) == w,
        nid_version((s * 0x1_0000_0000_0000_0000_0000u128 + d * 0x1_0000_0000_0000_0000u128 + w * 4u128) as u128) == 0,
{
    assert(s < 0x1_0000_0000_0000u128 && d < 0x1_0000u128 && w < 0x40_0000_0000u128 ==> {
        let v = (s * 0x1_0000_0000_0000_0000_0000u128 + d * 0x1_0000_0000_0000_0000u128 + w * 4u128) as u128;
        &&& (v / 0x1_0000_0000_0000_0000_0000u128) % 0x1_0000_0000_0000u128 == s
        &&& (v / 0x1_0000_0000_0000_0000u128) % 0x1_0000u128 == d
        &&& (v / 4u128) % 0x40_0000_0000u128 == w
        &&& (v / 0x100_0000_0000u128) % 0x100u128 == 0
    }) by (bit_vector);
}

/// Packs the fields into a raw id; `worker` is masked to its 38 bits and the
/// sequence number keeps its low 48 bits.
pub fn pack(seq: u64, depth: u16, worker: u64) -> (r: u128)
    ensures
        r == nid_bits(seq as int % 0x1_0000_0000_0000, depth as int, worker as int % 0x40_0000_0000),
        nid_seq(r) == seq % 0x1_0000_0000_0000,
        nid_depth(r) == depth,
        nid_worker(r) == worker % 0x40_0000_0000,
        nid_version(r) == CURRENT_VERSION,
{
    let worker_masked = (worker as u128) & 0x3f_ffff_ffff;
    let r = ((seq as u128) << 80u32) | ((depth as u128) << 64u32) | ((CURRENT_VERSION as u128) << 40u32)
        | (worker_masked << 2u32);
    proof {
        let s = seq as u128;
        let d = depth as u128;
        let w = worker as u128;
        lemma_pack_bits(s, d, w);
        lemma_pack_fields(s % 0x1_0000_0000_0000u128, d, w % 0x40_0000_0000u128);
    }
    r
}

} // verus!
