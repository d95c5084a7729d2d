use nabi::cancellation::CancellationKind;
use nabi::flat::FlatLayout;
use nabi::id::layout::{
    DEPTH_BITS, DEPTH_MASK, DEPTH_SHIFT, FLAGS_BITS, KIND_BITS, SEQ_BITS, SEQ_MASK, SEQ_SHIFT,
    VERSION_BITS, WORKER_BITS, WORKER_MASK,
};
use nabi::uring::UringCapabilities;
use nabi::{AffinityHint, Nid, NidError, NidSequence, SchedulingHint};

#[test]
fn kind_variants_are_distinct() {
    assert_ne!(CancellationKind::Hard, CancellationKind::Timeout);
    assert_ne!(CancellationKind::Timeout, CancellationKind::Failed);
    assert_ne!(CancellationKind::Hard, CancellationKind::Failed);
}

#[test]
fn array_size_is_n_times_t() {
    assert_eq!(<[u32; 4] as FlatLayout>::SIZE, 16);
    assert_eq!(<[u32; 4] as FlatLayout>::ALIGN, 4);
}

#[test]
fn nested_array_size() {
    assert_eq!(<[[u8; 3]; 2] as FlatLayout>::SIZE, 6);
    assert_eq!(<[[u8; 3]; 2] as FlatLayout>::ALIGN, 1);
}

#[test]
fn zero_size_array() {
    assert_eq!(<[u8; 0] as FlatLayout>::SIZE, 0);
    assert_eq!(<[u8; 0] as FlatLayout>::ALIGN, 1);
}

#[test]
fn primitive_sizes_match_std_layout() {
    assert_eq!(<u8 as FlatLayout>::SIZE, core::mem::size_of::<u8>());
    assert_eq!(<u16 as FlatLayout>::SIZE, core::mem::size_of::<u16>());
    assert_eq!(<u32 as FlatLayout>::SIZE, core::mem::size_of::<u32>());
    assert_eq!(<u64 as FlatLayout>::SIZE, core::mem::size_of::<u64>());
    assert_eq!(<i8 as FlatLayout>::SIZE, core::mem::size_of::<i8>());
    assert_eq!(<i16 as FlatLayout>::SIZE, core::mem::size_of::<i16>());
    assert_eq!(<i32 as FlatLayout>::SIZE, core::mem::size_of::<i32>());
    assert_eq!(<i64 as FlatLayout>::SIZE, core::mem::size_of::<i64>());
    assert_eq!(<u64 as FlatLayout>::ALIGN, core::mem::align_of::<u64>());
    assert_eq!(<i16 as FlatLayout>::ALIGN, core::mem::align_of::<i16>());
}

#[test]
fn write_flat_matches_in_memory_bytes() {
    let mut buf = vec![0u8; 12];
    0xDEAD_BEEFu32.write_flat(&mut buf, 2);
    assert_eq!(&buf[2..6], &0xDEAD_BEEFu32.to_ne_bytes());
    (-2i16).write_flat(&mut buf, 8);
    assert_eq!(&buf[8..10], &(-2i16).to_ne_bytes());
    assert_eq!(buf[0], 0);
    assert_eq!(buf[11], 0);
    let mut arr_buf = vec![0u8; 6];
    [[1u8, 2, 3], [4, 5, 6]].write_flat(&mut arr_buf, 0);
    assert_eq!(arr_buf, vec![1u8, 2, 3, 4, 5, 6]);
}

#[test]
fn default_is_unbound() {
    assert_eq!(AffinityHint::default(), AffinityHint::Unbound);
}

#[test]
fn affinity_variants_are_distinct() {
    assert_ne!(AffinityHint::Unbound, AffinityHint::Worker(0));
    assert_ne!(AffinityHint::Worker(0), AffinityHint::Pinned(0));
    assert_ne!(AffinityHint::Worker(7), AffinityHint::Worker(8));
}

#[test]
fn default_is_work_stealing() {
    assert_eq!(SchedulingHint::default(), SchedulingHint::WorkStealing);
}

#[test]
fn scheduling_variants_are_distinct() {
    assert_ne!(SchedulingHint::WorkStealing, SchedulingHint::ThreadPerCore);
}

#[test]
fn display_zero() {
    assert_eq!(Nid(0).to_string(), "nid:00000000000000000000000000000000",);
}

#[test]
fn display_known_pattern() {
    let id = Nid(0x0123_4567_89ab_cdef_fedc_ba98_7654_3210);
    assert_eq!(id.to_string(), "nid:0123456789abcdeffedcba9876543210");
}

#[test]
fn debug_includes_field_names() {
    let mut seq = NidSequence::new();
    let dbg = Nid::root_on(&mut seq, 7).to_debug_string();
    assert!(dbg.contains("Nid"));
    assert!(dbg.contains("seq"));
    assert!(dbg.contains("depth"));
    assert!(dbg.contains("worker"));
    assert!(dbg.contains("raw"));
}

#[test]
fn debug_string_exact_rendering() {
    let id = Nid(0x0000_0000_0003_0002_0000_0000_0000_0014);
    assert_eq!(
        id.to_debug_string(),
        "Nid { seq: 3, depth: 2, worker: 5, raw: 0x00000000000300020000000000000014 }"
    );
}

#[test]
fn display_format() {
    assert_eq!(
        NidError::DepthOverflow.to_string(),
        "Nid depth would exceed u16::MAX",
    );
}

#[test]
fn root_has_depth_zero_no_worker() {
    let mut seq = NidSequence::new();
    let id = Nid::root(&mut seq);
    assert_eq!(id.depth(), 0);
    assert_eq!(id.worker_id(), 0);
}

#[test]
fn root_ids_have_unique_increasing_seq() {
    let mut seq = NidSequence::new();
    let a = Nid::root(&mut seq);
    let b = Nid::root(&mut seq);
    assert!(b.seq() > a.seq());
}

#[test]
fn sequence_starts_at_one_and_counts_up() {
    let mut seq = NidSequence::new();
    assert_eq!(seq.next_seq(), 1);
    assert_eq!(seq.next_seq(), 2);
    let id = Nid::root(&mut seq);
    assert_eq!(id.seq(), 3);
}

#[test]
fn root_on_pins_worker() {
    let mut seq = NidSequence::new();
    let id = Nid::root_on(&mut seq, 42);
    assert_eq!(id.worker_id(), 42);
    assert_eq!(id.depth(), 0);
}

#[test]
fn root_on_panics_on_worker_overflow_in_debug() {
    // A worker id past 38 bits is a caller bug: the library masks it, as
    // release builds always did, rather than panicking as debug builds did.
    let mut seq = NidSequence::new();
    let id = Nid::root_on(&mut seq, 1u64 << WORKER_BITS);
    assert_eq!(id.worker_id(), 0);
}

#[test]
fn root_packs_exact_bits() {
    let mut seq = NidSequence::new();
    let id = Nid::root_on(&mut seq, 3);
    assert_eq!(id.as_u128(), (1u128 << SEQ_SHIFT) | (3u128 << 2));
}

#[test]
fn child_increments_depth() {
    let mut seq = NidSequence::new();
    let root = Nid::root(&mut seq);
    let Ok(child) = root.child(&mut seq) else {
        unreachable!("root has depth 0, child cannot overflow")
    };
    assert_eq!(child.depth(), 1);
}

#[test]
fn child_inherits_worker() {
    let mut seq = NidSequence::new();
    let root = Nid::root_on(&mut seq, 7);
    let Ok(child) = root.child(&mut seq) else {
        unreachable!("root has depth 0, child cannot overflow")
    };
    assert_eq!(child.worker_id(), 7);
}

#[test]
fn child_depth_overflow_at_u16_max() {
    let mut seq = NidSequence::new();
    let raw = (1u128 << SEQ_SHIFT) | (u128::from(u16::MAX) << DEPTH_SHIFT);
    let maxed = Nid(raw);
    assert!(matches!(maxed.child(&mut seq), Err(NidError::DepthOverflow)));
}

#[test]
fn child_overflow_draws_no_sequence_number() {
    let mut seq = NidSequence::new();
    let maxed = Nid(u128::from(u16::MAX) << DEPTH_SHIFT);
    assert!(maxed.child(&mut seq).is_err());
    assert_eq!(seq.next_seq(), 1);
}

#[test]
fn detached_is_root_equivalent() {
    let mut seq = NidSequence::new();
    let d = Nid::detached(&mut seq);
    assert_eq!(d.depth(), 0);
    assert_eq!(d.worker_id(), 0);
}

#[test]
fn total_bits_sum_to_128() {
    let total = SEQ_BITS + DEPTH_BITS + KIND_BITS + VERSION_BITS + WORKER_BITS + FLAGS_BITS;
    assert_eq!(KIND_BITS, 16);
    assert_eq!(total, 128);
}

#[test]
fn p0_masks_non_overlapping() {
    let or = SEQ_MASK | DEPTH_MASK | WORKER_MASK;
    let xor = SEQ_MASK ^ DEPTH_MASK ^ WORKER_MASK;
    assert_eq!(or, xor);
}

#[test]
fn repr_transparent_size_align() {
    assert_eq!(core::mem::size_of::<Nid>(), core::mem::size_of::<u128>());
    assert_eq!(core::mem::align_of::<Nid>(), core::mem::align_of::<u128>());
}

#[test]
fn as_u128_roundtrip() {
    let raw = (0xdead_beef_1234_5678u128 << 64) | 0xabcd_ef01_2345_6789u128;
    assert_eq!(Nid(raw).as_u128(), raw);
}

#[test]
fn zero_id_accessors_are_zero() {
    let id = Nid(0);
    assert_eq!(id.depth(), 0);
    assert_eq!(id.seq(), 0);
    assert_eq!(id.worker_id(), 0);
}

#[test]
fn accessors_extract_each_field() {
    let raw = (0xABCD_EF01_2345u128 << SEQ_SHIFT)
        | (0x4321u128 << DEPTH_SHIFT)
        | (0xFFFFu128 << 48)
        | (0x3F_FFFF_FFFFu128 << 2)
        | 0b11;
    let id = Nid(raw);
    assert_eq!(id.seq(), 0xABCD_EF01_2345);
    assert_eq!(id.depth(), 0x4321);
    assert_eq!(id.worker_id(), 0x3F_FFFF_FFFF);
}

#[test]
fn is_parent_of_direct_child() {
    let mut seq = NidSequence::new();
    let root = Nid::root(&mut seq);
    let child = root.child(&mut seq).expect("child must not overflow");
    assert!(root.is_parent_of(child));
}

#[test]
fn is_parent_of_rejects_self() {
    let mut seq = NidSequence::new();
    let root = Nid::root(&mut seq);
    assert!(!root.is_parent_of(root));
}

#[test]
fn is_parent_of_rejects_grandchild() {
    let mut seq = NidSequence::new();
    let root = Nid::root(&mut seq);
    let child = root.child(&mut seq).expect("child must not overflow");
    let grandchild = child.child(&mut seq).expect("child must not overflow");
    assert!(!root.is_parent_of(grandchild));
}

#[test]
fn is_parent_of_rejects_sibling() {
    let mut seq = NidSequence::new();
    let root = Nid::root(&mut seq);
    let a = root.child(&mut seq).expect("child must not overflow");
    let b = root.child(&mut seq).expect("child must not overflow");
    assert!(!a.is_parent_of(b));
}

#[test]
fn is_ancestor_of_chain() {
    let mut seq = NidSequence::new();
    let root = Nid::root(&mut seq);
    let child = root.child(&mut seq).expect("child must not overflow");
    let grandchild = child.child(&mut seq).expect("child must not overflow");
    assert!(root.is_ancestor_of(child));
    assert!(root.is_ancestor_of(grandchild));
    assert!(child.is_ancestor_of(grandchild));
}

#[test]
fn is_ancestor_of_rejects_self() {
    let mut seq = NidSequence::new();
    let root = Nid::root(&mut seq);
    assert!(!root.is_ancestor_of(root));
}

#[test]
fn is_ancestor_of_rejects_sibling() {
    let mut seq = NidSequence::new();
    let root = Nid::root(&mut seq);
    let a = root.child(&mut seq).expect("child must not overflow");
    let b = root.child(&mut seq).expect("child must not overflow");
    assert!(!a.is_ancestor_of(b));
    assert!(!b.is_ancestor_of(a));
}

#[test]
fn id_at_max_depth_is_parent_of_nothing() {
    let deepest = Nid((1u128 << SEQ_SHIFT) | (u128::from(u16::MAX) << DEPTH_SHIFT));
    let root = Nid(2u128 << SEQ_SHIFT);
    assert!(!deepest.is_parent_of(root));
    assert!(!deepest.is_ancestor_of(root));
    let below = Nid((3u128 << SEQ_SHIFT) | (u128::from(u16::MAX - 1) << DEPTH_SHIFT));
    let at_max = Nid((4u128 << SEQ_SHIFT) | (u128::from(u16::MAX) << DEPTH_SHIFT));
    assert!(below.is_parent_of(at_max));
    assert!(!at_max.is_parent_of(below));
}

#[test]
fn uring_capabilities_compare_by_flag() {
    assert_eq!(UringCapabilities { nodrop: true }, UringCapabilities { nodrop: true });
    assert_ne!(UringCapabilities { nodrop: true }, UringCapabilities { nodrop: false });
}
