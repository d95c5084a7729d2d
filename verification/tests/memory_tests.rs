use std::cell::Cell;

use nabi::memory::arena::{ArenaError, ArenaPhase, BumpAllocator, BumpAllocatorBuilder, DEFAULT_BYTES};
use nabi::memory::slab::{Slab, SlabError, SlabKey};
use nabi::memory::Generation;

fn build_or_panic(bytes: usize, drops: usize) -> BumpAllocator {
    let Ok(arena) = BumpAllocator::builder()
        .bytes(bytes)
        .drop_slots(drops)
        .build()
    else {
        panic!("builder must succeed for valid bytes/drops")
    };
    arena
}

fn insert_or_panic<T>(slab: &mut Slab<T>, value: T) -> SlabKey {
    match slab.insert(value) {
        Ok(key) => key,
        Err(SlabError::Full) => panic!("insert must succeed: slab unexpectedly full"),
    }
}

#[test]
fn builder_default_rejects_alloc_with_drop() {
    let mut arena = build_or_panic(1024, 0);
    assert_eq!(
        arena.register_drop(4, 4).err(),
        Some(ArenaError::DropRegistryFull { capacity: 0 })
    );
}

#[test]
fn builder_zero_bytes_returns_zero_capacity() {
    assert_eq!(
        BumpAllocator::builder().bytes(0).build().err(),
        Some(ArenaError::ZeroCapacity)
    );
}

#[test]
fn builder_defaults() {
    let arena = BumpAllocatorBuilder::default().build().expect("default build");
    assert_eq!(arena.capacity(), DEFAULT_BYTES);
    assert_eq!(arena.capacity(), 65536);
    assert_eq!(arena.phase(), ArenaPhase::Build);
    assert_eq!(arena.generation(), Generation(0));
}

#[test]
fn builder_rejects_unrepresentable_capacity() {
    let bytes = (isize::MAX as usize) - 14;
    assert_eq!(
        BumpAllocator::builder().bytes(bytes).build().err(),
        Some(ArenaError::Exhausted { requested: bytes, available: 0 })
    );
}

#[test]
fn alloc_flatlayout_roundtrip() {
    let mut arena = build_or_panic(64, 0);
    let Ok(off) = arena.alloc_flat::<u32>(0xDEAD_BEEF) else {
        panic!("alloc must succeed in 64-byte arena")
    };
    let bytes: [u8; 4] = arena.as_bytes()[off..off + 4].try_into().expect("four bytes");
    let value = u32::from_ne_bytes(bytes);
    assert_eq!(value, 0xDEAD_BEEF);
}

#[test]
fn alloc_pads_to_alignment() {
    let mut arena = build_or_panic(32, 0);
    assert_eq!(arena.alloc_flat::<u8>(7), Ok(0));
    assert_eq!(arena.alloc_flat::<u64>(9), Ok(8));
    assert_eq!(arena.used(), 16);
    assert_eq!(arena.alloc_flat::<u16>(1), Ok(16));
    assert_eq!(arena.alloc_flat::<[u32; 2]>([1, 2]), Ok(20));
    assert_eq!(arena.used(), 28);
}

#[test]
fn alloc_in_frozen_returns_wrong_phase() {
    let mut arena = build_or_panic(64, 0);
    arena.freeze();
    assert_eq!(
        arena.alloc_flat::<u32>(7).err(),
        Some(ArenaError::WrongPhase {
            current: ArenaPhase::Frozen
        })
    );
}

#[test]
fn reset_zero_returns_to_build() {
    let mut arena = build_or_panic(64, 0);
    arena.freeze();
    arena.reset(0);
    assert_eq!(arena.phase(), ArenaPhase::Build);
}

#[test]
fn reset_empties_arena_and_registry() {
    let mut arena = build_or_panic(64, 1);
    arena.alloc_flat::<u64>(1).expect("fits");
    arena.register_drop(8, 8).expect("slot free");
    arena.freeze();
    arena.reset(0);
    assert_eq!(arena.used(), 0);
    assert_eq!(arena.available(), 64);
    assert_eq!(arena.register_drop(8, 8), Ok(0));
}

#[test]
fn reset_bumps_generation() {
    let mut arena = build_or_panic(64, 0);
    let g0 = arena.generation();
    arena.freeze();
    arena.reset(0);
    assert_ne!(g0, arena.generation());
    assert_eq!(arena.generation(), Generation(1));
}

#[test]
fn exhausted_returns_error_with_sizes() {
    let mut arena = build_or_panic(8, 0);
    let Ok(_) = arena.alloc_flat::<u64>(1) else {
        panic!("first u64 must fit in 8-byte arena")
    };
    let Err(err) = arena.alloc_flat::<u32>(2) else {
        panic!("second alloc must exhaust the arena")
    };
    assert!(matches!(err, ArenaError::Exhausted { .. }));
    assert_eq!(err, ArenaError::Exhausted { requested: 4, available: 0 });
}

#[test]
fn exhausted_counts_padding() {
    let mut arena = build_or_panic(12, 0);
    arena.alloc_flat::<u8>(1).expect("fits");
    assert_eq!(
        arena.alloc_flat::<u64>(2),
        Err(ArenaError::Exhausted { requested: 15, available: 11 })
    );
    assert_eq!(arena.used(), 1);
}

#[test]
fn alloc_slice_reserves_count_elements() {
    let mut arena = build_or_panic(64, 0);
    arena.alloc_flat::<u8>(1).expect("fits");
    assert_eq!(arena.alloc_slice::<u32>(3), Ok(4));
    assert_eq!(arena.used(), 16);
    assert_eq!(
        arena.alloc_slice::<u64>(usize::MAX),
        Err(ArenaError::Exhausted { requested: usize::MAX, available: 48 })
    );
    assert_eq!(
        arena.alloc_slice::<u8>(usize::MAX / 2),
        Err(ArenaError::Exhausted { requested: usize::MAX / 2, available: 48 })
    );
}

#[test]
fn drop_slot_capacity_enforced() {
    let mut arena = build_or_panic(256, 1);
    let Ok(_) = arena.register_drop(4, 4) else {
        panic!("first alloc_with_drop must succeed")
    };
    assert_eq!(
        arena.register_drop(4, 4).err(),
        Some(ArenaError::DropRegistryFull { capacity: 1 })
    );
}

#[test]
fn used_and_available_track_cursor() {
    let mut arena = build_or_panic(16, 0);
    assert_eq!(arena.used(), 0);
    assert_eq!(arena.available(), 16);
    let Ok(_) = arena.alloc_flat::<u32>(0) else {
        panic!("u32 must fit in 16-byte arena")
    };
    assert_eq!(arena.used(), 4);
    assert_eq!(arena.available(), 12);
}

#[test]
fn arenaerror_display_messages() {
    assert_eq!(
        ArenaError::ZeroCapacity.to_string(),
        "arena builder requested zero bytes"
    );
    assert_eq!(
        ArenaError::DropRegistryFull { capacity: 4 }.to_string(),
        "arena drop registry full (capacity 4)"
    );
}

#[test]
fn arenaerror_other_messages() {
    assert_eq!(
        ArenaError::Exhausted { requested: 120, available: 7 }.to_string(),
        "arena exhausted: requested 120, available 7"
    );
    assert_eq!(
        ArenaError::WrongPhase { current: ArenaPhase::Frozen }.to_string(),
        "arena allocation requires Build phase (current Frozen)"
    );
}

#[test]
fn zero_is_even_and_empty() {
    assert_eq!(Generation::zero().get(), 0);
    assert!(!Generation::zero().is_occupied());
}

#[test]
fn next_alternates_parity() {
    let g0 = Generation::zero();
    let g1 = g0.next();
    let g2 = g1.next();
    assert!(g1.is_occupied());
    assert!(!g2.is_occupied());
    assert_eq!(g1.get(), 1);
    assert_eq!(g2.get(), 2);
}

#[test]
fn wraps_at_24_bit_max() {
    let max = Generation(Generation::MAX);
    assert_eq!(max.get(), Generation::MAX);
    assert!(max.is_occupied());
    assert_eq!(max.next().get(), 0);
}

#[test]
fn pre_max_boundary() {
    let pre_max = Generation(Generation::MAX - 1);
    assert_eq!(pre_max.next().get(), Generation::MAX);
}

#[test]
fn get_masks_high_bits() {
    assert_eq!(Generation(0xFF00_0005).get(), 5);
    assert_eq!(Generation(u32::MAX).next(), Generation(0));
}

#[test]
fn repr_size_is_u32() {
    assert_eq!(
        core::mem::size_of::<Generation>(),
        core::mem::size_of::<u32>()
    );
}

#[test]
fn layout_index_generation_split() {
    let key = SlabKey::new(0xDEAD_BEEF, Generation(0x123_456));
    assert_eq!(key.index(), 0xDEAD_BEEF);
    assert_eq!(key.generation().get(), 0x123_456);
}

#[test]
fn reserved_bits_are_zero() {
    let key = SlabKey::new(u32::MAX, Generation(Generation::MAX));
    assert_eq!(key.to_bits() >> 56, 0);
}

#[test]
fn key_packs_exact_bits() {
    let key = SlabKey::new(7, Generation(0xFF00_0003));
    assert_eq!(key.to_bits(), (3u64 << 32) | 7);
}

#[test]
fn key_repr_size_is_u64() {
    assert_eq!(core::mem::size_of::<SlabKey>(), core::mem::size_of::<u64>());
}

#[test]
fn insert_get_roundtrip() {
    let mut slab: Slab<u32> = Slab::new(2);
    let key = insert_or_panic(&mut slab, 7);
    assert_eq!(slab.get(key), Some(&7));
    assert_eq!(slab.len(), 1);
}

#[test]
fn remove_returns_value_and_reuses_slot() {
    let mut slab: Slab<u32> = Slab::new(2);
    let key = insert_or_panic(&mut slab, 11);
    assert_eq!(slab.remove(key), Some(11));
    assert!(slab.is_empty());
    let key2 = insert_or_panic(&mut slab, 22);
    assert_eq!(key2.index(), key.index());
    assert_ne!(key2.generation(), key.generation());
}

#[test]
fn aba_stale_key_returns_none() {
    let mut slab: Slab<u32> = Slab::new(1);
    let key_a = insert_or_panic(&mut slab, 100);
    slab.remove(key_a);
    let key_b = insert_or_panic(&mut slab, 200);
    assert_eq!(key_a.index(), key_b.index());
    assert_eq!(slab.get(key_a), None);
    assert_eq!(slab.get(key_b), Some(&200));
}

#[test]
fn full_capacity_returns_full_error() {
    let mut slab: Slab<u32> = Slab::new(2);
    insert_or_panic(&mut slab, 1);
    insert_or_panic(&mut slab, 2);
    assert_eq!(slab.insert(3), Err(SlabError::Full));
}

#[test]
fn zero_capacity_immediately_full() {
    let mut slab: Slab<u32> = Slab::new(0);
    assert_eq!(slab.insert(1), Err(SlabError::Full));
    assert_eq!(slab.capacity(), 0);
}

#[test]
fn get_mut_modifies_in_place() {
    let mut slab: Slab<u32> = Slab::new(1);
    let key = insert_or_panic(&mut slab, 0);
    let Some(slot) = slab.get_mut(key) else {
        panic!("just-inserted key must resolve");
    };
    *slot = 99;
    assert_eq!(slab.get(key), Some(&99));
}

#[test]
fn get_mut_stale_key_returns_none() {
    let mut slab: Slab<u32> = Slab::new(1);
    let key = insert_or_panic(&mut slab, 5);
    slab.remove(key);
    assert!(slab.get_mut(key).is_none());
}

#[test]
fn iter_yields_only_occupied_in_index_order() {
    let mut slab: Slab<u32> = Slab::new(4);
    let k0 = insert_or_panic(&mut slab, 10);
    insert_or_panic(&mut slab, 20);
    insert_or_panic(&mut slab, 30);
    slab.remove(k0);
    let collected: Vec<u32> = slab.iter().iter().map(|(_, v)| **v).collect();
    assert_eq!(collected.as_slice(), &[20u32, 30]);
}

#[test]
fn iter_keys_resolve_to_their_values() {
    let mut slab: Slab<u32> = Slab::new(3);
    insert_or_panic(&mut slab, 1);
    let k = insert_or_panic(&mut slab, 2);
    insert_or_panic(&mut slab, 3);
    for (key, value) in slab.iter() {
        assert_eq!(slab.get(key), Some(value));
    }
    assert_eq!(slab.iter()[1].0, k);
}

#[test]
fn iter_empty_after_full_drain() {
    let mut slab: Slab<u32> = Slab::new(2);
    let k = insert_or_panic(&mut slab, 1);
    slab.remove(k);
    assert!(slab.iter().is_empty());
}

#[test]
fn free_list_is_lifo() {
    let mut slab: Slab<u32> = Slab::new(3);
    let a = insert_or_panic(&mut slab, 1);
    let b = insert_or_panic(&mut slab, 2);
    let c = insert_or_panic(&mut slab, 3);
    assert_eq!((a.index(), b.index(), c.index()), (0, 1, 2));
    slab.remove(a);
    slab.remove(c);
    assert_eq!(insert_or_panic(&mut slab, 4).index(), 2);
    assert_eq!(insert_or_panic(&mut slab, 5).index(), 0);
    assert_eq!(slab.insert(6), Err(SlabError::Full));
}

#[test]
fn drop_runs_on_remaining_occupied_slots() {
    struct Bomb<'a>(&'a Cell<usize>);
    impl Drop for Bomb<'_> {
        fn drop(&mut self) {
            self.0.set(self.0.get() + 1);
        }
    }
    let counter = Cell::new(0usize);
    {
        let mut slab: Slab<Bomb<'_>> = Slab::new(3);
        insert_or_panic(&mut slab, Bomb(&counter));
        let k = insert_or_panic(&mut slab, Bomb(&counter));
        insert_or_panic(&mut slab, Bomb(&counter));
        slab.remove(k);
    }
    assert_eq!(counter.get(), 3);
}

#[test]
fn len_tracks_inserts_and_removals() {
    let mut slab: Slab<u32> = Slab::new(3);
    assert_eq!(slab.len(), 0);
    let k1 = insert_or_panic(&mut slab, 1);
    insert_or_panic(&mut slab, 2);
    assert_eq!(slab.len(), 2);
    slab.remove(k1);
    assert_eq!(slab.len(), 1);
}

#[test]
fn out_of_range_index_returns_none() {
    let mut slab: Slab<u32> = Slab::new(2);
    insert_or_panic(&mut slab, 1);
    let stale = SlabKey::new(99, Generation(1));
    assert_eq!(slab.get(stale), None);
}

#[test]
fn slaberror_display_message() {
    assert_eq!(SlabError::Full.to_string(), "slab is full");
}

#[test]
fn slab_key_debug_string() {
    let key = SlabKey::new(0xDEAD_BEEF, Generation(0x123_456));
    assert_eq!(
        key.to_debug_string(),
        "SlabKey { index: 3735928559, generation: 1193046 }"
    );
}

#[test]
fn successive_allocations_do_not_overlap() {
    let mut arena = build_or_panic(64, 2);
    let a = arena.alloc_flat::<u16>(1).expect("fits");
    let b = arena.alloc_slice::<u64>(2).expect("fits");
    let c = arena.register_drop(3, 4).expect("fits");
    assert!(a + 2 <= b);
    assert_eq!(b % 8, 0);
    assert!(b + 16 <= c);
    assert_eq!(c % 4, 0);
}

#[test]
fn fresh_slab_fills_in_index_order() {
    let mut slab: Slab<u32> = Slab::new(4);
    assert_eq!(slab.len(), 0);
    assert!(slab.is_empty());
    assert!(slab.iter().is_empty());
    for expected in 0..4u32 {
        let key = insert_or_panic(&mut slab, expected * 10);
        assert_eq!(key.index(), expected);
        assert_eq!(key.generation().get(), 1);
        assert_eq!(slab.get(key), Some(&(expected * 10)));
    }
    assert_eq!(slab.len(), 4);
    assert_eq!(slab.insert(99), Err(SlabError::Full));
}

#[test]
fn iter_count_matches_len_and_keys_resolve() {
    let mut slab: Slab<u32> = Slab::new(5);
    let keys: Vec<SlabKey> = (0..5u32).map(|v| insert_or_panic(&mut slab, v)).collect();
    assert_eq!(slab.remove(keys[1]), Some(1));
    assert_eq!(slab.remove(keys[3]), Some(3));
    let items = slab.iter();
    assert_eq!(items.len(), slab.len());
    let indices: Vec<u32> = items.iter().map(|(k, _)| k.index()).collect();
    assert_eq!(indices, vec![0, 2, 4]);
    for (key, value) in &items {
        assert_eq!(slab.get(*key), Some(*value));
    }
}

#[test]
fn reservation_rounds_up_to_any_supported_alignment() {
    let mut arena = build_or_panic(64, 4);
    assert_eq!(arena.alloc_flat::<u8>(1), Ok(0));
    assert_eq!(arena.register_drop(8, 16), Ok(16));
    assert_eq!(arena.used(), 24);
    assert_eq!(arena.register_drop(4, 32), Err(ArenaError::Exhausted { requested: 36, available: 40 }));
    assert_eq!(arena.used(), 24);
}
