use nabi::memory::slab::{Slab, SlabKey};
use nabi::memory::Generation;
use nabi::task::children::{iter_children, push_child, remove_child, ChildrenError, TaskStorage, TaskTable};
use nabi::task::{Affine, LiveHalf, Stealing, TaskRef, TaskState};

fn slab_key(worker_capacity: usize, value: u32) -> SlabKey {
    let mut slab: Slab<u32> = Slab::new(worker_capacity);
    let Ok(key) = slab.insert(value) else {
        panic!("insert into fresh slab must succeed");
    };
    key
}

fn fake_ref(worker_id: u8, generation: u32, index: u32) -> TaskRef {
    TaskRef::from_arena(worker_id, index, Generation(generation))
}

fn collect_children(storage: &TaskTable, parent: TaskRef) -> Vec<TaskRef> {
    iter_children(storage, parent)
}

#[test]
fn from_slab_round_trip_preserves_components() {
    let key = slab_key(4, 42);
    let task = TaskRef::from_slab(7, key);
    assert!(!task.is_arena());
    assert_eq!(task.worker_id(), 7);
    assert_eq!(task.index(), key.index());
    assert_eq!(task.generation(), key.generation());
}

#[test]
fn from_slab_overlay_is_pure_or() {
    let key = slab_key(2, 1);
    let task = TaskRef::from_slab(3, key);
    assert_eq!(task.raw(), ((3u64) << 56) | key.to_bits());
}

#[test]
fn from_arena_round_trip_at_max_generation() {
    let task = TaskRef::from_arena(5, 0xDEAD_BEEF, Generation(Generation::MAX));
    assert!(task.is_arena());
    assert_eq!(task.worker_id(), 5);
    assert_eq!(task.index(), 0xDEAD_BEEF);
    assert_eq!(task.generation().get(), Generation::MAX);
}

#[test]
fn from_arena_round_trip_at_zero_generation() {
    let task = TaskRef::from_arena(0, 0, Generation(0));
    assert!(task.is_arena());
    assert_eq!(task.worker_id(), 0);
    assert_eq!(task.index(), 0);
    assert_eq!(task.generation(), Generation(0));
}

#[test]
fn from_arena_packs_exact_bits() {
    let task = TaskRef::from_arena(1, 2, Generation(3));
    assert_eq!(task.raw(), (1u64 << 63) | (1u64 << 56) | (3u64 << 32) | 2);
}

#[test]
fn tag_bit_distinguishes_paths() {
    let key = slab_key(1, 0);
    let slab_task = TaskRef::from_slab(0, key);
    let arena_task = TaskRef::from_arena(0, 0, Generation(0));
    assert_eq!(slab_task.raw() >> 63, 0);
    assert_eq!(arena_task.raw() >> 63, 1);
}

#[test]
fn worker_id_max_boundary_round_trips() {
    let task = TaskRef::from_arena(TaskRef::WORKER_ID_MAX, 0, Generation(0));
    assert_eq!(task.worker_id(), TaskRef::WORKER_ID_MAX);
    assert_eq!(TaskRef::WORKER_ID_MAX, 127);
}

#[test]
fn raw_from_raw_is_identity() {
    let original = TaskRef::from_arena(42, u32::MAX, Generation(Generation::MAX));
    let restored = TaskRef::from_raw(original.raw());
    assert_eq!(original, restored);
}

#[test]
fn task_ref_repr_size_is_u64() {
    assert_eq!(core::mem::size_of::<TaskRef>(), core::mem::size_of::<u64>());
}

#[test]
fn worker_id_field_does_not_leak_tag_bit() {
    let task = TaskRef::from_arena(TaskRef::WORKER_ID_MAX, 0, Generation(0));
    assert_eq!(task.worker_id(), TaskRef::WORKER_ID_MAX);
    assert!(task.is_arena());
}

#[test]
fn markers_are_zero_sized() {
    assert_eq!(core::mem::size_of::<Affine>(), 0);
    assert_eq!(core::mem::size_of::<Stealing>(), 0);
}

#[test]
fn stealing_is_send_and_sync() {
    fn assert_send_sync<T: Send + Sync>() {}
    assert_send_sync::<Stealing>();
}

#[test]
fn is_terminal_classifies_every_variant() {
    assert!(!TaskState::Sleeping.is_terminal());
    assert!(!TaskState::Woken.is_terminal());
    assert!(!TaskState::Running.is_terminal());
    assert!(!TaskState::Done.is_terminal());
    assert!(TaskState::Cancelled.is_terminal());
    assert!(TaskState::Failed.is_terminal());
    assert!(TaskState::Taken.is_terminal());
}

#[test]
fn from_u8_round_trips_every_variant() {
    for variant in [
        TaskState::Sleeping,
        TaskState::Woken,
        TaskState::Running,
        TaskState::Done,
        TaskState::Cancelled,
        TaskState::Failed,
        TaskState::Taken,
    ] {
        assert_eq!(TaskState::from_u8(variant.to_u8()), variant);
    }
}

#[test]
fn transition_lifecycle_sleeping_woken_running_done_taken() {
    let s = TaskState::Sleeping;
    let s = s.wake().expect("Sleeping -> Woken");
    assert_eq!(s, TaskState::Woken);
    let s = s.transition(TaskState::Woken, TaskState::Running).expect("Woken -> Running");
    let s = s.transition(TaskState::Running, TaskState::Done).expect("Running -> Done");
    let s = s.transition(TaskState::Done, TaskState::Taken).expect("Done -> Taken");
    assert_eq!(s, TaskState::Taken);
}

#[test]
fn transition_reports_observed_state() {
    assert_eq!(TaskState::Woken.wake(), Err(TaskState::Woken));
    assert_eq!(
        TaskState::Running.transition(TaskState::Woken, TaskState::Running),
        Err(TaskState::Running)
    );
}

#[test]
fn terminal_states_absorb_every_transition() {
    for t in [TaskState::Cancelled, TaskState::Failed, TaskState::Taken] {
        assert_eq!(t.wake(), Err(t));
        assert_eq!(t.transition(t, TaskState::Sleeping), Err(t));
    }
}

#[test]
fn second_identical_transition_loses() {
    let after = TaskState::Woken
        .transition(TaskState::Woken, TaskState::Running)
        .expect("first wins");
    assert_eq!(
        after.transition(TaskState::Woken, TaskState::Running),
        Err(TaskState::Running)
    );
}

#[test]
fn failed_exchange_retries_only_on_spurious_failure() {
    assert_eq!(TaskState::after_failed_exchange(TaskState::Woken, 1), None);
    assert_eq!(
        TaskState::after_failed_exchange(TaskState::Woken, 2),
        Some(TaskState::Running)
    );
    assert_eq!(
        TaskState::after_failed_exchange(TaskState::Running, 4),
        Some(TaskState::Cancelled)
    );
}

#[test]
fn live_half_follows_state() {
    assert_eq!(TaskState::Sleeping.live_half(), LiveHalf::Future);
    assert_eq!(TaskState::Running.live_half(), LiveHalf::Future);
    assert_eq!(TaskState::Done.live_half(), LiveHalf::Output);
    assert_eq!(TaskState::Taken.live_half(), LiveHalf::Neither);
    assert_eq!(TaskState::Cancelled.live_half(), LiveHalf::Neither);
}

#[test]
fn push_child_into_empty_parent_sets_first_child() {
    let mut storage = TaskTable::new();
    let parent = fake_ref(0, 1, 1);
    let child = fake_ref(0, 1, 2);
    storage.insert_fresh(parent);
    storage.insert_fresh(child);
    let Ok(()) = push_child(&mut storage, parent, child) else {
        panic!("push into empty parent must succeed");
    };
    let Some(parent_header) = storage.get(parent) else {
        panic!("parent must still resolve");
    };
    assert_eq!(parent_header.first_child, Some(child));
    let Some(child_header) = storage.get(child) else {
        panic!("child must still resolve");
    };
    assert!(child_header.next_sibling.is_none());
}

#[test]
fn push_child_chains_in_lifo_order() {
    let mut storage = TaskTable::new();
    let parent = fake_ref(0, 1, 1);
    let first = fake_ref(0, 1, 2);
    let second = fake_ref(0, 1, 3);
    storage.insert_fresh(parent);
    storage.insert_fresh(first);
    storage.insert_fresh(second);
    let Ok(()) = push_child(&mut storage, parent, first) else {
        panic!("first push must succeed");
    };
    let Ok(()) = push_child(&mut storage, parent, second) else {
        panic!("second push must succeed");
    };
    let Some(parent_header) = storage.get(parent) else {
        panic!("parent must still resolve");
    };
    assert_eq!(parent_header.first_child, Some(second));
    let Some(second_header) = storage.get(second) else {
        panic!("second must still resolve");
    };
    assert_eq!(second_header.next_sibling, Some(first));
}

#[test]
fn iter_children_on_empty_parent_yields_nothing() {
    let mut storage = TaskTable::new();
    let parent = fake_ref(0, 1, 1);
    storage.insert_fresh(parent);
    assert!(collect_children(&storage, parent).is_empty());
}

#[test]
fn iter_children_on_missing_parent_yields_nothing() {
    let storage = TaskTable::new();
    let parent = fake_ref(0, 1, 99);
    assert!(collect_children(&storage, parent).is_empty());
}

#[test]
fn iter_children_yields_three_children_in_lifo_order() {
    let mut storage = TaskTable::new();
    let parent = fake_ref(0, 1, 1);
    let a = fake_ref(0, 1, 2);
    let b = fake_ref(0, 1, 3);
    let c = fake_ref(0, 1, 4);
    storage.insert_fresh(parent);
    storage.insert_fresh(a);
    storage.insert_fresh(b);
    storage.insert_fresh(c);
    for child in [a, b, c] {
        let Ok(()) = push_child(&mut storage, parent, child) else {
            panic!("push must succeed for {child:?}");
        };
    }
    assert_eq!(collect_children(&storage, parent), [c, b, a]);
}

#[test]
fn remove_head_unlinks_first_child() {
    let mut storage = TaskTable::new();
    let parent = fake_ref(0, 1, 1);
    let head = fake_ref(0, 1, 2);
    let tail = fake_ref(0, 1, 3);
    storage.insert_fresh(parent);
    storage.insert_fresh(head);
    storage.insert_fresh(tail);
    let Ok(()) = push_child(&mut storage, parent, tail) else {
        panic!("tail push must succeed");
    };
    let Ok(()) = push_child(&mut storage, parent, head) else {
        panic!("head push must succeed");
    };
    let Ok(()) = remove_child(&mut storage, parent, head) else {
        panic!("remove head must succeed");
    };
    assert_eq!(collect_children(&storage, parent), [tail]);
    let Some(head_header) = storage.get(head) else {
        panic!("head must still resolve");
    };
    assert!(head_header.next_sibling.is_none());
}

#[test]
fn remove_middle_relinks_neighbors() {
    let mut storage = TaskTable::new();
    let parent = fake_ref(0, 1, 1);
    let a = fake_ref(0, 1, 2);
    let b = fake_ref(0, 1, 3);
    let c = fake_ref(0, 1, 4);
    for r in [parent, a, b, c] {
        storage.insert_fresh(r);
    }
    for child in [a, b, c] {
        let Ok(()) = push_child(&mut storage, parent, child) else {
            panic!("push must succeed");
        };
    }
    let Ok(()) = remove_child(&mut storage, parent, b) else {
        panic!("remove middle must succeed");
    };
    assert_eq!(collect_children(&storage, parent), [c, a]);
}

#[test]
fn remove_tail_terminates_chain() {
    let mut storage = TaskTable::new();
    let parent = fake_ref(0, 1, 1);
    let head = fake_ref(0, 1, 2);
    let tail = fake_ref(0, 1, 3);
    for r in [parent, head, tail] {
        storage.insert_fresh(r);
    }
    let Ok(()) = push_child(&mut storage, parent, tail) else {
        panic!("tail push must succeed");
    };
    let Ok(()) = push_child(&mut storage, parent, head) else {
        panic!("head push must succeed");
    };
    let Ok(()) = remove_child(&mut storage, parent, tail) else {
        panic!("remove tail must succeed");
    };
    assert_eq!(collect_children(&storage, parent), [head]);
}

#[test]
fn removed_child_can_be_pushed_again() {
    let mut storage = TaskTable::new();
    let parent = fake_ref(0, 1, 1);
    let a = fake_ref(0, 1, 2);
    let b = fake_ref(0, 1, 3);
    for r in [parent, a, b] {
        storage.insert_fresh(r);
    }
    push_child(&mut storage, parent, a).expect("push a");
    push_child(&mut storage, parent, b).expect("push b");
    remove_child(&mut storage, parent, a).expect("remove a");
    push_child(&mut storage, parent, a).expect("push a again");
    assert_eq!(collect_children(&storage, parent), [a, b]);
}

#[test]
fn remove_unknown_child_returns_child_not_found() {
    let mut storage = TaskTable::new();
    let parent = fake_ref(0, 1, 1);
    let live = fake_ref(0, 1, 2);
    let alien = fake_ref(0, 1, 3);
    for r in [parent, live, alien] {
        storage.insert_fresh(r);
    }
    let Ok(()) = push_child(&mut storage, parent, live) else {
        panic!("seed push must succeed");
    };
    match remove_child(&mut storage, parent, alien) {
        Err(ChildrenError::ChildNotFound) => {}
        other => panic!("expected ChildNotFound, got {other:?}"),
    }
}

#[test]
fn remove_from_missing_parent_returns_parent_not_found() {
    let mut storage = TaskTable::new();
    let child = fake_ref(0, 1, 2);
    storage.insert_fresh(child);
    assert_eq!(
        remove_child(&mut storage, fake_ref(0, 1, 9), child),
        Err(ChildrenError::ParentNotFound)
    );
}

#[test]
fn push_with_missing_parent_returns_parent_not_found() {
    let mut storage = TaskTable::new();
    let child = fake_ref(0, 1, 2);
    storage.insert_fresh(child);
    let stale_parent = fake_ref(0, 1, 99);
    match push_child(&mut storage, stale_parent, child) {
        Err(ChildrenError::ParentNotFound) => {}
        other => panic!("expected ParentNotFound, got {other:?}"),
    }
}

#[test]
fn push_with_missing_child_returns_child_not_found() {
    let mut storage = TaskTable::new();
    let parent = fake_ref(0, 1, 1);
    storage.insert_fresh(parent);
    assert_eq!(
        push_child(&mut storage, parent, fake_ref(0, 1, 5)),
        Err(ChildrenError::ChildNotFound)
    );
    assert!(collect_children(&storage, parent).is_empty());
}

#[test]
fn stale_generation_is_indistinguishable_from_missing() {
    let mut storage = TaskTable::new();
    let live_parent = fake_ref(0, 1, 1);
    storage.insert_fresh(live_parent);
    let stale_parent = fake_ref(0, 2, 1);
    let child = fake_ref(0, 1, 2);
    storage.insert_fresh(child);
    match push_child(&mut storage, stale_parent, child) {
        Err(ChildrenError::ParentNotFound) => {}
        other => panic!("stale generation must surface as ParentNotFound, got {other:?}"),
    }
}

#[test]
fn children_error_messages() {
    assert_eq!(
        ChildrenError::ParentNotFound.to_string(),
        "parent task header not found"
    );
    assert_eq!(
        ChildrenError::ChildNotFound.to_string(),
        "child task header not found"
    );
}

#[test]
fn task_ref_debug_string_names_path_and_fields() {
    let arena = TaskRef::from_arena(5, 0xDEAD_BEEF, Generation(12));
    assert_eq!(
        arena.to_debug_string(),
        "TaskRef { path: \"arena\", worker_id: 5, generation: 12, index: 3735928559 }"
    );
    let slab = TaskRef::from_slab(2, SlabKey::new(9, Generation(1)));
    assert_eq!(
        slab.to_debug_string(),
        "TaskRef { path: \"slab\", worker_id: 2, generation: 1, index: 9 }"
    );
}

#[test]
fn done_and_cancelled_race_has_one_winner() {
    let after = TaskState::Running
        .transition(TaskState::Running, TaskState::Done)
        .expect("Running -> Done");
    assert_eq!(
        after.transition(TaskState::Running, TaskState::Cancelled),
        Err(TaskState::Done)
    );
}
