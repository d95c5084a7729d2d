//! Intrusive children list: each task's `first_child` and `next_sibling`
//! links, kept in a [`TaskStorage`] owned by one worker.
//!
//! A task's children form a singly linked list through their
//! `next_sibling` links, newest first. The helpers are generic over the
//! storage, so the same code drives any worker store; [`TaskTable`] is the
//! one kept here.

use vstd::prelude::*;
use vstd::string::StringExecFns;

use std::collections::HashMap;

use crate::task::task_ref::{lemma_raw_determines_handle, TaskRef};

verus! {

broadcast use vstd::std_specs::hash::group_hash_axioms;

/// The list links a task carries.
#[derive(Clone, Copy, PartialEq, Eq, Debug)]
pub struct TaskLinks {
    /// Head of the task's own children list.
    pub first_child: Option<TaskRef>,
    /// Next entry in the parent's children list.
    pub next_sibling: Option<TaskRef>,
}

/// Failure mode for children-list manipulation.
#[derive(Clone, Copy, PartialEq, Eq, Debug, Structural)]
pub enum ChildrenError {
    /// The parent handle resolves to no live task.
    ParentNotFound,
    /// The child handle resolves to no live task, or the child is not in the
    /// parent's list.
    ChildNotFound,
}

impl ChildrenError {
    /// Human-readable description of the error.
    pub fn to_string(&self) -> (s: String)
        ensures
            s@ == (match self {
                ChildrenError::ParentNotFound => "parent task header not found"@,
                ChildrenError::ChildNotFound => "child task header not found"@,
            }),
    {
        match self {
            ChildrenError::ParentNotFound => "parent task header not found".to_owned(),
            ChildrenError::ChildNotFound => "child task header not found".to_owned(),
        }
    }
}

/// The tasks reached from `cur` by following `next_sibling` links through
/// live tasks, at most `fuel` of them; the walk stops at a missing link or
/// at a handle that resolves to no task.
pub open spec fn walk(m: Map<u64, TaskLinks>, cur: Option<TaskRef>, fuel: nat) -> Seq<TaskRef>
    decreases fuel,
{
    if fuel == 0 {
        Seq::empty()
    } else {
        match cur {
            None => Seq::empty(),
            Some(r) => if m.contains_key(r.bits()) {
                seq![r] + walk(m, m[r.bits()].next_sibling, (fuel - 1) as nat)
            } else {
                Seq::empty()
            },
        }
    }
}

/// The walk from `cur` stops within `fuel` steps.
pub open spec fn ends_within(m: Map<u64, TaskLinks>, cur: Option<TaskRef>, fuel: nat) -> bool
    decreases fuel,
{
    match cur {
        None => true,
        Some(r) => !m.contains_key(r.bits()) || (fuel > 0 && ends_within(
            m,
            m[r.bits()].next_sibling,
            (fuel - 1) as nat,
        )),
    }
}

/// The first task of `chain` whose `next_sibling` is `child`.
pub open spec fn first_linking_to(m: Map<u64, TaskLinks>, chain: Seq<TaskRef>, child: TaskRef) -> Option<TaskRef>
    decreases chain.len(),
{
    if chain.len() == 0 {
        None
    } else if m[chain[0].bits()].next_sibling == Some(child) {
        Some(chain[0])
    } else {
        first_linking_to(m, chain.drop_first(), child)
    }
}

/// Where a worker keeps the links of its live tasks, keyed by handle.
pub trait TaskStorage {
    /// The links of each live task, by raw handle.
    spec fn links(&self) -> Map<u64, TaskLinks>;

    /// The storage holds finitely many tasks.
    proof fn lemma_finite(&self)
        ensures
            self.links().dom().finite(),
    ;

    /// The links of `r`, or `None` when it resolves to no live task (its
    /// slot is empty or its generation is stale).
    fn get(&self, r: TaskRef) -> (l: Option<TaskLinks>)
        ensures
            l == (if self.links().contains_key(r.bits()) { Some(self.links()[r.bits()]) } else { None }),
    ;

    /// Replaces the links of a live task.
    fn set(&mut self, r: TaskRef, links: TaskLinks)
        requires
            old(self).links().contains_key(r.bits()),
        ensures
            final(self).links() == old(self).links().insert(r.bits(), links),
    ;
}

/// `r` resolves to a live task.
pub open spec fn resolves(m: Map<u64, TaskLinks>, r: TaskRef) -> bool {
    m.contains_key(r.bits())
}

/// The parent's children list is finite: walking it ends within as many
/// steps as there are tasks.
pub open spec fn chain_ends(m: Map<u64, TaskLinks>, parent: TaskRef) -> bool {
    resolves(m, parent) ==> ends_within(m, m[parent.bits()].first_child, m.dom().len())
}

/// The parent's children, newest first; empty when the parent does not
/// resolve.
pub open spec fn children_of(m: Map<u64, TaskLinks>, parent: TaskRef) -> Seq<TaskRef> {
    if resolves(m, parent) {
        walk(m, m[parent.bits()].first_child, m.dom().len())
    } else {
        Seq::empty()
    }
}

/// Where `child` sits in the parent's list: `Ok(None)` at the head,
/// `Ok(Some(prev))` after `prev`, or the error that removing it reports.
pub open spec fn position_of(m: Map<u64, TaskLinks>, parent: TaskRef, child: TaskRef) -> Result<
    Option<TaskRef>,
    ChildrenError,
> {
    if !resolves(m, parent) {
        Err(ChildrenError::ParentNotFound)
    } else {
        match m[parent.bits()].first_child {
            None => Err(ChildrenError::ChildNotFound),
            Some(first) => if first == child {
                Ok(None)
            } else {
                match first_linking_to(m, children_of(m, parent), child) {
                    Some(prev) => Ok(Some(prev)),
                    None => Err(ChildrenError::ChildNotFound),
                }
            },
        }
    }
}

/// Links of the live tasks of one worker, keyed by their handles.
pub struct TaskTable {
    headers: HashMap<u64, TaskLinks>,
}

impl View for TaskTable {
    type V = Map<u64, TaskLinks>;

    /// Links of each live task, by raw handle.
    closed spec fn view(&self) -> Map<u64, TaskLinks> {
        self.headers@
    }
}

impl TaskTable {
    /// An empty table.
    pub fn new() -> (t: TaskTable)
        ensures
            t@ == Map::<u64, TaskLinks>::empty(),
    {
        TaskTable { headers: HashMap::new() }
    }

    /// Registers `r` as a live task with no children and no sibling,
    /// replacing any links it had.
    pub fn insert_fresh(&mut self, r: TaskRef)
        ensures
            final(self)@ == old(self)@.insert(r.bits(), TaskLinks { first_child: None, next_sibling: None }),
    {
        self.headers.insert(r.raw(), TaskLinks { first_child: None, next_sibling: None });
    }
}

impl TaskStorage for TaskTable {
    open spec fn links(&self) -> Map<u64, TaskLinks> {
        self@
    }

    proof fn lemma_finite(&self) {
    }

    fn get(&self, r: TaskRef) -> (l: Option<TaskLinks>) {
        let key = r.raw();
        match self.headers.get(&key) {
            Some(links) => Some(*links),
            None => None,
        }
    }

    fn set(&mut self, r: TaskRef, links: TaskLinks) {
        self.headers.insert(r.raw(), links);
    }
}

/// Pushes `child` to the front of `parent`'s children list: the previous
/// head becomes the child's next sibling.
pub fn push_child<S: TaskStorage>(storage: &mut S, parent: TaskRef, child: TaskRef) -> (r: Result<(), ChildrenError>)
    ensures
        !resolves(old(storage).links(), parent) ==> r == Err::<(), ChildrenError>(ChildrenError::ParentNotFound)
            && final(storage).links() == old(storage).links(),
        resolves(old(storage).links(), parent) && !resolves(old(storage).links(), child) ==> r == Err::<(), ChildrenError>(
            ChildrenError::ChildNotFound,
        ) && final(storage).links() == old(storage).links(),
        resolves(old(storage).links(), parent) && resolves(old(storage).links(), child) ==> {
            let m = old(storage).links();
            let m1 = m.insert(
                child.bits(),
                TaskLinks { next_sibling: m[parent.bits()].first_child, ..m[child.bits()] },
            );
            &&& r is Ok
            &&& final(storage).links() == m1.insert(
                parent.bits(),
                TaskLinks { first_child: Some(child), ..m1[parent.bits()] },
            )
        },
{
    let prev_first = match storage.get(parent) {
        Some(h) => h.first_child,
        None => {
            return Err(ChildrenError::ParentNotFound);
        },
    };
    let child_links = match storage.get(child) {
        Some(h) => h,
        None => {
            return Err(ChildrenError::ChildNotFound);
        },
    };
    storage.set(child, TaskLinks { next_sibling: prev_first, ..child_links });
    let parent_links = match storage.get(parent) {
        Some(h) => h,
        None => {
            return Err(ChildrenError::ParentNotFound);
        },
    };
    storage.set(parent, TaskLinks { first_child: Some(child), ..parent_links });
    Ok(())
}

/// A walk is unaffected by changes that keep the set of live tasks and the
/// sibling links of the tasks it passes through.
proof fn lemma_walk_frame(m: Map<u64, TaskLinks>, m2: Map<u64, TaskLinks>, cur: Option<TaskRef>, fuel: nat)
    requires
        ends_within(m, cur, fuel),
        m2.dom() == m.dom(),
        forall|k: int| 0 <= k < walk(m, cur, fuel).len() ==> m2[(#[trigger] walk(m, cur, fuel)[k]).bits()].next_sibling
            == m[walk(m, cur, fuel)[k].bits()].next_sibling,
    ensures
        walk(m2, cur, fuel) == walk(m, cur, fuel),
        ends_within(m2, cur, fuel),
    decreases fuel,
{
    if let Some(r) = cur {
        if m.contains_key(r.bits()) {
            let w = walk(m, cur, fuel);
            let nx = m[r.bits()].next_sibling;
            let f1 = (fuel - 1) as nat;
            assert(w[0] == r);
            assert forall|k: int| 0 <= k < walk(m, nx, f1).len() implies m2[(#[trigger] walk(m, nx, f1)[k]).bits()].next_sibling
                == m[walk(m, nx, f1)[k].bits()].next_sibling by {
                assert(w[k + 1] == walk(m, nx, f1)[k]);
            }
            lemma_walk_frame(m, m2, nx, f1);
            assert(m2[r.bits()].next_sibling == nx);
        } else {
            assert(!m2.contains_key(r.bits()));
        }
    }
}

/// A walk that ends within `fuel` steps ends within as many steps as tasks
/// it reaches.
proof fn lemma_walk_ends_at_len(m: Map<u64, TaskLinks>, cur: Option<TaskRef>, fuel: nat)
    requires
        ends_within(m, cur, fuel),
    ensures
        walk(m, cur, fuel).len() <= fuel,
        ends_within(m, cur, walk(m, cur, fuel).len()),
        walk(m, cur, walk(m, cur, fuel).len()) == walk(m, cur, fuel),
    decreases fuel,
{
    if let Some(r) = cur {
        if m.contains_key(r.bits()) {
            let nx = m[r.bits()].next_sibling;
            lemma_walk_ends_at_len(m, nx, (fuel - 1) as nat);
        }
    }
}

/// Distinct tasks that all resolve are no more than the tasks in the table.
proof fn lemma_distinct_tasks_bounded(m: Map<u64, TaskLinks>, s: Seq<TaskRef>)
    requires
        m.dom().finite(),
        s.no_duplicates(),
        forall|j: int| 0 <= j < s.len() ==> m.contains_key((#[trigger] s[j]).bits()),
    ensures
        s.len() <= m.dom().len(),
{
    let keys = s.map_values(|r: TaskRef| r.bits());
    assert(keys.no_duplicates()) by {
        assert forall|a: int, b: int| 0 <= a < keys.len() && 0 <= b < keys.len() && a != b implies keys[a] != keys[b] by {
            if keys[a] == keys[b] {
                lemma_raw_determines_handle(s[a], s[b]);
            }
        }
    }
    keys.unique_seq_to_set();
    assert(keys.to_set().subset_of(m.dom())) by {
        assert forall|x: u64| keys.to_set().contains(x) implies m.dom().contains(x) by {
            let j = choose|j: int| 0 <= j < keys.len() && keys[j] == x;
            assert(m.contains_key(s[j].bits()));
        }
    }
    vstd::set_lib::lemma_len_subset(keys.to_set(), m.dom());
}

/// Pushing a child that is not among the parent's children makes it the
/// first child and keeps the others after it, in order; the list stays
/// finite.
pub proof fn lemma_push_puts_child_first(
    m: Map<u64, TaskLinks>,
    m2: Map<u64, TaskLinks>,
    parent: TaskRef,
    child: TaskRef,
)
    requires
        m.dom().finite(),
        resolves(m, parent),
        resolves(m, child),
        chain_ends(m, parent),
        children_of(m, parent).no_duplicates(),
        !children_of(m, parent).contains(child),
        m2 == ({
            let m1 = m.insert(child.bits(), TaskLinks { next_sibling: m[parent.bits()].first_child, ..m[child.bits()] });
            m1.insert(parent.bits(), TaskLinks { first_child: Some(child), ..m1[parent.bits()] })
        }),
    ensures
        chain_ends(m2, parent),
        children_of(m2, parent) == seq![child] + children_of(m, parent),
{
    let f = m.dom().len();
    let old_first = m[parent.bits()].first_child;
    let w = children_of(m, parent);
    lemma_walk_resolves(m, old_first, f);
    let wc = w.push(child);
    assert(wc.no_duplicates()) by {
        assert forall|a: int, b: int| 0 <= a < wc.len() && 0 <= b < wc.len() && a != b implies wc[a] != wc[b] by {
            if a < w.len() && b < w.len() {
                assert(wc[a] == w[a] && wc[b] == w[b]);
            } else if a < w.len() {
                assert(wc[a] == w[a]);
                assert(w.contains(w[a]));
            } else {
                assert(wc[b] == w[b]);
                assert(w.contains(w[b]));
            }
        }
    }
    assert forall|j: int| 0 <= j < wc.len() implies m.contains_key((#[trigger] wc[j]).bits()) by {
        if j < w.len() {
            assert(wc[j] == w[j]);
        }
    }
    lemma_distinct_tasks_bounded(m, wc);
    lemma_walk_ends_at_len(m, old_first, f);
    let len = w.len();
    assert forall|k: int| 0 <= k < walk(m, old_first, len).len() implies m2[(#[trigger] walk(m, old_first, len)[k]).bits()].next_sibling
        == m[walk(m, old_first, len)[k].bits()].next_sibling by {
        let x = walk(m, old_first, len)[k];
        assert(x == w[k]);
        if x.bits() == child.bits() {
            lemma_raw_determines_handle(x, child);
            assert(w.contains(child));
        }
    }
    assert(m2.dom() =~= m.dom());
    lemma_walk_frame(m, m2, old_first, len);
    lemma_walk_fuel_mono(m2, old_first, len, (f - 1) as nat);
    assert(m2[child.bits()].next_sibling == old_first);
    assert(m2[parent.bits()].first_child == Some(child));
    assert(walk(m2, Some(child), f) == seq![child] + walk(m2, old_first, (f - 1) as nat));
}

/// Once a walk ends within `fuel` steps, more fuel changes nothing.
proof fn lemma_walk_fuel_mono(m: Map<u64, TaskLinks>, cur: Option<TaskRef>, fuel: nat, more: nat)
    requires
        ends_within(m, cur, fuel),
        fuel <= more,
    ensures
        walk(m, cur, more) == walk(m, cur, fuel),
        ends_within(m, cur, more),
    decreases fuel,
{
    if let Some(r) = cur {
        if m.contains_key(r.bits()) {
            lemma_walk_fuel_mono(m, m[r.bits()].next_sibling, (fuel - 1) as nat, (more - 1) as nat);
        }
    }
}

/// The walk from the `k`-th task reached is the rest of the walk.
proof fn lemma_walk_suffix(m: Map<u64, TaskLinks>, cur: Option<TaskRef>, fuel: nat, k: int)
    requires
        0 <= k < walk(m, cur, fuel).len(),
    ensures
        k <= fuel,
        walk(m, cur, fuel).skip(k) == walk(m, Some(walk(m, cur, fuel)[k]), (fuel - k) as nat),
        ends_within(m, cur, fuel) ==> ends_within(m, Some(walk(m, cur, fuel)[k]), (fuel - k) as nat),
    decreases k,
{
    let w = walk(m, cur, fuel);
    let r = cur->Some_0;
    let nx = m[r.bits()].next_sibling;
    let f1 = (fuel - 1) as nat;
    if k == 0 {
        assert(w.skip(0) =~= w);
    } else {
        lemma_walk_suffix(m, nx, f1, k - 1);
        assert(w.skip(k) =~= walk(m, nx, f1).skip(k - 1));
        assert(w[k] == walk(m, nx, f1)[k - 1]);
    }
}

/// A walk through tasks whose sibling links are unchanged up to its `k`-th
/// task follows the old walk up to there.
proof fn lemma_walk_prefix(m: Map<u64, TaskLinks>, m2: Map<u64, TaskLinks>, cur: Option<TaskRef>, fuel: nat, k: int)
    requires
        0 <= k < walk(m, cur, fuel).len(),
        m2.dom() == m.dom(),
        forall|j: int| 0 <= j < k ==> m2[(#[trigger] walk(m, cur, fuel)[j]).bits()].next_sibling
            == m[walk(m, cur, fuel)[j].bits()].next_sibling,
    ensures
        k <= fuel,
        walk(m2, cur, fuel) == walk(m, cur, fuel).take(k) + walk(m2, Some(walk(m, cur, fuel)[k]), (fuel - k) as nat),
        ends_within(m2, Some(walk(m, cur, fuel)[k]), (fuel - k) as nat) ==> ends_within(m2, cur, fuel),
    decreases k,
{
    let w = walk(m, cur, fuel);
    let r = cur->Some_0;
    let nx = m[r.bits()].next_sibling;
    let f1 = (fuel - 1) as nat;
    if k == 0 {
        assert(w.take(0) =~= Seq::<TaskRef>::empty());
        assert(w[0] == r);
        assert(walk(m2, cur, fuel) =~= Seq::<TaskRef>::empty() + walk(m2, cur, fuel));
    } else {
        let w1 = walk(m, nx, f1);
        assert forall|j: int| 0 <= j < k - 1 implies m2[(#[trigger] w1[j]).bits()].next_sibling == m[w1[j].bits()].next_sibling by {
            assert(w[j + 1] == w1[j]);
        }
        lemma_walk_prefix(m, m2, nx, f1, k - 1);
        assert(w[0] == r);
        assert(m2[r.bits()].next_sibling == nx);
        assert(w[k] == w1[k - 1]);
        assert(w.take(k) =~= seq![r] + w1.take(k - 1));
    }
}

/// The first task of a chain linking to `child` sits at some index of the
/// chain and links to `child`.
proof fn lemma_first_linking_index(m: Map<u64, TaskLinks>, chain: Seq<TaskRef>, child: TaskRef) -> (k: int)
    requires
        first_linking_to(m, chain, child) is Some,
    ensures
        0 <= k < chain.len(),
        chain[k] == first_linking_to(m, chain, child)->Some_0,
        m[chain[k].bits()].next_sibling == Some(child),
    decreases chain.len(),
{
    if m[chain[0].bits()].next_sibling == Some(child) {
        0
    } else {
        let k1 = lemma_first_linking_index(m, chain.drop_first(), child);
        k1 + 1
    }
}

/// A successful removal takes exactly the child out of the parent's list
/// and keeps every other child, in order; the list stays finite.
pub proof fn lemma_remove_drops_exactly_child(
    m: Map<u64, TaskLinks>,
    m2: Map<u64, TaskLinks>,
    parent: TaskRef,
    child: TaskRef,
)
    requires
        chain_ends(m, parent),
        children_of(m, parent).no_duplicates(),
        position_of(m, parent, child) is Ok,
        resolves(m, child),
        m2 == ({
            let child_next = m[child.bits()].next_sibling;
            let m1 = match position_of(m, parent, child)->Ok_0 {
                None => m.insert(parent.bits(), TaskLinks { first_child: child_next, ..m[parent.bits()] }),
                Some(prev) => m.insert(prev.bits(), TaskLinks { next_sibling: child_next, ..m[prev.bits()] }),
            };
            m1.insert(child.bits(), TaskLinks { next_sibling: None, ..m1[child.bits()] })
        }),
    ensures
        chain_ends(m2, parent),
        exists|k: int|
            0 <= k < children_of(m, parent).len() && children_of(m, parent)[k] == child
                && children_of(m2, parent) == children_of(m, parent).remove(k),
{
    let f = m.dom().len();
    let first = m[parent.bits()].first_child->Some_0;
    let w = children_of(m, parent);
    let cn = m[child.bits()].next_sibling;
    lemma_walk_resolves(m, Some(first), f);
    match position_of(m, parent, child)->Ok_0 {
        None => {
            assert(m2.dom() =~= m.dom());
            assert(resolves(m2, parent));
            assert(first == child);
            assert(f > 0);
            let f1 = (f - 1) as nat;
            let rest = walk(m, cn, f1);
            assert(w == seq![child] + rest);
            assert forall|j: int| 0 <= j < rest.len() implies m2[(#[trigger] rest[j]).bits()].next_sibling
                == m[rest[j].bits()].next_sibling by {
                assert(w[j + 1] == rest[j]);
                assert(w[0] == child);
                if rest[j].bits() == child.bits() {
                    lemma_raw_determines_handle(rest[j], child);
                }
            }
            lemma_walk_frame(m, m2, cn, f1);
            lemma_walk_fuel_mono(m2, cn, f1, f);
            if parent.bits() == child.bits() {
                lemma_raw_determines_handle(parent, child);
            }
            assert(m2[parent.bits()].first_child == cn);
            assert(w.remove(0) =~= rest);
            assert(w[0] == child);
        },
        Some(prev) => {
            let k = lemma_first_linking_index(m, w, child);
            assert(w[k] == prev);
            assert(m.contains_key(w[k].bits()));
            assert(m2.dom() =~= m.dom());
            assert(resolves(m2, parent));
            lemma_walk_suffix(m, Some(first), f, k);
            let fk = (f - k) as nat;
            assert(m.contains_key(prev.bits()));
            assert(fk > 0);
            let fk1 = (fk - 1) as nat;
            assert(walk(m, Some(prev), fk) == seq![prev] + walk(m, Some(child), fk1));
            assert(ends_within(m, Some(child), fk1));
            assert(fk1 > 0);
            let fk2 = (fk1 - 1) as nat;
            let b = walk(m, cn, fk2);
            assert(walk(m, Some(child), fk1) == seq![child] + b);
            assert(w.skip(k) =~= seq![prev] + (seq![child] + b));
            assert(k + 1 < w.len() && w[k + 1] == child) by {
                assert(w.skip(k)[1] == child);
            }
            assert(w.skip(k + 2) =~= b) by {
                assert(w.skip(k + 2) =~= w.skip(k).skip(2));
            }
            assert(prev != child);
            assert forall|j: int| 0 <= j < k implies m2[(#[trigger] w[j]).bits()].next_sibling
                == m[w[j].bits()].next_sibling by {
                if w[j].bits() == prev.bits() {
                    lemma_raw_determines_handle(w[j], prev);
                }
                if w[j].bits() == child.bits() {
                    lemma_raw_determines_handle(w[j], child);
                }
            }
            assert forall|j: int| 0 <= j < b.len() implies m2[(#[trigger] b[j]).bits()].next_sibling
                == m[b[j].bits()].next_sibling by {
                assert(w[k + 2 + j] == b[j]);
                if b[j].bits() == prev.bits() {
                    lemma_raw_determines_handle(b[j], prev);
                }
                if b[j].bits() == child.bits() {
                    lemma_raw_determines_handle(b[j], child);
                }
            }
            lemma_walk_frame(m, m2, cn, fk2);
            lemma_walk_fuel_mono(m2, cn, fk2, fk1);
            if prev.bits() == child.bits() {
                lemma_raw_determines_handle(prev, child);
            }
            assert(m2[prev.bits()].next_sibling == cn);
            assert(walk(m2, Some(prev), fk) == seq![prev] + b);
            lemma_walk_prefix(m, m2, Some(first), f, k);
            assert(m2[parent.bits()].first_child == Some(first));
            assert(children_of(m2, parent) =~= w.take(k) + (seq![prev] + b));
            assert(w.remove(k + 1) =~= w.take(k) + (seq![prev] + b));
        },
    }
}

/// Along a walk, the walk starts at `cur` and each task's sibling link names
/// the next task reached.
proof fn lemma_walk_links(m: Map<u64, TaskLinks>, cur: Option<TaskRef>, fuel: nat)
    ensures
        walk(m, cur, fuel).len() > 0 ==> cur == Some(walk(m, cur, fuel)[0]),
        forall|k: int|
            0 <= k && k + 1 < walk(m, cur, fuel).len() ==> m[(#[trigger] walk(m, cur, fuel)[k]).bits()].next_sibling
                == Some(walk(m, cur, fuel)[k + 1]),
    decreases fuel,
{
    if fuel > 0 {
        if let Some(r) = cur {
            if m.contains_key(r.bits()) {
                let nx = m[r.bits()].next_sibling;
                let f1 = (fuel - 1) as nat;
                let w = walk(m, cur, fuel);
                let rest = walk(m, nx, f1);
                lemma_walk_links(m, nx, f1);
                assert forall|k: int| 0 <= k && k + 1 < w.len() implies m[(#[trigger] w[k]).bits()].next_sibling
                    == Some(w[k + 1]) by {
                    assert(w[k + 1] == rest[k]);
                    if k > 0 {
                        assert(w[k] == rest[k - 1]);
                    } else {
                        assert(w[0] == r);
                    }
                }
            }
        }
    }
}

/// A chain in which some task links to `child` has a first such task.
proof fn lemma_first_linking_exists(m: Map<u64, TaskLinks>, chain: Seq<TaskRef>, child: TaskRef, k: int)
    requires
        0 <= k < chain.len(),
        m[chain[k].bits()].next_sibling == Some(child),
    ensures
        first_linking_to(m, chain, child) is Some,
    decreases chain.len(),
{
    if m[chain[0].bits()].next_sibling != Some(child) {
        assert(chain.drop_first()[k - 1] == chain[k]);
        lemma_first_linking_exists(m, chain.drop_first(), child, k - 1);
    }
}

/// Removal finds a child wherever it sits in its parent's list: a task
/// among the parent's children resolves, and `remove_child` locates it
/// (reporting `ChildNotFound` only for a task not among them), at the head
/// or after the task that precedes it.
pub proof fn lemma_listed_child_is_found(m: Map<u64, TaskLinks>, parent: TaskRef, child: TaskRef)
    requires
        children_of(m, parent).contains(child),
    ensures
        resolves(m, parent),
        resolves(m, child),
        position_of(m, parent, child) is Ok,
        position_of(m, parent, child) == Ok::<Option<TaskRef>, ChildrenError>(None) <==> m[parent.bits()].first_child
            == Some(child),
        position_of(m, parent, child) matches Ok(Some(prev)) ==> m[prev.bits()].next_sibling == Some(child)
            && children_of(m, parent).contains(prev),
{
    let w = children_of(m, parent);
    let f = m.dom().len();
    let k = choose|k: int| 0 <= k < w.len() && w[k] == child;
    assert(resolves(m, parent));
    let fc = m[parent.bits()].first_child;
    lemma_walk_links(m, fc, f);
    lemma_walk_resolves(m, fc, f);
    assert(m.contains_key(w[k].bits()));
    let first = w[0];
    assert(fc == Some(first));
    if first != child {
        assert(k > 0);
        assert(m[w[k - 1].bits()].next_sibling == Some(w[k]));
        lemma_first_linking_exists(m, w, child, k - 1);
        lemma_first_linking_in_chain(m, w, child);
        lemma_first_linking_index(m, w, child);
    }
}

/// Removing a child that is among its parent's children (on a finite list
/// without repeats) succeeds, and the parent's list afterwards is the old
/// one with exactly that child taken out, the others kept in order.
/// `m2` is the storage after `remove_child`.
pub proof fn lemma_remove_listed_child(m: Map<u64, TaskLinks>, m2: Map<u64, TaskLinks>, parent: TaskRef, child: TaskRef)
    requires
        chain_ends(m, parent),
        children_of(m, parent).no_duplicates(),
        children_of(m, parent).contains(child),
        m2 == ({
            let child_next = m[child.bits()].next_sibling;
            let m1 = match position_of(m, parent, child)->Ok_0 {
                None => m.insert(parent.bits(), TaskLinks { first_child: child_next, ..m[parent.bits()] }),
                Some(prev) => m.insert(prev.bits(), TaskLinks { next_sibling: child_next, ..m[prev.bits()] }),
            };
            m1.insert(child.bits(), TaskLinks { next_sibling: None, ..m1[child.bits()] })
        }),
    ensures
        position_of(m, parent, child) is Ok,
        resolves(m, child),
        chain_ends(m2, parent),
        exists|k: int|
            0 <= k < children_of(m, parent).len() && children_of(m, parent)[k] == child
                && children_of(m2, parent) == children_of(m, parent).remove(k),
{
    lemma_listed_child_is_found(m, parent, child);
    lemma_remove_drops_exactly_child(m, m2, parent, child);
}

/// Every task a walk reaches resolves.
proof fn lemma_walk_resolves(m: Map<u64, TaskLinks>, cur: Option<TaskRef>, fuel: nat)
    ensures
        forall|k: int| 0 <= k < walk(m, cur, fuel).len() ==> m.contains_key(#[trigger] walk(m, cur, fuel)[k].bits()),
    decreases fuel,
{
    if fuel > 0 {
        if let Some(r) = cur {
            if m.contains_key(r.bits()) {
                let rest = walk(m, m[r.bits()].next_sibling, (fuel - 1) as nat);
                lemma_walk_resolves(m, m[r.bits()].next_sibling, (fuel - 1) as nat);
                assert forall|k: int| 0 <= k < walk(m, cur, fuel).len() implies m.contains_key(#[trigger] walk(m, cur, fuel)[k].bits()) by {
                    if k > 0 {
                        assert(walk(m, cur, fuel)[k] == rest[k - 1]);
                    }
                }
            }
        }
    }
}

/// What `first_linking_to` finds is an element of the chain.
proof fn lemma_first_linking_in_chain(m: Map<u64, TaskLinks>, chain: Seq<TaskRef>, child: TaskRef)
    ensures
        first_linking_to(m, chain, child) matches Some(x) ==> chain.contains(x),
    decreases chain.len(),
{
    if chain.len() > 0 && m[chain[0].bits()].next_sibling != Some(child) {
        lemma_first_linking_in_chain(m, chain.drop_first(), child);
        if let Some(x) = first_linking_to(m, chain.drop_first(), child) {
            let k = choose|k: int| 0 <= k < chain.drop_first().len() && chain.drop_first()[k] == x;
            assert(chain[k + 1] == x);
        }
    }
}

/// Returns `parent`'s immediate children, newest first; empty when `parent`
/// does not resolve. The walk stops at the first sibling link that
/// resolves to no task.
pub fn iter_children<S: TaskStorage>(storage: &S, parent: TaskRef) -> (r: Vec<TaskRef>)
    requires
        chain_ends(storage.links(), parent),
    ensures
        r@ == children_of(storage.links(), parent),
{
    let mut out: Vec<TaskRef> = Vec::new();
    let mut next = match storage.get(parent) {
        Some(h) => h.first_child,
        None => {
            return out;
        },
    };
    let ghost m = storage.links();
    let ghost n = storage.links().dom().len();
    let ghost mut fuel: nat = n;
    loop
        invariant_except_break
            m == storage.links(),
            ends_within(m, next, fuel),
            out@ + walk(m, next, fuel) == children_of(storage.links(), parent),
        ensures
            out@ == children_of(storage.links(), parent),
        decreases fuel,
    {
        match next {
            None => {
                assert(out@ =~= out@ + walk(m, next, fuel));
                break;
            },
            Some(cur) => {
                match storage.get(cur) {
                    None => {
                        assert(out@ =~= out@ + walk(m, next, fuel));
                        break;
                    },
                    Some(h) => {
                        assert(fuel > 0);
                        let ghost prev_out = out@;
                        out.push(cur);
                        next = h.next_sibling;
                        proof {
                            let f1 = (fuel - 1) as nat;
                            assert(walk(m, Some(cur), fuel) == seq![cur] + walk(m, next, f1));
                            assert(out@ + walk(m, next, f1) =~= prev_out + (seq![cur] + walk(m, next, f1)));
                            fuel = f1;
                        }
                    },
                }
            },
        }
    }
    out
}

/// Finds where `child` sits in `parent`'s list.
fn locate<S: TaskStorage>(storage: &S, parent: TaskRef, child: TaskRef) -> (r: Result<Option<TaskRef>, ChildrenError>)
    requires
        chain_ends(storage.links(), parent),
    ensures
        r == position_of(storage.links(), parent, child),
{
    let first = match storage.get(parent) {
        None => {
            return Err(ChildrenError::ParentNotFound);
        },
        Some(h) => match h.first_child {
            None => {
                return Err(ChildrenError::ChildNotFound);
            },
            Some(f) => f,
        },
    };
    if first == child {
        return Ok(None);
    }
    let ghost m = storage.links();
    let ghost target = first_linking_to(m, children_of(storage.links(), parent), child);
    let mut current = first;
    let ghost mut fuel: nat = storage.links().dom().len();
    loop
        invariant
            m == storage.links(),
            first != child,
            resolves(storage.links(), parent),
            m[parent.bits()].first_child == Some(first),
            target == first_linking_to(m, children_of(storage.links(), parent), child),
            ends_within(m, Some(current), fuel),
            target == first_linking_to(m, walk(m, Some(current), fuel), child),
        decreases fuel,
    {
        let h = match storage.get(current) {
            None => {
                return Err(ChildrenError::ChildNotFound);
            },
            Some(h) => h,
        };
        assert(fuel > 0);
        let ghost f1 = (fuel - 1) as nat;
        assert(walk(m, Some(current), fuel) == seq![current] + walk(m, h.next_sibling, f1));
        assert((seq![current] + walk(m, h.next_sibling, f1)).drop_first() =~= walk(m, h.next_sibling, f1));
        match h.next_sibling {
            Some(next) => {
                if next == child {
                    return Ok(Some(current));
                }
                current = next;
                proof {
                    fuel = f1;
                }
            },
            None => {
                proof {
                    let w = walk(m, Some(current), fuel);
                    assert(walk(m, None, f1) =~= Seq::<TaskRef>::empty());
                    assert(w =~= seq![current]);
                    assert(w.drop_first() =~= Seq::<TaskRef>::empty());
                    assert(first_linking_to(m, w.drop_first(), child) is None);
                }
                return Err(ChildrenError::ChildNotFound);
            },
        }
    }
}

/// Removes `child` from `parent`'s list and detaches it by clearing its
/// next sibling, so it can be pushed again.
pub fn remove_child<S: TaskStorage>(storage: &mut S, parent: TaskRef, child: TaskRef) -> (r: Result<(), ChildrenError>)
    requires
        chain_ends(old(storage).links(), parent),
    ensures
        ({
            let m = old(storage).links();
            match position_of(old(storage).links(), parent, child) {
                Err(e) => r == Err::<(), ChildrenError>(e) && final(storage).links() == m,
                Ok(pos) => if !m.contains_key(child.bits()) {
                    r == Err::<(), ChildrenError>(ChildrenError::ChildNotFound) && final(storage).links() == m
                } else {
                    let child_next = m[child.bits()].next_sibling;
                    let m1 = match pos {
                        None => m.insert(parent.bits(), TaskLinks { first_child: child_next, ..m[parent.bits()] }),
                        Some(prev) => m.insert(prev.bits(), TaskLinks { next_sibling: child_next, ..m[prev.bits()] }),
                    };
                    &&& r is Ok
                    &&& final(storage).links() == m1.insert(child.bits(), TaskLinks { next_sibling: None, ..m1[child.bits()] })
                },
            }
        }),
{
    let position = match locate(storage, parent, child) {
        Ok(p) => p,
        Err(e) => {
            return Err(e);
        },
    };
    let child_next = match storage.get(child) {
        Some(h) => h.next_sibling,
        None => {
            return Err(ChildrenError::ChildNotFound);
        },
    };
    match position {
        None => {
            let parent_links = match storage.get(parent) {
                Some(h) => h,
                None => {
                    return Err(ChildrenError::ParentNotFound);
                },
            };
            storage.set(parent, TaskLinks { first_child: child_next, ..parent_links });
        },
        Some(prev) => {
            proof {
                let m = storage.links();
                let chain = children_of(storage.links(), parent);
                lemma_first_linking_in_chain(m, chain, child);
                lemma_walk_resolves(m, m[parent.bits()].first_child, m.dom().len());
            }
            let prev_links = match storage.get(prev) {
                Some(h) => h,
                None => {
                    return Err(ChildrenError::ChildNotFound);
                },
            };
            storage.set(prev, TaskLinks { next_sibling: child_next, ..prev_links });
        },
    }
    let child_links = match storage.get(child) {
        Some(h) => h,
        None => {
            return Err(ChildrenError::ChildNotFound);
        },
    };
    storage.set(child, TaskLinks { next_sibling: None, ..child_links });
    Ok(())
}

} // verus!
