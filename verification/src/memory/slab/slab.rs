//! [`Slab`] — per-worker generational slab with an in-band free list.

use vstd::prelude::*;

use crate::memory::generation::Generation;
use crate::memory::slab::key::SlabKey;

verus! {

/// Terminator of the in-band free list.
const FREE_SENTINEL: u32 = 0xffff_ffff;

/// Errors emitted by [`Slab`] operations.
#[derive(Clone, Copy, PartialEq, Eq, Debug, Structural)]
pub enum SlabError {
    /// All slots are occupied; `insert` cannot proceed.
    Full,
}

impl SlabError {
    /// Human-readable description of the error.
    pub fn to_string(&self) -> (s: String)
        ensures
            s@ == "slab is full"@,
    {
        "slab is full".to_owned()
    }
}

struct Slot<T> {
    generation: Generation,
    next_free: u32,
    data: Option<T>,
}

/// Per-worker generational slab with fixed capacity.
///
/// Each slot carries a 24-bit generation whose parity marks occupancy (odd =
/// occupied). Empty slots form a LIFO free list threaded through the slots
/// themselves and terminated by `u32::MAX`.
pub struct Slab<T> {
    slots: Vec<Slot<T>>,
    free_head: u32,
    len: usize,
    free: Ghost<Seq<u32>>,
}

/// A finite sequence of distinct values below `n` has at most `n` elements.
proof fn lemma_distinct_bounded(s: Seq<u32>, n: int)
    requires
        s.no_duplicates(),
        0 <= n <= 0x1_0000_0000,
        forall|k: int| 0 <= k < s.len() ==> (s[k] as int) < n,
    ensures
        s.len() <= n,
    decreases n,
{
    if n == 0 {
        if s.len() > 0 {
            assert((s[0] as int) < n);
        }
    } else {
        let top = (n - 1) as u32;
        if s.contains(top) {
            let idx = choose|i: int| 0 <= i < s.len() && s[i] == top;
            let r = s.remove(idx);
            assert forall|k: int| 0 <= k < r.len() implies (r[k] as int) < n - 1 by {
                if k < idx {
                    assert(r[k] == s[k]);
                    assert(s[k] != s[idx]);
                } else {
                    assert(r[k] == s[k + 1]);
                    assert(s[k + 1] != s[idx]);
                }
            }
            assert(r.no_duplicates()) by {
                assert forall|a: int, b: int| 0 <= a < r.len() && 0 <= b < r.len() && a != b
                    implies r[a] != r[b] by {
                    let sa = if a < idx { a } else { a + 1 };
                    let sb = if b < idx { b } else { b + 1 };
                    assert(r[a] == s[sa]);
                    assert(r[b] == s[sb]);
                }
            }
            lemma_distinct_bounded(r, n - 1);
        } else {
            assert forall|k: int| 0 <= k < s.len() implies (s[k] as int) < n - 1 by {
                if (s[k] as int) == n - 1 {
                    assert(s.contains(top));
                }
            }
            lemma_distinct_bounded(s, n - 1);
        }
    }
}

/// The occupied slots of a slab view in index order, as
/// `(index, generation, value)`.
pub open spec fn occupied_entries<T>(v: Seq<(u32, Option<T>)>) -> Seq<(int, u32, T)>
    decreases v.len(),
{
    if v.len() == 0 {
        Seq::empty()
    } else {
        let prev = occupied_entries(v.drop_last());
        match v.last().1 {
            Some(x) => prev.push(((v.len() - 1) as int, v.last().0, x)),
            None => prev,
        }
    }
}

/// What the occupied entries of a view are: each names an occupied slot
/// with its generation and value, their indices strictly increase, and
/// every occupied slot is named.
pub proof fn lemma_occupied_entries<T>(v: Seq<(u32, Option<T>)>)
    ensures
        forall|j: int| 0 <= j < occupied_entries(v).len() ==> {
            let e = #[trigger] occupied_entries(v)[j];
            &&& 0 <= e.0 < v.len()
            &&& v[e.0] == (e.1, Some(e.2))
        },
        forall|j1: int, j2: int|
            0 <= j1 < j2 < occupied_entries(v).len() ==> (#[trigger] occupied_entries(v)[j1]).0
                < (#[trigger] occupied_entries(v)[j2]).0,
        forall|i: int|
            0 <= i < v.len() && (#[trigger] v[i]).1 is Some ==> exists|j: int|
                0 <= j < occupied_entries(v).len() && (#[trigger] occupied_entries(v)[j]).0 == i,
    decreases v.len(),
{
    if v.len() > 0 {
        let d = v.drop_last();
        lemma_occupied_entries(d);
        let p = occupied_entries(d);
        let c = occupied_entries(v);
        let n = v.len() as int;
        assert forall|j: int| 0 <= j < p.len() implies #[trigger] c[j] == p[j] && p[j].0 < n - 1 && v[p[j].0]
            == d[p[j].0] by {
            assert(0 <= p[j].0 < d.len());
        }
        assert forall|j: int| 0 <= j < c.len() implies {
            let e = #[trigger] c[j];
            &&& 0 <= e.0 < v.len()
            &&& v[e.0] == (e.1, Some(e.2))
        } by {
            if j < p.len() {
                assert(c[j] == p[j]);
            }
        }
        assert forall|j1: int, j2: int| 0 <= j1 < j2 < c.len() implies (#[trigger] c[j1]).0 < (#[trigger] c[j2]).0 by {
            assert(c[j1] == p[j1]);
            if j2 < p.len() {
                assert(c[j2] == p[j2]);
            }
        }
        assert forall|i: int| 0 <= i < v.len() && (#[trigger] v[i]).1 is Some implies exists|j: int|
            0 <= j < c.len() && (#[trigger] c[j]).0 == i by {
            if i < n - 1 {
                assert(d[i] == v[i]);
                let j = choose|j: int| 0 <= j < p.len() && (#[trigger] p[j]).0 == i;
                assert(c[j] == p[j]);
            } else {
                assert(c[p.len() as int].0 == i);
            }
        }
    }
}

/// The indices of the empty slots among the first `k` of a view.
spec fn empty_below<T>(v: Seq<(u32, Option<T>)>, k: int) -> Set<u32> {
    Set::new(|j: u32| (j as int) < k && v[j as int].1 is None)
}

/// Among the first `k` slots of a view, the occupied and the empty ones
/// add up to `k`.
proof fn lemma_occupied_count<T>(v: Seq<(u32, Option<T>)>, k: int)
    requires
        0 <= k <= v.len(),
        v.len() <= 0xffff_ffff,
    ensures
        empty_below(v, k).finite(),
        occupied_entries(v.take(k)).len() + empty_below(v, k).len() == k,
    decreases k,
{
    if k == 0 {
        assert(empty_below(v, 0) =~= Set::<u32>::empty());
    } else {
        lemma_occupied_count(v, k - 1);
        assert(v.take(k).drop_last() =~= v.take(k - 1));
        let t = (k - 1) as u32;
        if v[k - 1].1 is None {
            assert(empty_below(v, k) =~= empty_below(v, k - 1).insert(t));
            assert(!empty_below(v, k - 1).contains(t));
        } else {
            assert(empty_below(v, k) =~= empty_below(v, k - 1));
        }
    }
}

impl<T> View for Slab<T> {
    type V = Seq<(u32, Option<T>)>;

    /// Per slot: its raw generation and the value it holds.
    closed spec fn view(&self) -> Seq<(u32, Option<T>)> {
        self.slots@.map_values(|s: Slot<T>| (s.generation.0, s.data))
    }
}

impl<T> Slab<T> {
    /// The free list, head first: the order in which `insert` will reuse
    /// empty slots.
    pub closed spec fn free_list(&self) -> Seq<u32> {
        self.free@
    }

    /// Number of slots.
    pub open spec fn spec_capacity(&self) -> nat {
        self@.len()
    }

    /// Number of occupied slots.
    pub open spec fn spec_len(&self) -> int {
        self@.len() - self.free_list().len()
    }

    /// The value a key designates: the slot's value when the key's index is
    /// in range and its generation matches the slot's.
    pub open spec fn lookup(&self, key: SlabKey) -> Option<T> {
        let i = key.spec_index();
        if 0 <= i < self@.len() && self@[i].0 == key.spec_generation() {
            self@[i].1
        } else {
            None
        }
    }

    /// Structural invariant: generations stay within 24 bits, odd parity
    /// exactly on occupied slots, and the free list threads exactly the
    /// empty slots, each once.
    pub closed spec fn wf(&self) -> bool {
        let s = self.slots@;
        let f = self.free@;
        &&& s.len() <= 0xffff_ffff
        &&& forall|i: int| 0 <= i < s.len() ==> s[i].generation.0 <= Generation::MAX
        &&& forall|i: int| 0 <= i < s.len() ==> (#[trigger] s[i].data is Some <==> s[i].generation.0 % 2 == 1)
        &&& f.no_duplicates()
        &&& forall|k: int| 0 <= k < f.len() ==> (#[trigger] f[k] as int) < s.len()
        &&& forall|i: int| 0 <= i < s.len() ==> (f.contains(i as u32) <==> #[trigger] s[i].data is None)
        &&& self.free_head == (if f.len() == 0 { FREE_SENTINEL } else { f[0] })
        &&& forall|k: int| 0 <= k < f.len() ==> #[trigger] s[f[k] as int].next_free == (if k + 1 < f.len() { f[k + 1] } else { FREE_SENTINEL })
        &&& self.len + f.len() == s.len()
    }

    /// Facts that the invariant gives about the view.
    pub proof fn lemma_wf(&self)
        requires
            self.wf(),
        ensures
            self@.len() <= 0xffff_ffff,
            0 <= self.spec_len() <= self@.len(),
            self.free_list().no_duplicates(),
            forall|k: int| 0 <= k < self.free_list().len() ==> (#[trigger] self.free_list()[k] as int) < self@.len(),
            forall|i: int| 0 <= i < self@.len() ==> #[trigger] self@[i].0 <= Generation::MAX,
            forall|i: int| 0 <= i < self@.len() ==> (#[trigger] self@[i].1 is Some <==> self@[i].0 % 2 == 1),
            forall|i: int| 0 <= i < self@.len() ==> (self.free_list().contains(i as u32) <==> #[trigger] self@[i].1 is None),
    {
        assert forall|i: int| 0 <= i < self@.len() implies (self.free_list().contains(i as u32) <==> #[trigger] self@[i].1 is None) by {
            assert(self.slots@[i].data is None <==> self.free@.contains(i as u32));
        }
        assert forall|i: int| 0 <= i < self@.len() implies (#[trigger] self@[i].1 is Some <==> self@[i].0 % 2 == 1) by {
            assert(self.slots@[i].data is Some <==> self.slots@[i].generation.0 % 2 == 1);
        }
    }

    /// A well-formed slab has exactly `spec_len()` occupied slots.
    pub proof fn lemma_occupied_len(&self)
        requires
            self.wf(),
        ensures
            occupied_entries(self@).len() == self.spec_len(),
    {
        let v = self@;
        let f = self.free@;
        self.lemma_wf();
        lemma_occupied_count(v, v.len() as int);
        assert(v.take(v.len() as int) =~= v);
        assert(empty_below(v, v.len() as int) =~= f.to_set()) by {
            assert forall|j: u32| #[trigger] f.to_set().contains(j) implies (j as int) < v.len() by {
                let k = choose|k: int| 0 <= k < f.len() && f[k] == j;
                assert((f[k] as int) < v.len());
            }
            assert forall|j: u32| (j as int) < v.len() implies (f.to_set().contains(j) <==> #[trigger] v[j as int].1 is None) by {
                assert(self.free_list().contains(j) <==> v[j as int].1 is None);
            }
        }
        f.unique_seq_to_set();
    }

    /// Creates a slab of `capacity` empty slots, linked into the free list
    /// in index order.
    pub fn new(capacity: usize) -> (s: Slab<T>)
        requires
            capacity <= 0xffff_ffff,
        ensures
            s.wf(),
            s@.len() == capacity,
            forall|i: int| 0 <= i < capacity ==> #[trigger] s@[i] == (0u32, None::<T>),
            s.free_list() == Seq::new(capacity as nat, |i: int| i as u32),
            s.spec_len() == 0,
    {
        let cap = capacity as u32;
        let mut slots: Vec<Slot<T>> = Vec::with_capacity(capacity);
        let mut idx: u32 = 0;
        while idx < cap
            invariant
                idx <= cap,
                cap == capacity,
                slots@.len() == idx,
                forall|i: int| 0 <= i < idx ==> (#[trigger] slots@[i]).generation.0 == 0 && slots@[i].data is None
                    && slots@[i].next_free == (if i + 1 < cap { (i + 1) as u32 } else { FREE_SENTINEL }),
            decreases cap - idx,
        {
            let next_free = if idx + 1 < cap { idx + 1 } else { FREE_SENTINEL };
            slots.push(Slot { generation: Generation(0), next_free, data: None });
            idx = idx + 1;
        }
        let free_head = if cap == 0 { FREE_SENTINEL } else { 0 };
        let ghost f = Seq::new(capacity as nat, |i: int| i as u32);
        let s = Slab { slots, free_head, len: 0, free: Ghost(f) };
        proof {
            assert forall|i: int| 0 <= i < s.slots@.len() implies (f.contains(i as u32) <==> #[trigger] s.slots@[i].data is None) by {
                assert(f[i] == i as u32);
            }
            assert forall|i: int| 0 <= i < capacity implies #[trigger] s@[i] == (0u32, None::<T>) by {
                assert(s.slots@[i].generation.0 == 0);
            }
        }
        s
    }

    /// What inserting `value` does, with `after` the slab after the call and
    /// `r` its result: with an empty free list, `Full` and no change;
    /// otherwise the slot at the head of the free list takes the value under
    /// its next generation, `r` is its key, and the head leaves the list.
    pub open spec fn insert_step(self, after: Slab<T>, value: T, r: Result<SlabKey, SlabError>) -> bool {
        if self.free_list().len() == 0 {
            &&& r == Err::<SlabKey, SlabError>(SlabError::Full)
            &&& after@ == self@
            &&& after.free_list() == self.free_list()
        } else {
            let i = self.free_list()[0] as int;
            let g = (self@[i].0 + 1) % 0x100_0000;
            &&& r is Ok
            &&& r->Ok_0.spec_index() == i
            &&& r->Ok_0.spec_generation() == g
            &&& after@ == self@.update(i, (g as u32, Some(value)))
            &&& after.free_list() == self.free_list().drop_first()
        }
    }

    /// Inserts `value` into the slot at the head of the free list.
    pub fn insert(&mut self, value: T) -> (r: Result<SlabKey, SlabError>)
        requires
            old(self).wf(),
        ensures
            final(self).wf(),
            r is Err <==> old(self).spec_len() == old(self).spec_capacity(),
            r is Ok ==> final(self).lookup(r->Ok_0) == Some(value),
            r is Ok ==> final(self).spec_len() == old(self).spec_len() + 1,
            final(self).spec_capacity() == old(self).spec_capacity(),
            old(self).insert_step(*final(self), value, r),
    {
        let idx = self.free_head;
        if idx == FREE_SENTINEL {
            proof {
                if self.free@.len() > 0 {
                    assert((self.free@[0] as int) < self.slots@.len());
                }
            }
            return Err(SlabError::Full);
        }
        let ghost old_slots = self.slots@;
        let ghost f = self.free@;
        assert(f.len() > 0);
        let i = idx as usize;
        let next = self.slots[i].next_free;
        let g = self.slots[i].generation.next();
        self.slots[i].next_free = FREE_SENTINEL;
        self.slots[i].generation = g;
        self.slots[i].data = Some(value);
        self.free_head = next;
        self.len = self.len + 1;
        self.free = Ghost(f.drop_first());
        proof {
            let s = self.slots@;
            let nf = self.free@;
            assert(old_slots[i as int].data is None) by {
                assert(f.contains(idx));
            }
            assert(old_slots[i as int].generation.0 % 2 == 0);
            assert(g.0 % 2 == 1);
            assert forall|k: int| 0 <= k < nf.len() implies (#[trigger] nf[k] as int) != i as int by {
                assert(nf[k] == f[k + 1]);
            }
            assert forall|j: int| 0 <= j < s.len() implies (nf.contains(j as u32) <==> #[trigger] s[j].data is None) by {
                if j == i as int {
                    if nf.contains(j as u32) {
                        let k = choose|k: int| 0 <= k < nf.len() && nf[k] == j as u32;
                        assert(nf[k] as int != i as int);
                    }
                } else {
                    assert(s[j] == old_slots[j]);
                    if f.contains(j as u32) {
                        let k = choose|k: int| 0 <= k < f.len() && f[k] == j as u32;
                        assert(k != 0);
                        assert(nf[k - 1] == j as u32);
                    }
                    if nf.contains(j as u32) {
                        let k = choose|k: int| 0 <= k < nf.len() && nf[k] == j as u32;
                        assert(f[k + 1] == j as u32);
                    }
                }
            }
            assert forall|k: int| 0 <= k < nf.len() implies #[trigger] s[nf[k] as int].next_free == (if k + 1 < nf.len() { nf[k + 1] } else { FREE_SENTINEL }) by {
                assert(nf[k] == f[k + 1]);
                assert(s[nf[k] as int] == old_slots[f[k + 1] as int]);
            }
            assert(self.free_head == (if nf.len() == 0 { FREE_SENTINEL } else { nf[0] })) by {
                assert(old_slots[f[0] as int].next_free == (if 1 < f.len() { f[1] } else { FREE_SENTINEL }));
            }
            assert(self@ =~= old(self)@.update(i as int, (g.0, Some(value))));
        }
        Ok(SlabKey::new(idx, g))
    }

    /// Returns a shared reference to the value at `key`, if present.
    pub fn get(&self, key: SlabKey) -> (r: Option<&T>)
        requires
            self.wf(),
        ensures
            match self.lookup(key) {
                Some(v) => r == Some(&v),
                None => r is None,
            },
    {
        let idx = key.index() as usize;
        if idx >= self.slots.len() {
            return None;
        }
        if self.slots[idx].generation.0 != key.generation().0 {
            return None;
        }
        self.slots[idx].data.as_ref()
    }

    /// Returns an exclusive reference to the value at `key`, if present;
    /// whatever is written through it becomes the slot's value.
    pub fn get_mut(&mut self, key: SlabKey) -> (r: Option<&mut T>)
        requires
            old(self).wf(),
        ensures
            final(self).wf(),
            final(self).free_list() == old(self).free_list(),
            final(self).spec_capacity() == old(self).spec_capacity(),
            match r {
                Some(m) => {
                    let i = key.spec_index();
                    &&& old(self).lookup(key) == Some(*m)
                    &&& final(self)@ == old(self)@.update(i, (old(self)@[i].0, Some(*final(m))))
                },
                None => {
                    &&& old(self).lookup(key) is None
                    &&& final(self)@ == old(self)@
                },
            },
    {
        let idx = key.index() as usize;
        if idx >= self.slots.len() {
            return None;
        }
        if self.slots[idx].generation.0 != key.generation().0 {
            return None;
        }
        self.slots[idx].data.as_mut()
    }

    /// Removes and returns the value at `key`, if present; the emptied slot
    /// becomes the head of the free list with its generation bumped.
    pub fn remove(&mut self, key: SlabKey) -> (r: Option<T>)
        requires
            old(self).wf(),
        ensures
            final(self).wf(),
            r == old(self).lookup(key),
            final(self).lookup(key) is None,
            final(self).spec_capacity() == old(self).spec_capacity(),
            r is Some ==> final(self).spec_len() == old(self).spec_len() - 1,
            r is None ==> final(self)@ == old(self)@ && final(self).free_list() == old(self).free_list(),
            r is Some ==> {
                let i = key.spec_index();
                &&& final(self)@ == old(self)@.update(i, (((old(self)@[i].0 + 1) % 0x100_0000) as u32, None::<T>))
                &&& final(self).free_list() == seq![i as u32] + old(self).free_list()
            },
    {
        let head = self.free_head;
        let idx = key.index();
        let i = idx as usize;
        if i >= self.slots.len() {
            return None;
        }
        if self.slots[i].generation.0 != key.generation().0 {
            return None;
        }
        let ghost old_slots = self.slots@;
        let ghost f = self.free@;
        let taken = self.slots[i].data.take();
        match taken {
            None => {
                assert(self.slots@ =~= old_slots);
                None
            },
            Some(value) => {
                proof {
                    assert(!f.contains(idx));
                    let fp = f.push(idx);
                    assert(fp.no_duplicates()) by {
                        assert forall|a: int, b: int| 0 <= a < fp.len() && 0 <= b < fp.len() && a != b
                            implies fp[a] != fp[b] by {
                            if a < f.len() && b < f.len() {
                                assert(fp[a] == f[a] && fp[b] == f[b]);
                            } else if a < f.len() {
                                assert(fp[a] == f[a]);
                                assert(f.contains(f[a]));
                            } else {
                                assert(fp[b] == f[b]);
                                assert(f.contains(f[b]));
                            }
                        }
                    }
                    lemma_distinct_bounded(fp, old_slots.len() as int);
                }
                let g = self.slots[i].generation.next();
                self.slots[i].generation = g;
                self.slots[i].next_free = head;
                self.free_head = idx;
                self.len = self.len - 1;
                self.free = Ghost(seq![idx] + f);
                proof {
                    let s = self.slots@;
                    let nf = self.free@;
                    assert(old_slots[i as int].generation.0 % 2 == 1);
                    assert(g.0 % 2 == 0);
                    assert forall|k: int| 0 <= k < nf.len() implies (#[trigger] nf[k] as int) < s.len() by {
                        if k > 0 {
                            assert(nf[k] == f[k - 1]);
                        }
                    }
                    assert(nf.no_duplicates()) by {
                        assert forall|a: int, b: int| 0 <= a < nf.len() && 0 <= b < nf.len() && a != b
                            implies nf[a] != nf[b] by {
                            if a > 0 && b > 0 {
                                assert(nf[a] == f[a - 1] && nf[b] == f[b - 1]);
                            } else if a > 0 {
                                assert(nf[a] == f[a - 1]);
                                assert(f.contains(f[a - 1]));
                            } else {
                                assert(nf[b] == f[b - 1]);
                                assert(f.contains(f[b - 1]));
                            }
                        }
                    }
                    assert forall|j: int| 0 <= j < s.len() implies (nf.contains(j as u32) <==> #[trigger] s[j].data is None) by {
                        if j == i as int {
                            assert(nf[0] == idx);
                        } else {
                            assert(s[j] == old_slots[j]);
                            if f.contains(j as u32) {
                                let k = choose|k: int| 0 <= k < f.len() && f[k] == j as u32;
                                assert(nf[k + 1] == j as u32);
                            }
                            if nf.contains(j as u32) {
                                let k = choose|k: int| 0 <= k < nf.len() && nf[k] == j as u32;
                                assert(k != 0);
                                assert(f[k - 1] == j as u32);
                            }
                        }
                    }
                    assert forall|k: int| 0 <= k < nf.len() implies #[trigger] s[nf[k] as int].next_free == (if k + 1 < nf.len() { nf[k + 1] } else { FREE_SENTINEL }) by {
                        if k == 0 {
                            assert(nf[0] == idx);
                            if f.len() > 0 {
                                assert(nf[1] == f[0]);
                            }
                        } else {
                            assert(nf[k] == f[k - 1]);
                            assert(f[k - 1] != idx);
                            assert(s[nf[k] as int] == old_slots[f[k - 1] as int]);
                            if k + 1 < nf.len() {
                                assert(nf[k + 1] == f[k]);
                            }
                        }
                    }
                    assert(self@ =~= old(self)@.update(i as int, (g.0, None::<T>)));
                }
                Some(value)
            },
        }
    }

    /// Returns the occupied slots as `(SlabKey, &T)` pairs in index order:
    /// as many pairs as `len()`, each a key that resolves to its value, in
    /// strictly increasing index order, and a pair for every key that
    /// resolves.
    pub fn iter(&self) -> (r: Vec<(SlabKey, &T)>)
        requires
            self.wf(),
        ensures
            r@.len() == occupied_entries(self@).len(),
            forall|j: int| 0 <= j < r@.len() ==> {
                let e = occupied_entries(self@)[j];
                &&& (#[trigger] r@[j]).0.spec_index() == e.0
                &&& r@[j].0.spec_generation() == e.1
                &&& *r@[j].1 == e.2
            },
            r@.len() == self.spec_len(),
            forall|j: int| 0 <= j < r@.len() ==> self.lookup((#[trigger] r@[j]).0) == Some(*r@[j].1),
            forall|j1: int, j2: int|
                0 <= j1 < j2 < r@.len() ==> (#[trigger] r@[j1]).0.spec_index() < (#[trigger] r@[j2]).0.spec_index(),
            forall|k: SlabKey|
                #[trigger] self.lookup(k) is Some ==> exists|j: int|
                    0 <= j < r@.len() && (#[trigger] r@[j]).0.spec_index() == k.spec_index()
                        && r@[j].0.spec_generation() == k.spec_generation(),
    {
        let mut out: Vec<(SlabKey, &T)> = Vec::new();
        let n = self.slots.len();
        let mut idx: usize = 0;
        while idx < n
            invariant
                self.wf(),
                n == self.slots@.len(),
                idx <= n,
                out@.len() == occupied_entries(self@.take(idx as int)).len(),
                forall|j: int| 0 <= j < out@.len() ==> {
                    let e = occupied_entries(self@.take(idx as int))[j];
                    &&& (#[trigger] out@[j]).0.spec_index() == e.0
                    &&& out@[j].0.spec_generation() == e.1
                    &&& *out@[j].1 == e.2
                },
            decreases n - idx,
        {
            proof {
                assert(self@.take(idx as int + 1).drop_last() =~= self@.take(idx as int));
            }
            let ghost prev = occupied_entries(self@.take(idx as int));
            let slot = &self.slots[idx];
            if slot.generation.is_occupied() {
                match slot.data.as_ref() {
                    Some(v) => {
                        let key = SlabKey::new(idx as u32, slot.generation);
                        out.push((key, v));
                        proof {
                            assert(self@[idx as int].0 == slot.generation.0);
                            assert(slot.generation.0 <= Generation::MAX);
                            assert(occupied_entries(self@.take(idx as int + 1))
                                == prev.push((idx as int, slot.generation.0, *v)));
                        }
                    },
                    None => {
                        proof {
                            assert(self.slots@[idx as int].data is Some);
                        }
                    },
                }
            } else {
                proof {
                    assert(self.slots@[idx as int].data is None);
                    assert(occupied_entries(self@.take(idx as int + 1)) == prev);
                }
            }
            idx = idx + 1;
        }
        proof {
            assert(self@.take(n as int) =~= self@);
            self.lemma_occupied_len();
            lemma_occupied_entries(self@);
            let c = occupied_entries(self@);
            assert forall|j: int| 0 <= j < out@.len() implies self.lookup((#[trigger] out@[j]).0) == Some(*out@[j].1) by {
                assert(c[j] == c[j]);
            }
            assert forall|j1: int, j2: int| 0 <= j1 < j2 < out@.len() implies (#[trigger] out@[j1]).0.spec_index()
                < (#[trigger] out@[j2]).0.spec_index() by {
                assert(c[j1].0 < c[j2].0);
            }
            assert forall|k: SlabKey| #[trigger] self.lookup(k) is Some implies exists|j: int|
                0 <= j < out@.len() && (#[trigger] out@[j]).0.spec_index() == k.spec_index()
                    && out@[j].0.spec_generation() == k.spec_generation() by {
                let i = k.spec_index();
                assert(self@[i].1 is Some);
                let j = choose|j: int| 0 <= j < c.len() && (#[trigger] c[j]).0 == i;
                assert(out@[j].0.spec_index() == i);
            }
        }
        out
    }

    /// Returns the number of occupied slots.
    pub fn len(&self) -> (r: usize)
        requires
            self.wf(),
        ensures
            r == self.spec_len(),
    {
        self.len
    }

    /// Returns the fixed capacity.
    pub fn capacity(&self) -> (r: usize)
        ensures
            r == self.spec_capacity(),
    {
        self.slots.len()
    }

    /// Returns `true` when no slots are occupied.
    pub fn is_empty(&self) -> (r: bool)
        requires
            self.wf(),
        ensures
            r == (self.spec_len() == 0),
    {
        self.len == 0
    }
}

/// A fresh slab of `capacity` slots after the first `j` of `values` went in:
/// the first `j` slots hold those values under generation 1, the others are
/// empty under generation 0, and the free list holds the remaining indices
/// in order.
spec fn refilled<T>(s: Slab<T>, capacity: nat, values: Seq<T>, j: int) -> bool {
    &&& s@.len() == capacity
    &&& forall|i: int| 0 <= i < j ==> #[trigger] s@[i] == (1u32, Some(values[i]))
    &&& forall|i: int| j <= i < capacity ==> #[trigger] s@[i] == (0u32, None::<T>)
    &&& s.free_list() == Seq::new((capacity - j) as nat, |i: int| (j + i) as u32)
}

/// Each insert into a fresh slab takes the next slot in index order.
proof fn lemma_refill_prefix<T>(
    capacity: nat,
    states: Seq<Slab<T>>,
    values: Seq<T>,
    results: Seq<Result<SlabKey, SlabError>>,
    j: int,
)
    requires
        capacity <= 0xffff_ffff,
        states.len() == values.len() + 1,
        results.len() == values.len(),
        states[0]@.len() == capacity,
        forall|i: int| 0 <= i < capacity ==> #[trigger] states[0]@[i] == (0u32, None::<T>),
        states[0].free_list() == Seq::new(capacity, |i: int| i as u32),
        forall|k: int| 0 <= k < values.len() ==> #[trigger] states[k].insert_step(states[k + 1], values[k], results[k]),
        0 <= j <= values.len(),
        j <= capacity,
    ensures
        refilled(states[j], capacity, values, j),
    decreases j,
{
    if j == 0 {
        assert(states[0].free_list() =~= Seq::new((capacity - 0) as nat, |i: int| (0 + i) as u32));
    } else {
        lemma_refill_prefix(capacity, states, values, results, j - 1);
        let k = j - 1;
        let s = states[k];
        let t = states[k + 1];
        assert(s.insert_step(t, values[k], results[k]));
        assert(s.free_list()[0] == (j - 1) as u32);
        assert(s@[j - 1] == (0u32, None::<T>));
        assert(t@ == s@.update(j - 1, (1u32, Some(values[j - 1]))));
        assert(t.free_list() =~= Seq::new((capacity - j) as nat, |i: int| (j + i) as u32));
        assert forall|i: int| 0 <= i < j implies #[trigger] t@[i] == (1u32, Some(values[i])) by {
            if i < j - 1 {
                assert(t@[i] == s@[i]);
            }
        }
        assert forall|i: int| j <= i < capacity implies #[trigger] t@[i] == (0u32, None::<T>) by {
            assert(t@[i] == s@[i]);
        }
    }
}

/// A fresh slab fills in index order: starting from `Slab::new(capacity)`,
/// which holds nothing, the first `capacity` inserts succeed with keys of
/// indices `0, 1, ..., capacity - 1` in that order, each of generation 1
/// and resolving to its value; the slab then holds `capacity` values and
/// the next insert fails with `Full`. `states[j]` is the slab before the
/// `j`-th insert, of `values[j]`, which returned `results[j]`.
pub proof fn lemma_fresh_slab_fills_in_order<T>(
    capacity: nat,
    states: Seq<Slab<T>>,
    values: Seq<T>,
    results: Seq<Result<SlabKey, SlabError>>,
)
    requires
        capacity <= 0xffff_ffff,
        states.len() == values.len() + 1,
        results.len() == values.len(),
        states[0]@.len() == capacity,
        forall|i: int| 0 <= i < capacity ==> #[trigger] states[0]@[i] == (0u32, None::<T>),
        states[0].free_list() == Seq::new(capacity, |i: int| i as u32),
        forall|k: int| 0 <= k < values.len() ==> #[trigger] states[k].insert_step(states[k + 1], values[k], results[k]),
    ensures
        states[0].spec_len() == 0,
        forall|j: int| 0 <= j < values.len() && j < capacity ==> {
            &&& (#[trigger] results[j]) is Ok
            &&& results[j]->Ok_0.spec_index() == j
            &&& results[j]->Ok_0.spec_generation() == 1
            &&& states[j + 1].lookup(results[j]->Ok_0) == Some(values[j])
        },
        values.len() >= capacity ==> states[capacity as int].spec_len() == capacity,
        values.len() > capacity ==> results[capacity as int] == Err::<SlabKey, SlabError>(SlabError::Full),
{
    assert forall|j: int| 0 <= j < values.len() && j < capacity implies {
        &&& (#[trigger] results[j]) is Ok
        &&& results[j]->Ok_0.spec_index() == j
        &&& results[j]->Ok_0.spec_generation() == 1
        &&& states[j + 1].lookup(results[j]->Ok_0) == Some(values[j])
    } by {
        lemma_refill_prefix(capacity, states, values, results, j);
        lemma_refill_prefix(capacity, states, values, results, j + 1);
        assert(states[j].insert_step(states[j + 1], values[j], results[j]));
        assert(states[j].free_list()[0] == j as u32);
        assert(states[j + 1]@[j] == (1u32, Some(values[j])));
    }
    if values.len() >= capacity {
        lemma_refill_prefix(capacity, states, values, results, capacity as int);
        if values.len() > capacity {
            assert(states[capacity as int].insert_step(
                states[capacity as int + 1],
                values[capacity as int],
                results[capacity as int],
            ));
        }
    }
}

/// Reusing a slot defeats stale keys: after removing the value a key
/// designates and inserting another, the new value lands in the same slot
/// under a different generation, and the old key resolves to nothing.
pub proof fn lemma_reuse_after_remove<T>(s0: Slab<T>, s1: Slab<T>, s2: Slab<T>, k: SlabKey, k2: SlabKey, v: T)
    requires
        s0.wf(),
        s0.lookup(k) is Some,
        s1@ == s0@.update(k.spec_index(), (((s0@[k.spec_index()].0 + 1) % 0x100_0000) as u32, None::<T>)),
        s1.free_list() == seq![k.spec_index() as u32] + s0.free_list(),
        k2.spec_index() == s1.free_list()[0] as int,
        k2.spec_generation() == (s1@[s1.free_list()[0] as int].0 + 1) % 0x100_0000,
        s2@ == s1@.update(k2.spec_index(), (k2.spec_generation() as u32, Some(v))),
    ensures
        k2.spec_index() == k.spec_index(),
        k2.spec_generation() != k.spec_generation(),
        s2.lookup(k) is None,
        s2.lookup(k2) == Some(v),
{
    s0.lemma_wf();
    let i = k.spec_index();
    assert(s1.free_list()[0] == i as u32);
    assert(s0@[i].0 <= Generation::MAX);
}

} // verus!
