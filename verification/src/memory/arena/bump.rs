//! [`BumpAllocator`] — fixed-capacity bump allocator with a bounded
//! registry of values whose destructors run at reset.

use vstd::prelude::*;
use vstd::string::StringExecFns;

use crate::flat::FlatLayout;
use crate::memory::arena::builder::BumpAllocatorBuilder;
use crate::memory::arena::phase::ArenaPhase;
use crate::memory::generation::Generation;
use crate::text::{decimal, decimal_digits};

verus! {

/// Backing-buffer alignment; the largest alignment an arena can satisfy.
pub const MAX_ALIGN: usize = 16;

/// `n` is a power of two.
pub open spec fn is_power_of_two(n: int) -> bool
    decreases n,
{
    if n <= 0 {
        false
    } else if n == 1 {
        true
    } else {
        n % 2 == 0 && is_power_of_two(n / 2)
    }
}

/// `size` and `align` form a valid memory layout: the size is non-negative,
/// the alignment is a power of two, and the size rounded up to the
/// alignment does not exceed `isize::MAX`.
pub open spec fn layout_fits(size: int, align: int) -> bool {
    0 <= size && is_power_of_two(align) && size + align <= isize::MAX + 1
}

/// `addr` rounded up to the next multiple of `align`.
pub open spec fn round_up(addr: int, align: int) -> int {
    ((addr + align - 1) / align) * align
}

/// Errors emitted by [`BumpAllocator`] operations.
#[derive(Clone, Copy, PartialEq, Eq, Debug, Structural)]
pub enum ArenaError {
    /// Builder requested zero bytes.
    ZeroCapacity,
    /// Allocation request exceeds remaining capacity.
    Exhausted {
        /// Bytes the failed call asked for (including alignment padding).
        requested: usize,
        /// Bytes still available before the failure.
        available: usize,
    },
    /// A drop registration was refused because the registry is full.
    DropRegistryFull {
        /// Configured drop registry capacity.
        capacity: usize,
    },
    /// Allocation attempted in the Frozen phase.
    WrongPhase {
        /// Phase observed at the call site.
        current: ArenaPhase,
    },
}

impl ArenaError {
    /// The text of the error's message.
    pub open spec fn spec_message(self) -> Seq<char> {
        match self {
            ArenaError::ZeroCapacity => "arena builder requested zero bytes"@,
            ArenaError::Exhausted { requested, available } => "arena exhausted: requested "@
                + decimal_digits(requested as nat) + ", available "@ + decimal_digits(available as nat),
            ArenaError::DropRegistryFull { capacity } => "arena drop registry full (capacity "@
                + decimal_digits(capacity as nat) + ")"@,
            ArenaError::WrongPhase { current } => "arena allocation requires Build phase (current "@
                + current.spec_name() + ")"@,
        }
    }

    /// Human-readable description of the error.
    pub fn to_string(&self) -> (s: String)
        ensures
            s@ == self.spec_message(),
    {
        match self {
            ArenaError::ZeroCapacity => "arena builder requested zero bytes".to_owned(),
            ArenaError::Exhausted { requested, available } => {
                let mut s = "arena exhausted: requested ".to_owned();
                s.append(decimal(*requested as u64).as_str());
                s.append(", available ");
                s.append(decimal(*available as u64).as_str());
                s
            },
            ArenaError::DropRegistryFull { capacity } => {
                let mut s = "arena drop registry full (capacity ".to_owned();
                s.append(decimal(*capacity as u64).as_str());
                s.append(")");
                s
            },
            ArenaError::WrongPhase { current } => {
                let mut s = "arena allocation requires Build phase (current ".to_owned();
                s.append(current.name());
                s.append(")");
                s
            },
        }
    }
}

/// Fixed-capacity bump allocator for conductor DAG-scoped data.
///
/// Lifecycle: `Build` → `freeze()` → `Frozen` → `reset(0)` → `Build`.
/// Allocation is permitted only in Build; each reset empties the arena and
/// bumps its generation.
pub struct BumpAllocator {
    buffer: Vec<u8>,
    capacity: usize,
    cursor: usize,
    drop_count: usize,
    drop_capacity: usize,
    phase: ArenaPhase,
    generation: Generation,
}

/// `align` is one of the alignments an arena can satisfy.
proof fn lemma_small_power_of_two(align: int)
    requires
        is_power_of_two(align),
        align <= 16,
    ensures
        align == 1 || align == 2 || align == 4 || align == 8 || align == 16,
{
    reveal_with_fuel(is_power_of_two, 5);
}

/// A power of two has a single bit set: masking it with its predecessor
/// leaves nothing.
proof fn lemma_power_of_two_mask(n: usize)
    requires
        is_power_of_two(n as int),
    ensures
        n & ((n - 1) as usize) == 0usize,
    decreases n,
{
    if n == 1 {
        assert(1usize & 0usize == 0usize) by (bit_vector);
    } else {
        let m: usize = n / 2;
        lemma_power_of_two_mask(m);
        assert(n & ((n - 1) as usize) == 0usize) by (bit_vector)
            requires
                m > 0,
                m & ((m - 1) as usize) == 0usize,
                n == m + m,
        ;
    }
}

/// A value whose bits below the power of two `a` are all clear is a
/// multiple of `a`.
proof fn lemma_masked_is_multiple(x: usize, a: usize)
    requires
        is_power_of_two(a as int),
        x & ((a - 1) as usize) == 0usize,
    ensures
        x % a == 0,
    decreases a,
{
    if a == 1 {
        assert(x % 1 == 0) by (nonlinear_arith);
    } else {
        let m: usize = a / 2;
        lemma_power_of_two_mask(m);
        let y: usize = x >> 1usize;
        assert(y & ((m - 1) as usize) == 0usize && x == y + y) by (bit_vector)
            requires
                m > 0,
                m & ((m - 1) as usize) == 0usize,
                a == m + m,
                x & ((a - 1) as usize) == 0usize,
                y == x >> 1usize,
        ;
        lemma_masked_is_multiple(y, m);
        let mi = m as int;
        let k = (y as int) / mi;
        vstd::arithmetic::div_mod::lemma_fundamental_div_mod(y as int, mi);
        assert(x as int == k * (a as int)) by (nonlinear_arith)
            requires
                y as int == mi * k,
                x as int == y + y,
                a as int == mi + mi,
        ;
        vstd::arithmetic::div_mod::lemma_mod_multiples_basic(k, a as int);
    }
}

/// Rounds `addr` up to the least multiple of the power of two `align` that
/// is at least `addr`.
fn align_up(addr: usize, align: usize) -> (r: usize)
    requires
        is_power_of_two(align as int),
        addr + align - 1 <= usize::MAX,
    ensures
        r == round_up(addr as int, align as int),
        r % align == 0,
        addr <= r < addr + align,
{
    let r = (addr + (align - 1)) & !(align - 1);
    proof {
        lemma_power_of_two_mask(align);
        let a = align;
        let s = (addr + (align - 1)) as usize;
        assert(r & ((a - 1) as usize) == 0usize && r <= s && s - r <= a - 1) by (bit_vector)
            requires
                a > 0,
                r == s & !((a - 1) as usize),
        ;
        lemma_masked_is_multiple(r, a);
        let ai = a as int;
        vstd::arithmetic::div_mod::lemma_fundamental_div_mod(r as int, ai);
        let k = (r as int) / ai;
        vstd::arithmetic::div_mod::lemma_fundamental_div_mod_converse(s as int, ai, k, s - r);
    }
    r
}

/// Checks that a `MAX_ALIGN`-aligned buffer of `bytes` bytes is a valid
/// memory layout, reporting `Exhausted` with nothing available otherwise.
fn buffer_layout(bytes: usize) -> (r: Result<(), ArenaError>)
    ensures
        r is Ok <==> bytes + MAX_ALIGN <= isize::MAX + 1,
        r is Err ==> r == Err::<(), ArenaError>(ArenaError::Exhausted { requested: bytes, available: 0 }),
{
    if bytes > (isize::MAX as usize) + 1 - MAX_ALIGN {
        Err(ArenaError::Exhausted { requested: bytes, available: 0 })
    } else {
        Ok(())
    }
}

impl BumpAllocator {
    /// Capacity in bytes.
    pub closed spec fn spec_capacity(&self) -> int {
        self.capacity as int
    }

    /// Bytes consumed in the active phase.
    pub closed spec fn spec_used(&self) -> int {
        self.cursor as int
    }

    /// The arena's bytes.
    pub closed spec fn spec_bytes(&self) -> Seq<u8> {
        self.buffer@
    }

    /// Current lifecycle phase.
    pub closed spec fn spec_phase(&self) -> ArenaPhase {
        self.phase
    }

    /// Current generation.
    pub closed spec fn spec_generation(&self) -> Generation {
        self.generation
    }

    /// Number of drop registrations in the active phase.
    pub closed spec fn spec_drop_count(&self) -> int {
        self.drop_count as int
    }

    /// Configured drop registry capacity.
    pub closed spec fn spec_drop_capacity(&self) -> int {
        self.drop_capacity as int
    }

    /// Structural invariant: the cursor stays within a capacity whose
    /// 16-aligned buffer layout is valid, and the registry within its
    /// capacity.
    pub closed spec fn wf(&self) -> bool {
        &&& 0 < self.capacity
        &&& self.buffer@.len() == self.capacity
        &&& self.capacity + MAX_ALIGN <= isize::MAX + 1
        &&& self.cursor <= self.capacity
        &&& self.drop_count <= self.drop_capacity
        &&& self.generation.0 <= Generation::MAX
    }

    /// Facts the invariant gives about the observable state.
    pub proof fn lemma_wf(&self)
        requires
            self.wf(),
        ensures
            0 <= self.spec_used() <= self.spec_capacity(),
            0 < self.spec_capacity(),
            self.spec_bytes().len() == self.spec_capacity(),
            self.spec_capacity() + MAX_ALIGN <= isize::MAX + 1,
            0 <= self.spec_drop_count() <= self.spec_drop_capacity(),
            self.spec_generation().0 <= Generation::MAX,
    {
    }

    /// The error reported for a request of `requested` bytes.
    fn exhausted(&self, requested: usize) -> (e: ArenaError)
        requires
            self.cursor <= self.capacity,
        ensures
            e == (ArenaError::Exhausted { requested, available: (self.capacity - self.cursor) as usize }),
    {
        ArenaError::Exhausted { requested, available: self.capacity - self.cursor }
    }

    /// Reserves `size` bytes aligned to `align` and returns their offset.
    fn alloc_raw(&mut self, size: usize, align: usize) -> (r: Result<usize, ArenaError>)
        requires
            old(self).wf(),
            layout_fits(size as int, align as int),
        ensures
            final(self).wf(),
            final(self).spec_capacity() == old(self).spec_capacity(),
            final(self).spec_phase() == old(self).spec_phase(),
            final(self).spec_generation() == old(self).spec_generation(),
            final(self).spec_drop_count() == old(self).spec_drop_count(),
            final(self).spec_drop_capacity() == old(self).spec_drop_capacity(),
            final(self).spec_bytes() == old(self).spec_bytes(),
            r == old(self).spec_reserve(size as int, align as int),
            r is Ok <==> (old(self).spec_phase() == ArenaPhase::Build && align <= MAX_ALIGN && round_up(
                old(self).spec_used(),
                align as int,
            ) + size <= old(self).spec_capacity()),
            r is Ok ==> {
                let off = r->Ok_0;
                &&& off == round_up(old(self).spec_used(), align as int)
                &&& off % align == 0
                &&& old(self).spec_used() <= off < old(self).spec_used() + align
                &&& final(self).spec_used() == off + size
            },
            r is Err ==> final(self).spec_used() == old(self).spec_used(),
    {
        proof {
            if old(self).spec_phase() == ArenaPhase::Build && align <= MAX_ALIGN && round_up(
                old(self).spec_used(),
                align as int,
            ) + size <= old(self).spec_capacity() {
                lemma_reserve_succeeds(*old(self), size as int, align as int);
            }
        }
        if self.phase != ArenaPhase::Build {
            return Err(ArenaError::WrongPhase { current: self.phase });
        }
        if align > MAX_ALIGN {
            return Err(self.exhausted(size + align));
        }
        let aligned = align_up(self.cursor, align);
        let new_cursor = match aligned.checked_add(size) {
            Some(c) => c,
            None => {
                return Err(self.exhausted(size));
            },
        };
        if new_cursor > self.capacity {
            return Err(self.exhausted(new_cursor - self.cursor));
        }
        self.cursor = new_cursor;
        Ok(aligned)
    }

    /// Returns a fresh [`BumpAllocatorBuilder`] with the default settings.
    pub fn builder() -> (b: BumpAllocatorBuilder)
        ensures
            b.spec_bytes() == crate::memory::arena::builder::DEFAULT_BYTES,
            b.spec_drop_slots() == crate::memory::arena::builder::DEFAULT_DROP_SLOTS,
    {
        BumpAllocatorBuilder::new()
    }

    /// Constructs an arena of `bytes` zeroed bytes in Build phase with
    /// generation zero and a registry of `drop_slots` entries. Fails with
    /// `ZeroCapacity` for zero bytes, and with `Exhausted` (available 0)
    /// when a 16-aligned buffer of `bytes` bytes is not a valid layout.
    pub(crate) fn from_builder(bytes: usize, drop_slots: usize) -> (r: Result<BumpAllocator, ArenaError>)
        ensures
            bytes == 0 ==> r == Err::<BumpAllocator, ArenaError>(ArenaError::ZeroCapacity),
            bytes > 0 && bytes + MAX_ALIGN > isize::MAX + 1 ==> r == Err::<BumpAllocator, ArenaError>(
                ArenaError::Exhausted { requested: bytes, available: 0 }),
            bytes > 0 && bytes + MAX_ALIGN <= isize::MAX + 1 ==> r is Ok,
            r is Ok ==> {
                let a = r->Ok_0;
                &&& a.wf()
                &&& a.spec_capacity() == bytes
                &&& a.spec_used() == 0
                &&& a.spec_phase() == ArenaPhase::Build
                &&& a.spec_generation() == Generation(0)
                &&& a.spec_drop_count() == 0
                &&& a.spec_drop_capacity() == drop_slots
                &&& a.spec_bytes() == Seq::new(bytes as nat, |i: int| 0u8)
            },
    {
        if bytes == 0 {
            return Err(ArenaError::ZeroCapacity);
        }
        match buffer_layout(bytes) {
            Ok(()) => {},
            Err(e) => {
                return Err(e);
            },
        }
        let buffer = vec![0u8; bytes];
        assert(buffer@ =~= Seq::new(bytes as nat, |i: int| 0u8));
        Ok(BumpAllocator {
            buffer,
            capacity: bytes,
            cursor: 0,
            drop_count: 0,
            drop_capacity: drop_slots,
            phase: ArenaPhase::Build,
            generation: Generation(0),
        })
    }

    /// Allocates a `T: FlatLayout` value: reserves `T::SIZE` bytes aligned
    /// to `T::ALIGN`, writes the value's bytes there and returns their
    /// offset. Fails with `WrongPhase` outside Build and `Exhausted` when the
    /// remaining capacity cannot fit the value with its padding.
    pub fn alloc_flat<T: FlatLayout>(&mut self, value: T) -> (r: Result<usize, ArenaError>)
        requires
            old(self).wf(),
            T::layout_valid(),
        ensures
            final(self).wf(),
            r == old(self).spec_reserve(T::SIZE as int, T::ALIGN as int),
            final(self).spec_capacity() == old(self).spec_capacity(),
            final(self).spec_phase() == old(self).spec_phase(),
            final(self).spec_generation() == old(self).spec_generation(),
            final(self).spec_drop_count() == old(self).spec_drop_count(),
            final(self).spec_drop_capacity() == old(self).spec_drop_capacity(),
            r is Ok ==> {
                let off = r->Ok_0;
                &&& off % T::ALIGN == 0
                &&& old(self).spec_used() <= off < old(self).spec_used() + T::ALIGN
                &&& final(self).spec_used() == off + T::SIZE
                &&& final(self).spec_bytes() == old(self).spec_bytes().take(off as int) + value.flat_bytes()
                    + old(self).spec_bytes().skip(off + T::SIZE)
            },
            r is Err ==> final(self).spec_used() == old(self).spec_used() && final(self).spec_bytes()
                == old(self).spec_bytes(),
    {
        proof {
            T::lemma_layout();
            value.lemma_flat_bytes_len();
        }
        match self.alloc_raw(T::SIZE, T::ALIGN) {
            Ok(off) => {
                value.write_flat(&mut self.buffer, off);
                Ok(off)
            },
            Err(e) => Err(e),
        }
    }

    /// Allocates room for `count` elements of `T` left as they are, and
    /// returns the offset of the first. Fails with `Exhausted` (requesting
    /// `usize::MAX`) when `count * T::SIZE` overflows, with `Exhausted` when
    /// that many bytes do not form a valid layout, and otherwise as
    /// reserving them does.
    pub fn alloc_slice<T: FlatLayout>(&mut self, count: usize) -> (r: Result<usize, ArenaError>)
        requires
            old(self).wf(),
            T::layout_valid(),
        ensures
            final(self).wf(),
            final(self).spec_capacity() == old(self).spec_capacity(),
            final(self).spec_phase() == old(self).spec_phase(),
            final(self).spec_generation() == old(self).spec_generation(),
            final(self).spec_drop_count() == old(self).spec_drop_count(),
            final(self).spec_drop_capacity() == old(self).spec_drop_capacity(),
            final(self).spec_bytes() == old(self).spec_bytes(),
            ({
                let bytes = T::SIZE * count;
                let available = (old(self).spec_capacity() - old(self).spec_used()) as usize;
                if bytes > usize::MAX {
                    r == Err::<usize, ArenaError>(ArenaError::Exhausted { requested: usize::MAX, available })
                } else if !layout_fits(bytes, T::ALIGN as int) {
                    r == Err::<usize, ArenaError>(ArenaError::Exhausted { requested: bytes as usize, available })
                } else {
                    r == old(self).spec_reserve(bytes, T::ALIGN as int)
                }
            }),
            r is Ok ==> final(self).spec_used() == r->Ok_0 + T::SIZE * count,
            r is Err ==> final(self).spec_used() == old(self).spec_used(),
    {
        proof {
            T::lemma_layout();
        }
        let bytes = match T::SIZE.checked_mul(count) {
            Some(b) => b,
            None => {
                return Err(self.exhausted(usize::MAX));
            },
        };
        if bytes > (isize::MAX as usize) + 1 - T::ALIGN {
            return Err(self.exhausted(bytes));
        }
        self.alloc_raw(bytes, T::ALIGN)
    }

    /// Reserves room for a value whose destructor its owner registers with
    /// this arena, to run at the next reset. Fails with `DropRegistryFull`
    /// when the registry holds `drop_capacity` entries, and otherwise as
    /// reserving the bytes does; a success takes one registry slot.
    pub fn register_drop(&mut self, size: usize, align: usize) -> (r: Result<usize, ArenaError>)
        requires
            old(self).wf(),
            layout_fits(size as int, align as int),
        ensures
            final(self).wf(),
            final(self).spec_capacity() == old(self).spec_capacity(),
            final(self).spec_phase() == old(self).spec_phase(),
            final(self).spec_generation() == old(self).spec_generation(),
            final(self).spec_drop_capacity() == old(self).spec_drop_capacity(),
            final(self).spec_bytes() == old(self).spec_bytes(),
            old(self).spec_drop_count() >= old(self).spec_drop_capacity() ==> r
                == Err::<usize, ArenaError>(
                ArenaError::DropRegistryFull { capacity: old(self).spec_drop_capacity() as usize },
            ),
            old(self).spec_drop_count() < old(self).spec_drop_capacity() ==> r == old(self).spec_reserve(
                size as int,
                align as int,
            ),
            r is Ok ==> final(self).spec_used() == r->Ok_0 + size && final(self).spec_drop_count()
                == old(self).spec_drop_count() + 1,
            r is Ok ==> r->Ok_0 % align == 0 && old(self).spec_used() <= r->Ok_0 < old(self).spec_used()
                + align,
            r is Err ==> final(self).spec_used() == old(self).spec_used() && final(self).spec_drop_count()
                == old(self).spec_drop_count(),
    {
        if self.drop_count >= self.drop_capacity {
            return Err(ArenaError::DropRegistryFull { capacity: self.drop_capacity });
        }
        let r = self.alloc_raw(size, align);
        if r.is_ok() {
            self.drop_count = self.drop_count + 1;
        }
        r
    }

    /// Transitions to Frozen; subsequent allocations fail with `WrongPhase`.
    pub fn freeze(&mut self)
        requires
            old(self).wf(),
        ensures
            final(self).wf(),
            final(self).spec_phase() == ArenaPhase::Frozen,
            final(self).spec_capacity() == old(self).spec_capacity(),
            final(self).spec_used() == old(self).spec_used(),
            final(self).spec_generation() == old(self).spec_generation(),
            final(self).spec_drop_count() == old(self).spec_drop_count(),
            final(self).spec_drop_capacity() == old(self).spec_drop_capacity(),
            final(self).spec_bytes() == old(self).spec_bytes(),
    {
        self.phase = ArenaPhase::Frozen;
    }

    /// Transitions back to Build: empties the arena and the drop registry
    /// and bumps the generation. The owner of the registered values runs
    /// their destructors, last registered first, before calling this.
    /// `outstanding` — the in-flight handle count the caller vouches for —
    /// must be zero.
    pub fn reset(&mut self, outstanding: u32)
        requires
            old(self).wf(),
            outstanding == 0,
        ensures
            final(self).wf(),
            final(self).spec_phase() == ArenaPhase::Build,
            final(self).spec_used() == 0,
            final(self).spec_drop_count() == 0,
            final(self).spec_generation().0 == (old(self).spec_generation().0 + 1) % 0x100_0000,
            final(self).spec_capacity() == old(self).spec_capacity(),
            final(self).spec_drop_capacity() == old(self).spec_drop_capacity(),
            final(self).spec_bytes() == old(self).spec_bytes(),
    {
        self.drop_count = 0;
        self.cursor = 0;
        self.phase = ArenaPhase::Build;
        self.generation = self.generation.next();
    }

    /// Returns the current lifecycle phase.
    pub fn phase(&self) -> (r: ArenaPhase)
        ensures
            r == self.spec_phase(),
    {
        self.phase
    }

    /// Returns the current generation.
    pub fn generation(&self) -> (r: Generation)
        ensures
            r == self.spec_generation(),
    {
        self.generation
    }

    /// Returns the number of bytes consumed in the active phase.
    pub fn used(&self) -> (r: usize)
        ensures
            r == self.spec_used(),
    {
        self.cursor
    }

    /// Returns the total backing capacity in bytes.
    pub fn capacity(&self) -> (r: usize)
        ensures
            r == self.spec_capacity(),
    {
        self.capacity
    }

    /// Returns bytes still available in the active phase.
    pub fn available(&self) -> (r: usize)
        requires
            self.wf(),
        ensures
            r == self.spec_capacity() - self.spec_used(),
    {
        self.capacity - self.cursor
    }

    /// Returns the arena's bytes.
    pub fn as_bytes(&self) -> (r: &[u8])
        ensures
            r@ == self.spec_bytes(),
    {
        self.buffer.as_slice()
    }

    /// The outcome of reserving `size` bytes aligned to `align`: the offset
    /// of the reservation, or the error.
    pub open spec fn spec_reserve(&self, size: int, align: int) -> Result<usize, ArenaError> {
        let used = self.spec_used();
        let available = (self.spec_capacity() - used) as usize;
        if self.spec_phase() != ArenaPhase::Build {
            Err(ArenaError::WrongPhase { current: self.spec_phase() })
        } else if align > MAX_ALIGN {
            Err(ArenaError::Exhausted { requested: (size + align) as usize, available })
        } else if round_up(used, align) + size > self.spec_capacity() {
            Err(ArenaError::Exhausted { requested: (round_up(used, align) + size - used) as usize, available })
        } else {
            Ok(round_up(used, align) as usize)
        }
    }
}

/// A frozen arena rejects every allocation with `WrongPhase`.
pub proof fn lemma_frozen_rejects(a: BumpAllocator, size: int, align: int)
    requires
        a.spec_phase() == ArenaPhase::Frozen,
    ensures
        a.spec_reserve(size, align) == Err::<usize, ArenaError>(ArenaError::WrongPhase { current: ArenaPhase::Frozen }),
{
}

/// A successful reservation starts at a multiple of the alignment, at or
/// after the cursor, within the gap of less than one alignment unit, and
/// ends within the capacity.
pub proof fn lemma_reserve_placement(a: BumpAllocator, size: int, align: int)
    requires
        a.wf(),
        layout_fits(size, align),
        a.spec_reserve(size, align) is Ok,
    ensures
        ({
            let off = a.spec_reserve(size, align)->Ok_0 as int;
            &&& off % align == 0
            &&& a.spec_used() <= off < a.spec_used() + align
            &&& off + size <= a.spec_capacity()
        }),
{
    let used = a.spec_used();
    assert(align <= MAX_ALIGN);
    lemma_small_power_of_two(align);
    let off = round_up(used, align);
    assert(off % align == 0 && used <= off < used + align) by (nonlinear_arith)
        requires align >= 1, used >= 0, off == ((used + align - 1) / align) * align;
}

/// In Build phase, a request whose alignment the arena supports and whose
/// aligned end fits in the capacity succeeds: it is placed at the cursor
/// rounded up to the alignment, a multiple of the alignment at or after
/// the cursor (so after every byte reserved earlier in the phase) and less
/// than one alignment unit past it.
pub proof fn lemma_reserve_succeeds(a: BumpAllocator, size: int, align: int)
    requires
        a.wf(),
        layout_fits(size, align),
        a.spec_phase() == ArenaPhase::Build,
        align <= MAX_ALIGN,
        round_up(a.spec_used(), align) + size <= a.spec_capacity(),
    ensures
        a.spec_reserve(size, align) == Ok::<usize, ArenaError>(round_up(a.spec_used(), align) as usize),
        round_up(a.spec_used(), align) % align == 0,
        a.spec_used() <= round_up(a.spec_used(), align) < a.spec_used() + align,
{
    let used = a.spec_used();
    lemma_small_power_of_two(align);
    let off = round_up(used, align);
    assert(off % align == 0 && used <= off < used + align) by (nonlinear_arith)
        requires align >= 1, used >= 0, off == ((used + align - 1) / align) * align;
}

/// Successive allocations within a phase never overlap: a reservation made
/// after another starts at or after the end of the earlier one.
pub proof fn lemma_reservations_disjoint(
    a: BumpAllocator,
    a2: BumpAllocator,
    size1: int,
    align1: int,
    size2: int,
    align2: int,
)
    requires
        layout_fits(size1, align1),
        layout_fits(size2, align2),
        a.spec_reserve(size1, align1) is Ok,
        a2.spec_used() == a.spec_reserve(size1, align1)->Ok_0 + size1,
        a2.spec_reserve(size2, align2) is Ok,
    ensures
        a.spec_reserve(size1, align1)->Ok_0 + size1 <= a2.spec_reserve(size2, align2)->Ok_0,
{
    let used = a2.spec_used();
    assert(align2 <= MAX_ALIGN);
    lemma_small_power_of_two(align2);
    let off = round_up(used, align2);
    assert(used <= off) by (nonlinear_arith)
        requires align2 >= 1, used >= 0, off == ((used + align2 - 1) / align2) * align2;
}

/// A reset gives the arena a different generation, and a generation is
/// reused only after `2^24` resets.
pub proof fn lemma_reset_changes_generation(g: Generation)
    requires
        g.0 <= Generation::MAX,
    ensures
        (g.0 + 1) % 0x100_0000 != g.0,
{
}

} // verus!
