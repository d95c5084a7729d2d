//! [`FlatLayout`] — types with a stable byte layout, whose in-memory
//! representation doubles as their wire format.
//!
//! The arena stores every value little-endian, least significant byte at
//! the lowest address, whatever the target. That is the value's native
//! in-memory representation on the little-endian targets the runtime
//! supports; on a big-endian target the stored bytes would differ from
//! the native ones.
//!
//! `usize` and `isize` are excluded: their size is platform-dependent.
//! `bool`, `char`, `u128`, `i128`, `Option<T>` and tuples are excluded too.

use vstd::prelude::*;

use crate::memory::arena::bump::{is_power_of_two, layout_fits};

verus! {

/// The low `n` bytes of `v`, least significant first: the little-endian
/// representation of an `n`-byte integer (its in-memory one on a
/// little-endian target).
pub open spec fn le_bytes(v: u64, n: nat) -> Seq<u8> {
    Seq::new(n, |k: int| ((v >> (8 * k) as u64) & 0xff) as u8)
}

/// Writes the low `n` bytes of `v`, least significant first, at `at`.
fn write_le(buf: &mut Vec<u8>, at: usize, v: u64, n: usize)
    requires
        n <= 8,
        at + n <= old(buf)@.len(),
    ensures
        final(buf)@ == old(buf)@.take(at as int) + le_bytes(v, n as nat) + old(buf)@.skip(at + n),
{
    let ghost orig = buf@;
    let blen = buf.len();
    let mut i: usize = 0;
    while i < n
        invariant
            n <= 8,
            orig.len() == blen,
            i <= n,
            at + n <= orig.len(),
            buf@.len() == orig.len(),
            forall|k: int| 0 <= k < at ==> buf@[k] == orig[k],
            forall|k: int| at + n <= k < orig.len() ==> buf@[k] == orig[k],
            forall|k: int| 0 <= k < i ==> buf@[at + k] == #[trigger] le_bytes(v, n as nat)[k],
        decreases n - i,
    {
        let b = ((v >> (8 * i as u64)) & 0xff) as u8;
        buf.set(at + i, b);
        i = i + 1;
    }
    assert(buf@ =~= orig.take(at as int) + le_bytes(v, n as nat) + orig.skip(at + n));
}

/// The number whose little-endian bytes are `bytes`: the first byte counts
/// units, the next multiples of 256, and so on.
pub open spec fn le_value(bytes: Seq<u8>) -> nat
    decreases bytes.len(),
{
    if bytes.len() == 0 {
        0
    } else {
        bytes[0] as nat + 256 * le_value(bytes.drop_first())
    }
}

/// `256` to the power `n`.
pub open spec fn byte_radix(n: nat) -> nat
    decreases n,
{
    if n == 0 {
        1
    } else {
        256 * byte_radix((n - 1) as nat)
    }
}

/// Reading back the low `n` little-endian bytes of `v` gives `v` modulo
/// `256^n`.
proof fn lemma_le_bytes_value(v: u64, n: nat)
    requires
        n <= 8,
    ensures
        le_value(le_bytes(v, n)) == v as int % byte_radix(n) as int,
    decreases n,
{
    if n == 0 {
        assert(v as int % 1 == 0);
    } else {
        let w: u64 = v >> 8u64;
        let n1 = (n - 1) as nat;
        lemma_le_bytes_value(w, n1);
        let b = le_bytes(v, n);
        assert(b.drop_first() =~= le_bytes(w, n1)) by {
            assert forall|k: int| 0 <= k < n1 implies b.drop_first()[k] == le_bytes(w, n1)[k] by {
                let s: u64 = (8 * k) as u64;
                let s1: u64 = (8 * (k + 1)) as u64;
                assert((v >> s1) & 0xff == (w >> s) & 0xff) by (bit_vector)
                    requires
                        w == v >> 8u64,
                        s < 56,
                        s1 == s + 8,
                ;
            }
        }
        assert((v >> 0u64) & 0xff == v % 256 && w == v / 256) by (bit_vector)
            requires
                w == v >> 8u64,
        ;
        assert(b[0] as int == v as int % 256);
        let r = byte_radix(n1) as int;
        assert(r > 0) by {
            lemma_byte_radix_positive(n1);
        }
        vstd::arithmetic::div_mod::lemma_mod_breakdown(v as int, 256, r);
    }
}

/// Every power of 256 is positive.
proof fn lemma_byte_radix_positive(n: nat)
    ensures
        byte_radix(n) > 0,
    decreases n,
{
    if n > 0 {
        lemma_byte_radix_positive((n - 1) as nat);
    }
}

/// A value below `256^n` reads back from its low `n` little-endian bytes
/// unchanged.
proof fn lemma_fitting_value_reads_back(v: u64, n: nat)
    requires
        n <= 8,
        (v as int) < byte_radix(n) as int,
    ensures
        le_value(le_bytes(v, n)) == v,
{
    lemma_le_bytes_value(v, n);
    vstd::arithmetic::div_mod::lemma_small_mod(v as nat, byte_radix(n));
}

/// The powers of 256 for the widths of the flat integers.
proof fn lemma_byte_radix_widths()
    ensures
        byte_radix(1) == 0x100,
        byte_radix(2) == 0x1_0000,
        byte_radix(4) == 0x1_0000_0000,
        byte_radix(8) == 0x1_0000_0000_0000_0000,
{
    reveal_with_fuel(byte_radix, 9);
}

/// The bytes the arena stores for an unsigned integer read back, as a
/// little-endian number, to exactly that integer.
pub proof fn lemma_unsigned_bytes_read_back(a: u8, b: u16, c: u32, d: u64)
    ensures
        a.flat_bytes().len() == 1 && le_value(a.flat_bytes()) == a,
        b.flat_bytes().len() == 2 && le_value(b.flat_bytes()) == b,
        c.flat_bytes().len() == 4 && le_value(c.flat_bytes()) == c,
        d.flat_bytes().len() == 8 && le_value(d.flat_bytes()) == d,
{
    lemma_byte_radix_widths();
    lemma_fitting_value_reads_back(a as u64, 1);
    lemma_fitting_value_reads_back(b as u64, 2);
    lemma_fitting_value_reads_back(c as u64, 4);
    lemma_fitting_value_reads_back(d, 8);
}

/// The bytes the arena stores for a signed integer read back, as a
/// little-endian number, to its two's-complement bits.
pub proof fn lemma_signed_bytes_read_back(a: i8, b: i16, c: i32, d: i64)
    ensures
        a.flat_bytes().len() == 1 && le_value(a.flat_bytes()) == a as u8,
        b.flat_bytes().len() == 2 && le_value(b.flat_bytes()) == b as u16,
        c.flat_bytes().len() == 4 && le_value(c.flat_bytes()) == c as u32,
        d.flat_bytes().len() == 8 && le_value(d.flat_bytes()) == d as u64,
{
    lemma_byte_radix_widths();
    lemma_fitting_value_reads_back(a as u8 as u64, 1);
    lemma_fitting_value_reads_back(b as u16 as u64, 2);
    lemma_fitting_value_reads_back(c as u32 as u64, 4);
    lemma_fitting_value_reads_back(d as u64, 8);
}

/// Types with a stable byte layout: a fixed-size integer or an array of
/// such.
pub trait FlatLayout: Sized {
    /// Size in bytes.
    const SIZE: usize;
    /// Alignment in bytes.
    const ALIGN: usize;

    /// `SIZE` and `ALIGN` describe a representable memory layout — true of
    /// every type that exists, stated so that proofs can rely on it.
    spec fn layout_valid() -> bool;

    /// The value's bytes, lowest address first, in little-endian order:
    /// its native in-memory representation on a little-endian target.
    spec fn flat_bytes(&self) -> Seq<u8>;

    /// A valid layout has a power-of-two alignment and fits `isize`.
    proof fn lemma_layout()
        requires
            Self::layout_valid(),
        ensures
            layout_fits(Self::SIZE as int, Self::ALIGN as int),
    ;

    /// Under a valid layout the representation is exactly `SIZE` bytes.
    proof fn lemma_flat_bytes_len(&self)
        requires
            Self::layout_valid(),
        ensures
            self.flat_bytes().len() == Self::SIZE,
    ;

    /// Writes the value's in-memory bytes into `buf` at offset `at`.
    fn write_flat(&self, buf: &mut Vec<u8>, at: usize)
        requires
            Self::layout_valid(),
            at + Self::SIZE <= old(buf)@.len(),
        ensures
            final(buf)@ == old(buf)@.take(at as int) + self.flat_bytes() + old(buf)@.skip(at + Self::SIZE),
    ;
}

proof fn lemma_small_powers()
    ensures
        is_power_of_two(1),
        is_power_of_two(2),
        is_power_of_two(4),
        is_power_of_two(8),
{
    reveal_with_fuel(is_power_of_two, 4);
}

impl FlatLayout for u8 {
    const SIZE: usize = 1;
    const ALIGN: usize = 1;

    open spec fn layout_valid() -> bool {
        true
    }

    open spec fn flat_bytes(&self) -> Seq<u8> {
        le_bytes(*self as u64, 1)
    }

    proof fn lemma_layout() {
        lemma_small_powers();
    }

    proof fn lemma_flat_bytes_len(&self) {
    }

    fn write_flat(&self, buf: &mut Vec<u8>, at: usize) {
        write_le(buf, at, *self as u64, 1);
    }
}

impl FlatLayout for u16 {
    const SIZE: usize = 2;
    const ALIGN: usize = 2;

    open spec fn layout_valid() -> bool {
        true
    }

    open spec fn flat_bytes(&self) -> Seq<u8> {
        le_bytes(*self as u64, 2)
    }

    proof fn lemma_layout() {
        lemma_small_powers();
    }

    proof fn lemma_flat_bytes_len(&self) {
    }

    fn write_flat(&self, buf: &mut Vec<u8>, at: usize) {
        write_le(buf, at, *self as u64, 2);
    }
}

impl FlatLayout for u32 {
    const SIZE: usize = 4;
    const ALIGN: usize = 4;

    open spec fn layout_valid() -> bool {
        true
    }

    open spec fn flat_bytes(&self) -> Seq<u8> {
        le_bytes(*self as u64, 4)
    }

    proof fn lemma_layout() {
        lemma_small_powers();
    }

    proof fn lemma_flat_bytes_len(&self) {
    }

    fn write_flat(&self, buf: &mut Vec<u8>, at: usize) {
        write_le(buf, at, *self as u64, 4);
    }
}

impl FlatLayout for u64 {
    const SIZE: usize = 8;
    const ALIGN: usize = 8;

    open spec fn layout_valid() -> bool {
        true
    }

    open spec fn flat_bytes(&self) -> Seq<u8> {
        le_bytes(*self, 8)
    }

    proof fn lemma_layout() {
        lemma_small_powers();
    }

    proof fn lemma_flat_bytes_len(&self) {
    }

    fn write_flat(&self, buf: &mut Vec<u8>, at: usize) {
        write_le(buf, at, *self, 8);
    }
}

impl FlatLayout for i8 {
    const SIZE: usize = 1;
    const ALIGN: usize = 1;

    open spec fn layout_valid() -> bool {
        true
    }

    open spec fn flat_bytes(&self) -> Seq<u8> {
        le_bytes(*self as u8 as u64, 1)
    }

    proof fn lemma_layout() {
        lemma_small_powers();
    }

    proof fn lemma_flat_bytes_len(&self) {
    }

    fn write_flat(&self, buf: &mut Vec<u8>, at: usize) {
        write_le(buf, at, *self as u8 as u64, 1);
    }
}

impl FlatLayout for i16 {
    const SIZE: usize = 2;
    const ALIGN: usize = 2;

    open spec fn layout_valid() -> bool {
        true
    }

    open spec fn flat_bytes(&self) -> Seq<u8> {
        le_bytes(*self as u16 as u64, 2)
    }

    proof fn lemma_layout() {
        lemma_small_powers();
    }

    proof fn lemma_flat_bytes_len(&self) {
    }

    fn write_flat(&self, buf: &mut Vec<u8>, at: usize) {
        write_le(buf, at, *self as u16 as u64, 2);
    }
}

impl FlatLayout for i32 {
    const SIZE: usize = 4;
    const ALIGN: usize = 4;

    open spec fn layout_valid() -> bool {
        true
    }

    open spec fn flat_bytes(&self) -> Seq<u8> {
        le_bytes(*self as u32 as u64, 4)
    }

    proof fn lemma_layout() {
        lemma_small_powers();
    }

    proof fn lemma_flat_bytes_len(&self) {
    }

    fn write_flat(&self, buf: &mut Vec<u8>, at: usize) {
        write_le(buf, at, *self as u32 as u64, 4);
    }
}

impl FlatLayout for i64 {
    const SIZE: usize = 8;
    const ALIGN: usize = 8;

    open spec fn layout_valid() -> bool {
        true
    }

    open spec fn flat_bytes(&self) -> Seq<u8> {
        le_bytes(*self as u64, 8)
    }

    proof fn lemma_layout() {
        lemma_small_powers();
    }

    proof fn lemma_flat_bytes_len(&self) {
    }

    fn write_flat(&self, buf: &mut Vec<u8>, at: usize) {
        write_le(buf, at, *self as u64, 8);
    }
}

/// The sizes and alignments of the fixed-size integers.
pub proof fn lemma_primitive_layouts()
    ensures
        <u8 as FlatLayout>::SIZE == 1 && <u8 as FlatLayout>::ALIGN == 1,
        <u16 as FlatLayout>::SIZE == 2 && <u16 as FlatLayout>::ALIGN == 2,
        <u32 as FlatLayout>::SIZE == 4 && <u32 as FlatLayout>::ALIGN == 4,
        <u64 as FlatLayout>::SIZE == 8 && <u64 as FlatLayout>::ALIGN == 8,
        <i8 as FlatLayout>::SIZE == 1 && <i8 as FlatLayout>::ALIGN == 1,
        <i16 as FlatLayout>::SIZE == 2 && <i16 as FlatLayout>::ALIGN == 2,
        <i32 as FlatLayout>::SIZE == 4 && <i32 as FlatLayout>::ALIGN == 4,
        <i64 as FlatLayout>::SIZE == 8 && <i64 as FlatLayout>::ALIGN == 8,
{
}

/// An array is its element's size `N` times over, aligned as its element.
pub proof fn lemma_array_layout<T: FlatLayout, const N: usize>()
    ensures
        <[T; N] as FlatLayout>::SIZE == (T::SIZE * N) as usize,
        <[T; N] as FlatLayout>::ALIGN == T::ALIGN,
{
}

/// The in-memory bytes of a sequence of elements laid out back to back.
pub open spec fn concat_flat<T: FlatLayout>(s: Seq<T>) -> Seq<u8>
    decreases s.len(),
{
    if s.len() == 0 {
        Seq::empty()
    } else {
        concat_flat(s.drop_last()) + s.last().flat_bytes()
    }
}

proof fn lemma_concat_flat_len<T: FlatLayout>(s: Seq<T>)
    requires
        T::layout_valid(),
    ensures
        concat_flat(s).len() == s.len() * T::SIZE,
    decreases s.len(),
{
    if s.len() > 0 {
        lemma_concat_flat_len(s.drop_last());
        s.last().lemma_flat_bytes_len();
        assert((s.len() - 1) * T::SIZE + T::SIZE == s.len() * T::SIZE) by (nonlinear_arith);
    }
}

impl<T: FlatLayout, const N: usize> FlatLayout for [T; N] {
    const SIZE: usize = T::SIZE * N;
    const ALIGN: usize = T::ALIGN;

    open spec fn layout_valid() -> bool {
        T::layout_valid() && T::SIZE * N + T::ALIGN <= isize::MAX + 1
    }

    open spec fn flat_bytes(&self) -> Seq<u8> {
        concat_flat(self@)
    }

    proof fn lemma_layout() {
        T::lemma_layout();
    }

    proof fn lemma_flat_bytes_len(&self) {
        lemma_concat_flat_len(self@);
        assert(self@.len() * T::SIZE == T::SIZE * N) by (nonlinear_arith)
            requires self@.len() == N;
        assert(<[T; N] as FlatLayout>::SIZE == (T::SIZE * N) as usize);
    }

    fn write_flat(&self, buf: &mut Vec<u8>, at: usize) {
        let ghost orig = buf@;
        let blen = buf.len();
        let size = T::SIZE;
        let mut i: usize = 0;
        while i < N
            invariant
                T::layout_valid(),
                T::SIZE * N + T::ALIGN <= isize::MAX + 1,
                size == T::SIZE,
                orig.len() == blen,
                i <= N,
                self@.len() == N,
                at + T::SIZE * N <= orig.len(),
                buf@ == orig.take(at as int) + concat_flat(self@.take(i as int))
                    + orig.skip(at + i * T::SIZE),
            decreases N - i,
        {
            proof {
                assert(i * T::SIZE + T::SIZE <= T::SIZE * N) by (nonlinear_arith)
                    requires i < N;
                lemma_concat_flat_len(self@.take(i as int));
                self@[i as int].lemma_flat_bytes_len();
                assert(self@.take(i as int + 1).drop_last() =~= self@.take(i as int));
            }
            let ghost before = buf@;
            let off = at + i * size;
            self[i].write_flat(buf, off);
            proof {
                let p = concat_flat(self@.take(i as int));
                let e = self@[i as int].flat_bytes();
                assert(before.take(off as int) =~= orig.take(at as int) + p);
                assert(before.skip(off + T::SIZE) =~= orig.skip(at + (i + 1) * T::SIZE)) by {
                    assert((i + 1) * T::SIZE == i * T::SIZE + T::SIZE) by (nonlinear_arith);
                }
                assert(buf@ =~= orig.take(at as int) + concat_flat(self@.take(i as int + 1))
                    + orig.skip(at + (i + 1) * T::SIZE));
            }
            i = i + 1;
        }
        proof {
            assert(self@.take(N as int) =~= self@);
            assert(T::SIZE * N == N * T::SIZE) by (nonlinear_arith);
        }
    }
}

} // verus!
