use vstd::prelude::*;
use vstd::arithmetic::power2::{pow2, lemma_pow2_pos};
use vstd::bits::{low_bits_mask, lemma_usize_low_bits_mask_is_mod};

verus! {

/// The kernel heap: where it starts and how large it is.
pub const HEAP_START: usize = 0x200000;
pub const HEAP_SIZE: usize = 0x400000;

/// A bump allocator: hands out the heap from `next` up to `end`, and never
/// takes memory back.
pub struct BumpAllocator {
    pub next: usize,
    pub end: usize,
}

/// `align` is a power of two that a `usize` holds.
pub open spec fn is_align(align: usize) -> bool {
    exists|k: nat| k < usize::BITS && pow2(k) == align
}

/// `addr` rounded up to a multiple of `align`.
pub open spec fn align_up(addr: int, align: int) -> int {
    ((addr + align - 1) / align) * align
}

/// Rounding through the mask: clearing the low bits of `x` leaves the
/// largest multiple of the power of two `align` that is at most `x`.
proof fn lemma_mask_rounds_down(x: usize, align: usize)
    requires
        is_align(align),
    ensures
        x & !((align - 1) as usize) == (x / align) * align,
{
    let k = choose|k: nat| k < usize::BITS && pow2(k) == align;
    lemma_pow2_pos(k);
    let m = (align - 1) as usize;
    assert(low_bits_mask(k) == m);
    lemma_usize_low_bits_mask_is_mod(x, k);
    assert(x & m == x % align);
    assert(x & !m == (x - (x & m)) as usize) by (bit_vector);
    assert(x == (x / align) * align + x % align) by {
        vstd::arithmetic::div_mod::lemma_fundamental_div_mod(x as int, align as int);
    }
}

/// Rounding up never goes below the address.
pub proof fn lemma_align_up_at_least(addr: int, align: int)
    requires
        addr >= 0,
        align > 0,
    ensures
        align_up(addr, align) >= addr,
        align_up(addr, align) < addr + align,
{
    let q = (addr + align - 1) / align;
    let r = (addr + align - 1) % align;
    vstd::arithmetic::div_mod::lemma_fundamental_div_mod(addr + align - 1, align);
    assert(q * align == (addr + align - 1) - r) by (nonlinear_arith)
        requires
            addr + align - 1 == align * q + r,
    ;
}

/// Blocks handed out one after the other never overlap: the next block
/// starts at or after the end of the previous one, whatever the sizes and
/// alignments asked for.
pub proof fn lemma_blocks_disjoint(next: int, size1: int, align1: int, align2: int)
    requires
        next >= 0,
        size1 >= 0,
        align1 > 0,
        align2 > 0,
    ensures
        align_up(next, align1) >= next,
        align_up(align_up(next, align1) + size1, align2) >= align_up(next, align1) + size1,
{
    lemma_align_up_at_least(next, align1);
    lemma_align_up_at_least(align_up(next, align1) + size1, align2);
}

impl BumpAllocator {
    /// An allocator over the whole kernel heap.
    pub fn new() -> (a: Self)
        ensures
            a.next == HEAP_START,
            a.end == HEAP_START + HEAP_SIZE,
    {
        BumpAllocator { next: HEAP_START, end: HEAP_START + HEAP_SIZE }
    }

    /// Allocates `size` bytes aligned to `align`: the address is `next`
    /// rounded up to the alignment, and `next` moves past the block. When
    /// the block would pass the end of the heap, gives 0 (the null address)
    /// and allocates nothing.
    pub fn allocate(&mut self, size: usize, align: usize) -> (addr: usize)
        requires
            is_align(align),
            old(self).next + align <= usize::MAX,
            align_up(old(self).next as int, align as int) + size <= usize::MAX,
        ensures
            ({
                let start = align_up(old(self).next as int, align as int);
                if start + size > old(self).end {
                    addr == 0 && *final(self) == *old(self)
                } else {
                    addr == start && final(self).next == start + size && final(self).end == old(self).end
                }
            }),
    {
        proof {
            let k = choose|k: nat| k < usize::BITS && pow2(k) == align;
            lemma_pow2_pos(k);
        }
        let x = self.next + align - 1;
        let start = x & !(align - 1);
        proof {
            lemma_mask_rounds_down(x, align);
        }
        let end = start + size;
        if end > self.end {
            return 0;
        }
        self.next = end;
        start
    }
}

/// Nothing to set up: the heap is ready as soon as the allocator exists.
pub fn init() {
}

} // verus!
