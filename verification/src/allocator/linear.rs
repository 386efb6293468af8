//! A fixed-size linear (bump) allocator over one region of memory.

use vstd::prelude::*;
use crate::layout::{Layout, is_pow2};
use crate::allocator::buffer::HeapBuffer;

verus! {

/// Padding that brings `addr` up to the next multiple of `align`.
pub open spec fn align_pad(addr: nat, align: nat) -> nat {
    if align == 0 {
        0
    } else {
        (((align - addr % align) as int) % (align as int)) as nat
    }
}

/// The abstract state of a frame allocator: the region `[base, base + capacity)`
/// of which the first `cursor` bytes are handed out.
pub struct FrameView {
    pub base: nat,
    pub capacity: nat,
    pub cursor: nat,
}

/// The alignment of the start of a frame allocator's region.
pub const BLOCK_ALIGN: usize = 16;

/// A well-formed frame allocator state: a region that starts at a nonzero
/// multiple of 16 and lies within the address space, with the cursor inside.
pub open spec fn frame_wf(v: FrameView) -> bool {
    &&& v.base > 0
    &&& v.base % (BLOCK_ALIGN as nat) == 0
    &&& v.base + v.capacity <= usize::MAX
    &&& v.cursor <= v.capacity
}

/// One allocation of `size` bytes aligned to `align`: the state after it and
/// the address handed out, or `None` (state unchanged) when the padded request
/// does not fit in what is left of the region.
pub open spec fn frame_alloc_step(v: FrameView, size: nat, align: nat) -> (FrameView, Option<nat>) {
    let pad = align_pad(v.base + v.cursor, align);
    let need = v.cursor + pad + size;
    if need <= v.capacity {
        (FrameView { base: v.base, capacity: v.capacity, cursor: need }, Some(v.base + v.cursor + pad))
    } else {
        (v, None)
    }
}

/// A simple linear (bump) allocator for per-frame allocations.
///
/// It owns a fixed block of `capacity` bytes aligned to 16, the region
/// `[base, base + capacity)`, and allocates linearly by advancing a cursor.
/// It hands out addresses in that region. The block lies in a buffer of
/// `capacity + 15` bytes, from its first address that is a multiple of 16.
pub struct FrameAllocator {
    memory: HeapBuffer,
    base_addr: usize,
    capacity: usize,
    cursor: usize,
}

impl View for FrameAllocator {
    type V = FrameView;

    closed spec fn view(&self) -> FrameView {
        FrameView { base: self.base_addr as nat, capacity: self.capacity as nat, cursor: self.cursor as nat }
    }
}

/// Offset that aligns `addr` up to a multiple of `align`.
pub(crate) fn align_offset(addr: usize, align: usize) -> (r: usize)
    requires
        align >= 1,
    ensures
        r == align_pad(addr as nat, align as nat),
        r < align,
{
    let rem = addr % align;
    proof {
        lemma_pad_aligns(addr as nat, align as nat);
        if rem == 0 {
            vstd::arithmetic::div_mod::lemma_mod_self_0(align as int);
        } else {
            vstd::arithmetic::div_mod::lemma_small_mod((align - rem) as nat, align as nat);
        }
    }
    if rem == 0 {
        0
    } else {
        align - rem
    }
}

impl FrameAllocator {
    #[verifier::type_invariant]
    closed spec fn inv(self) -> bool {
        &&& frame_wf(self@)
        &&& self.memory.len() == self.capacity + (BLOCK_ALIGN - 1)
        &&& self.memory.start() <= self.base_addr
        &&& self.base_addr + self.capacity <= self.memory.start() + self.memory.len()
    }

    /// Creates a frame allocator with a zeroed block of `capacity` bytes,
    /// aligned to 16, and nothing allocated yet. `capacity`, rounded up to a
    /// multiple of 16, may not exceed `isize::MAX`.
    pub fn new(capacity: usize) -> (a: Self)
        requires
            capacity + 16 <= isize::MAX + 1,
        ensures
            a@.capacity == capacity,
            a@.cursor == 0,
            a@.base % 16 == 0,
            frame_wf(a@),
    {
        let bytes: Vec<u8> = vec![0u8; capacity + (BLOCK_ALIGN - 1)];
        let memory = HeapBuffer::claim(bytes, &Vec::new());
        let start = memory.start_address();
        let pad = align_offset(start, BLOCK_ALIGN);
        proof {
            lemma_pad_aligns(start as nat, BLOCK_ALIGN as nat);
        }
        let base_addr = start + pad;
        FrameAllocator { memory, base_addr, capacity, cursor: 0 }
    }

    /// The address of the first byte of the allocator's block.
    pub fn base_address(&self) -> (a: usize)
        ensures
            a == self@.base,
    {
        self.base_addr
    }

    /// Allocates memory with the given layout.
    ///
    /// Returns the address of the allocated block, or `None` if there is
    /// insufficient space left.
    pub fn allocate(&mut self, layout: &Layout) -> (res: Option<usize>)
        ensures
            frame_wf(final(self)@),
            ({
                let (v, r) = frame_alloc_step(old(self)@, layout.size_spec(), layout.align_spec());
                &&& final(self)@ == v
                &&& (res matches Some(a) ==> r == Some(a as nat))
                &&& (res is None ==> r is None)
            }),
    {
        proof {
            use_type_invariant(&*self);
        }
        let align = layout.align();
        let size = layout.size();
        let current = self.base_addr + self.cursor;
        let pad = align_offset(current, align);
        let with_pad = match self.cursor.checked_add(pad) {
            Some(c) => c,
            None => return None,
        };
        let new_cursor = match with_pad.checked_add(size) {
            Some(c) => c,
            None => return None,
        };
        if new_cursor <= self.capacity {
            let res = self.base_addr + self.cursor + pad;
            self.cursor = new_cursor;
            Some(res)
        } else {
            None
        }
    }

    /// Resets the allocator, reclaiming all memory.
    ///
    /// Every address handed out before becomes free for reuse, so the caller
    /// must hold no reference into the region any more.
    pub fn reset(&mut self)
        ensures
            final(self)@ == (FrameView { cursor: 0, ..old(self)@ }),
            frame_wf(final(self)@),
    {
        proof {
            use_type_invariant(&*self);
        }
        self.cursor = 0;
    }

    /// Returns the number of bytes currently allocated.
    pub fn used_bytes(&self) -> (n: usize)
        ensures
            n == self@.cursor,
            n <= self@.capacity,
    {
        proof {
            use_type_invariant(self);
        }
        self.cursor
    }

    /// Returns the total capacity in bytes.
    pub fn capacity(&self) -> (n: usize)
        ensures
            n == self@.capacity,
    {
        self.capacity
    }
}

/// Where an allocation lands: a successful allocation is aligned, starts at or
/// after the bytes already in use, and ends exactly at the new cursor inside
/// the region; the cursor never moves back; a failed one changes nothing.
pub proof fn lemma_alloc_placement(v: FrameView, size: nat, align: nat)
    requires
        frame_wf(v),
        is_pow2(align),
    ensures
        ({
            let (w, r) = frame_alloc_step(v, size, align);
            &&& frame_wf(w)
            &&& w.base == v.base && w.capacity == v.capacity
            &&& w.cursor >= v.cursor
            &&& (r matches Some(a) ==> {
                &&& a % align == 0
                &&& v.base + v.cursor <= a
                &&& a + size == w.base + w.cursor
                &&& a + size <= v.base + v.capacity
            })
            &&& (r is None ==> w == v)
        }),
{
    crate::layout::lemma_pow2_positive(align);
    lemma_pad_aligns(v.base + v.cursor, align);
}

/// Adding the padding to an address makes it a multiple of the alignment.
pub proof fn lemma_pad_aligns(addr: nat, align: nat)
    requires
        align >= 1,
    ensures
        ((addr + align_pad(addr, align)) as int) % (align as int) == 0,
        align_pad(addr, align) < align,
{
    let r = addr % align;
    vstd::arithmetic::div_mod::lemma_fundamental_div_mod(addr as int, align as int);
    if r == 0 {
        assert(align_pad(addr, align) == 0) by {
            vstd::arithmetic::div_mod::lemma_mod_self_0(align as int);
        }
    } else {
        assert(((align - r) as int) % (align as int) == align - r) by {
            vstd::arithmetic::div_mod::lemma_small_mod((align - r) as nat, align);
        }
        let q = addr / align;
        assert(addr + (align - r) == (q + 1) * align) by (nonlinear_arith)
            requires
                addr == align * q + r,
        ;
        vstd::arithmetic::div_mod::lemma_mod_multiples_basic((q + 1) as int, align as int);
    }
}

/// A multiple of 16 is a multiple of every power of two up to 16.
pub proof fn lemma_multiple_of_block_align(x: nat, align: nat)
    requires
        x % 16 == 0,
        is_pow2(align),
        align <= 16,
    ensures
        x % align == 0,
{
    reveal_with_fuel(is_pow2, 5);
    assert(align == 1 || align == 2 || align == 4 || align == 8 || align == 16);
    let k: nat = if align == 1 {
        16
    } else if align == 2 {
        8
    } else if align == 4 {
        4
    } else if align == 8 {
        2
    } else {
        1
    };
    assert(k * align == 16);
    let q: nat = x / 16;
    vstd::arithmetic::div_mod::lemma_fundamental_div_mod(x as int, 16);
    assert(x == align * (k * q)) by (nonlinear_arith)
        requires
            x == 16 * q,
            k * align == 16,
    ;
    vstd::arithmetic::div_mod::lemma_mod_multiples_basic((k * q) as int, align as int);
}

/// An address that is already a multiple of the alignment needs no padding.
pub proof fn lemma_aligned_needs_no_pad(addr: nat, align: nat)
    requires
        align >= 1,
        addr % align == 0,
    ensures
        align_pad(addr, align) == 0,
{
    vstd::arithmetic::div_mod::lemma_mod_self_0(align as int);
}

/// On a region aligned to 16, a request aligned to at most 16 needs no
/// padding where the cursor is already a multiple of its alignment; in
/// particular the first request after creation or reset starts at the base.
pub proof fn lemma_aligned_start_needs_no_pad(v: FrameView, align: nat)
    requires
        frame_wf(v),
        is_pow2(align),
        align <= 16,
        v.cursor % align == 0,
    ensures
        align_pad(v.base + v.cursor, align) == 0,
{
    lemma_multiple_of_block_align(v.base, align);
    crate::layout::lemma_pow2_positive(align);
    vstd::arithmetic::div_mod::lemma_add_mod_noop(v.base as int, v.cursor as int, align as int);
    vstd::arithmetic::div_mod::lemma_mod_self_0(align as int);
    vstd::arithmetic::div_mod::lemma_small_mod(0, align);
    lemma_aligned_needs_no_pad(v.base + v.cursor, align);
}

/// Two successive successful allocations do not overlap: the first block ends
/// at or before the second one begins.
pub proof fn lemma_successive_allocs_disjoint(v: FrameView, s1: nat, a1: nat, s2: nat, a2: nat)
    requires
        frame_wf(v),
        is_pow2(a1),
        is_pow2(a2),
        frame_alloc_step(v, s1, a1).1 is Some,
        frame_alloc_step(frame_alloc_step(v, s1, a1).0, s2, a2).1 is Some,
    ensures
        frame_alloc_step(v, s1, a1).1.unwrap() + s1 <= frame_alloc_step(
            frame_alloc_step(v, s1, a1).0,
            s2,
            a2,
        ).1.unwrap(),
{
    lemma_alloc_placement(v, s1, a1);
    lemma_alloc_placement(frame_alloc_step(v, s1, a1).0, s2, a2);
}

/// A reset reclaims all memory: afterwards the allocator behaves exactly as
/// a fresh one over the same region, and the whole capacity can be handed
/// out again in one block starting at the base.
pub proof fn lemma_reset_reclaims(v: FrameView, size: nat, align: nat)
    requires
        frame_wf(v),
    ensures
        frame_wf(FrameView { cursor: 0, ..v }),
        frame_alloc_step(FrameView { cursor: 0, ..v }, size, align) == frame_alloc_step(
            FrameView { base: v.base, capacity: v.capacity, cursor: 0 },
            size,
            align,
        ),
        frame_alloc_step(FrameView { cursor: 0, ..v }, v.capacity, 1).1 == Some(v.base),
{
    lemma_pad_aligns(v.base, 1);
}

} // verus!
