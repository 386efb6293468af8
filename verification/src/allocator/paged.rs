//! A frame allocator over a growing chain of equally sized pages.

use vstd::prelude::*;
use crate::layout::{Layout, is_pow2};
use crate::allocator::buffer::{HeapBuffer, ranges_disjoint};
use crate::allocator::linear::{
    align_pad, align_offset, lemma_pad_aligns, lemma_multiple_of_block_align, lemma_aligned_needs_no_pad,
    BLOCK_ALIGN,
};

verus! {

/// The smallest page size the allocator uses (64 KiB).
pub const MIN_PAGE_SIZE: usize = 65536;

/// The abstract state of a paged allocator: the start address of each page,
/// the page size, the page being filled and the offset reached in it.
pub struct PagedView {
    pub addrs: Seq<nat>,
    pub page_size: nat,
    pub current: nat,
    pub offset: nat,
}

/// A well-formed paged allocator state: at least one page, each starting at
/// a nonzero multiple of 16 and lying within the address space, no two pages
/// sharing an address; the current page is one of them and the offset
/// reached lies inside it; the total size of the pages fits in a `usize`.
pub open spec fn paged_wf(v: PagedView) -> bool {
    &&& forall|i: int, j: int|
        0 <= i < v.addrs.len() && 0 <= j < v.addrs.len() && i != j ==> ranges_disjoint(
            #[trigger] v.addrs[i],
            v.page_size,
            #[trigger] v.addrs[j],
            v.page_size,
        )
    &&& v.addrs.len() >= 1
    &&& v.current < v.addrs.len()
    &&& MIN_PAGE_SIZE <= v.page_size
    &&& v.page_size + 15 <= isize::MAX
    &&& v.offset <= v.page_size
    &&& v.addrs.len() * v.page_size <= usize::MAX
    &&& forall|i: int| 0 <= i < v.addrs.len() ==> page_ok(#[trigger] v.addrs[i], v.page_size)
}

/// A page starting at `addr` of `page_size` bytes: at a nonzero multiple of
/// 16, ending within the address space.
pub open spec fn page_ok(addr: nat, page_size: nat) -> bool {
    addr > 0 && addr % 16 == 0 && addr + page_size <= usize::MAX
}

/// The bytes of all pages together.
pub open spec fn total_bytes(v: PagedView) -> nat {
    v.addrs.len() * v.page_size
}

/// The offset in a page starting at `addr`, filled up to `offset`, at which a
/// block aligned to `align` starts: the first offset from `offset` on whose
/// address is a multiple of `align`.
pub open spec fn start_offset(addr: nat, offset: nat, align: nat) -> nat {
    offset + align_pad(addr + offset, align)
}

/// One allocation of `size` bytes aligned to `align` takes the allocator
/// from `v` to `w` and gives the block's address `res`.
///
/// - If the aligned block fits in the rest of the current page, it is placed
///   there.
/// - Otherwise a request larger than a page gets `None` and nothing changes.
/// - Otherwise the allocator moves to the next page and places the block at
///   that page's first address aligned to `align`. The next page is the
///   cached one when the block fits there; when it does not (possible only
///   for an alignment above 16) that page is replaced by a fresh one aligned
///   to `align`; when no page is cached, a fresh one is added. Every other
///   page stays as it was.
pub open spec fn paged_alloc_rel(v: PagedView, size: nat, align: nat, w: PagedView, res: Option<nat>) -> bool {
    let here = start_offset(v.addrs[v.current as int], v.offset, align);
    if here + size <= v.page_size {
        &&& w == PagedView { offset: here + size, ..v }
        &&& res == Some(v.addrs[v.current as int] + here)
    } else if size > v.page_size {
        &&& w == v
        &&& res is None
    } else {
        let next = v.current + 1;
        let there = start_offset(w.addrs[next as int], 0, align);
        &&& w.page_size == v.page_size
        &&& w.current == next
        &&& w.addrs.len() == (if next < v.addrs.len() { v.addrs.len() } else { v.addrs.len() + 1 })
        &&& forall|i: int| 0 <= i < v.addrs.len() && i != next ==> #[trigger] w.addrs[i] == v.addrs[i]
        &&& (next < v.addrs.len() && start_offset(v.addrs[next as int], 0, align) + size <= v.page_size
            ==> w.addrs[next as int] == v.addrs[next as int])
        &&& there + size <= v.page_size
        &&& w.offset == there + size
        &&& res == Some(w.addrs[next as int] + there)
    }
}

/// A frame allocator that uses a chain of pages to support unlimited growth.
///
/// Unlike `FrameAllocator`, which is fixed-size, `PagedFrameAllocator`
/// allocates new pages from the heap as needed. Pages are kept and reused
/// across frames, so once a steady state is reached no further page is
/// allocated. Each page starts at a multiple of 16 in a buffer of its own,
/// no two pages overlap, every block handed out is aligned as asked and lies
/// inside one page, and every request that is no larger than a page is
/// served.
pub struct PagedFrameAllocator {
    /// The pages' buffers. The pages up to `current_page_index` are in use
    /// for the current frame; the rest are kept for reuse.
    buffers: Vec<HeapBuffer>,
    /// The start address of each page, inside its buffer.
    page_addrs: Vec<usize>,
    /// Index of the page being written to.
    current_page_index: usize,
    /// Offset reached in the current page.
    offset: usize,
    /// Size of each page in bytes.
    page_size: usize,
}

impl View for PagedFrameAllocator {
    type V = PagedView;

    closed spec fn view(&self) -> PagedView {
        PagedView {
            addrs: self.page_addrs@.map_values(|a: usize| a as nat),
            page_size: self.page_size as nat,
            current: self.current_page_index as nat,
            offset: self.offset as nat,
        }
    }
}

/// The page of `page_size` bytes from `addr` lies inside buffer `b`.
pub open spec fn page_in_buffer(addr: nat, page_size: nat, b: HeapBuffer) -> bool {
    b.start() <= addr && addr + page_size <= b.start() + b.len()
}

/// Pages inside buffers that share no address share no address either.
proof fn lemma_pages_disjoint(a1: nat, b1: HeapBuffer, a2: nat, b2: HeapBuffer, ps: nat)
    requires
        page_in_buffer(a1, ps, b1),
        page_in_buffer(a2, ps, b2),
        ranges_disjoint(b1.start(), b1.len(), b2.start(), b2.len()),
    ensures
        ranges_disjoint(a1, ps, a2, ps),
{
}

/// Putting a page in a fresh buffer at position `k` of a list of pages (in
/// place of the page there, or at the end) keeps each page inside its own
/// buffer, the buffers apart and so the pages apart.
proof fn lemma_page_list_step(
    old_buffers: Seq<HeapBuffer>,
    old_addrs: Seq<usize>,
    buffers: Seq<HeapBuffer>,
    addrs: Seq<usize>,
    k: int,
    ps: nat,
    fresh: HeapBuffer,
    fresh_addr: usize,
)
    requires
        ps >= 1,
        old_buffers.len() == old_addrs.len(),
        forall|i: int| 0 <= i < old_buffers.len() ==> page_in_buffer(old_addrs[i] as nat, ps, #[trigger] old_buffers[i]),
        forall|i: int| 0 <= i < old_addrs.len() ==> page_ok(#[trigger] old_addrs[i] as nat, ps),
        forall|i: int, j: int|
            0 <= i < old_buffers.len() && 0 <= j < old_buffers.len() && i != j ==> ranges_disjoint(
                (#[trigger] old_buffers[i]).start(),
                old_buffers[i].len(),
                (#[trigger] old_buffers[j]).start(),
                old_buffers[j].len(),
            ),
        0 <= k <= old_buffers.len(),
        k < old_buffers.len() ==> buffers == old_buffers.update(k, fresh) && addrs == old_addrs.update(k, fresh_addr),
        k == old_buffers.len() ==> buffers == old_buffers.push(fresh) && addrs == old_addrs.push(fresh_addr),
        page_in_buffer(fresh_addr as nat, ps, fresh),
        page_ok(fresh_addr as nat, ps),
        forall|i: int|
            0 <= i < old_buffers.len() && (#[trigger] old_buffers[i]).len() > 0 ==> ranges_disjoint(
                fresh.start(),
                fresh.len(),
                old_buffers[i].start(),
                old_buffers[i].len(),
            ),
    ensures
        buffers.len() == addrs.len(),
        forall|i: int| 0 <= i < buffers.len() ==> page_in_buffer(addrs[i] as nat, ps, #[trigger] buffers[i]),
        forall|i: int| 0 <= i < addrs.len() ==> page_ok(#[trigger] addrs[i] as nat, ps),
        forall|i: int, j: int|
            0 <= i < buffers.len() && 0 <= j < buffers.len() && i != j ==> ranges_disjoint(
                (#[trigger] buffers[i]).start(),
                buffers[i].len(),
                (#[trigger] buffers[j]).start(),
                buffers[j].len(),
            ),
        forall|i: int, j: int|
            0 <= i < addrs.len() && 0 <= j < addrs.len() && i != j ==> ranges_disjoint(
                #[trigger] addrs[i] as nat,
                ps,
                #[trigger] addrs[j] as nat,
                ps,
            ),
{
    assert forall|i: int| 0 <= i < buffers.len() implies page_in_buffer(addrs[i] as nat, ps, #[trigger] buffers[i]) by {
        if i != k {
            assert(buffers[i] == old_buffers[i] && addrs[i] == old_addrs[i]);
        }
    }
    assert forall|i: int| 0 <= i < addrs.len() implies page_ok(#[trigger] addrs[i] as nat, ps) by {
        if i != k {
            assert(addrs[i] == old_addrs[i]);
        }
    }
    assert forall|i: int, j: int|
        0 <= i < buffers.len() && 0 <= j < buffers.len() && i != j implies ranges_disjoint(
            (#[trigger] buffers[i]).start(),
            buffers[i].len(),
            (#[trigger] buffers[j]).start(),
            buffers[j].len(),
        ) by {
        if i == k {
            assert(buffers[j] == old_buffers[j]);
            assert(page_in_buffer(old_addrs[j] as nat, ps, old_buffers[j]));
        } else if j == k {
            assert(buffers[i] == old_buffers[i]);
            assert(page_in_buffer(old_addrs[i] as nat, ps, old_buffers[i]));
        } else {
            assert(buffers[i] == old_buffers[i] && buffers[j] == old_buffers[j]);
        }
    }
    assert forall|i: int, j: int|
        0 <= i < addrs.len() && 0 <= j < addrs.len() && i != j implies ranges_disjoint(
            #[trigger] addrs[i] as nat,
            ps,
            #[trigger] addrs[j] as nat,
            ps,
        ) by {
        assert(page_in_buffer(addrs[i] as nat, ps, buffers[i]));
        assert(page_in_buffer(addrs[j] as nat, ps, buffers[j]));
        assert(ranges_disjoint(buffers[i].start(), buffers[i].len(), buffers[j].start(), buffers[j].len()));
        lemma_pages_disjoint(addrs[i] as nat, buffers[i], addrs[j] as nat, buffers[j], ps);
    }
}

/// A fresh zeroed page of `page_size` bytes starting at a multiple of
/// `align` (itself a multiple of 16), in a new buffer that shares no address
/// with the buffers in `live`.
fn new_page(page_size: usize, align: usize, live: &Vec<HeapBuffer>) -> (r: (HeapBuffer, usize))
    requires
        align >= 16,
        align % 16 == 0,
        page_size + align <= isize::MAX + 1,
    ensures
        page_ok(r.1 as nat, page_size as nat),
        r.1 % align == 0,
        page_in_buffer(r.1 as nat, page_size as nat, r.0),
        r.0.len() > 0,
        forall|i: int|
            0 <= i < live@.len() && (#[trigger] live@[i]).len() > 0 ==> ranges_disjoint(
                r.0.start(),
                r.0.len(),
                live@[i].start(),
                live@[i].len(),
            ),
{
    let bytes: Vec<u8> = vec![0u8; page_size + (align - 1)];
    let buffer = HeapBuffer::claim(bytes, live);
    let start = buffer.start_address();
    let pad = align_offset(start, align);
    proof {
        lemma_pad_aligns(start as nat, align as nat);
        let a = (start + pad) as nat;
        let q = a / align as nat;
        vstd::arithmetic::div_mod::lemma_fundamental_div_mod(a as int, align as int);
        let r = (align as nat) / 16;
        vstd::arithmetic::div_mod::lemma_fundamental_div_mod(align as int, 16);
        assert(a == 16 * (r * q)) by (nonlinear_arith)
            requires
                a == align * q,
                align == 16 * r,
        ;
        vstd::arithmetic::div_mod::lemma_mod_multiples_basic((r * q) as int, 16);
    }
    (buffer, start + pad)
}

/// The larger of 16 and `align`.
fn page_align(align: usize) -> (a: usize)
    requires
        is_pow2(align as nat),
    ensures
        a == (if align < 16 { 16 } else { align }),
        a % 16 == 0,
{
    if align < 16 {
        16
    } else {
        proof {
            lemma_pow2_at_least_16(align as nat);
        }
        align
    }
}

/// A power of two of at least 16 is a multiple of 16.
proof fn lemma_pow2_at_least_16(n: nat)
    requires
        is_pow2(n),
        n >= 16,
    ensures
        n % 16 == 0,
    decreases n,
{
    if n > 16 {
        if n / 2 < 16 {
            let h = n / 2;
            assert(h == 8) by {
                reveal_with_fuel(is_pow2, 4);
            }
        }
        lemma_pow2_at_least_16(n / 2);
        vstd::arithmetic::div_mod::lemma_fundamental_div_mod((n / 2) as int, 16);
        let q = n / 2 / 16;
        assert(n == 16 * (2 * q)) by (nonlinear_arith)
            requires
                n % 2 == 0,
                n / 2 == 16 * q,
        ;
        vstd::arithmetic::div_mod::lemma_mod_multiples_basic((2 * q) as int, 16);
    } else {
        reveal_with_fuel(is_pow2, 1);
    }
}

impl PagedFrameAllocator {
    #[verifier::type_invariant]
    closed spec fn inv(self) -> bool {
        &&& paged_wf(self@)
        &&& self.buffers@.len() == self.page_addrs@.len()
        &&& forall|i: int|
            0 <= i < self.buffers@.len() ==> page_in_buffer(
                self.page_addrs@[i] as nat,
                self.page_size as nat,
                #[trigger] self.buffers@[i],
            )
        &&& forall|i: int, j: int|
            0 <= i < self.buffers@.len() && 0 <= j < self.buffers@.len() && i != j ==> ranges_disjoint(
                (#[trigger] self.buffers@[i]).start(),
                self.buffers@[i].len(),
                (#[trigger] self.buffers@[j]).start(),
                self.buffers@[j].len(),
            )
    }

    /// Creates a new paged allocator with one page of `max(page_size, 64 KiB)`
    /// bytes, all zero.
    pub fn new(page_size: usize) -> (a: Self)
        requires
            page_size + 16 <= isize::MAX + 1,
        ensures
            paged_wf(a@),
            a@.page_size == (if page_size < MIN_PAGE_SIZE { MIN_PAGE_SIZE as nat } else { page_size as nat }),
            a@.addrs.len() == 1,
            a@.current == 0,
            a@.offset == 0,
    {
        let page_size = if page_size < MIN_PAGE_SIZE { MIN_PAGE_SIZE } else { page_size };
        let (first, addr) = new_page(page_size, BLOCK_ALIGN, &Vec::new());
        let mut buffers: Vec<HeapBuffer> = Vec::new();
        buffers.push(first);
        let mut page_addrs: Vec<usize> = Vec::new();
        page_addrs.push(addr);
        proof {
            let w = page_addrs@.map_values(|a: usize| a as nat);
            assert(w.len() == 1);
            assert(w[0] == addr);
            assert(1 * page_size == page_size);
        }
        PagedFrameAllocator { buffers, page_addrs, current_page_index: 0, offset: 0, page_size }
    }

    /// Allocates memory with the given layout.
    ///
    /// Returns the address of a block of `layout.size()` bytes that is a
    /// multiple of `layout.align()` and lies inside one of the allocator's
    /// pages, or `None` when the block is larger than a page. The block
    /// shares no address with any block handed out since the last reset
    /// (see `lemma_paged_alloc_fresh`).
    pub fn allocate(&mut self, layout: &Layout) -> (res: Option<usize>)
        requires
            (old(self)@.addrs.len() + 1) * old(self)@.page_size <= usize::MAX,
            old(self)@.page_size + layout.align_spec() <= isize::MAX + 1,
        ensures
            paged_wf(final(self)@),
            paged_alloc_rel(
                old(self)@,
                layout.size_spec(),
                layout.align_spec(),
                final(self)@,
                match res {
                    Some(a) => Some(a as nat),
                    None => None,
                },
            ),
            res is None <==> layout.size_spec() > old(self)@.page_size,
            res is None ==> final(self)@ == old(self)@,
            res matches Some(a) ==> {
                let page = final(self)@.addrs[final(self)@.current as int];
                &&& a as int % layout.align_spec() as int == 0
                &&& page <= a
                &&& a + layout.size_spec() == page + final(self)@.offset
                &&& a + layout.size_spec() <= page + final(self)@.page_size
            },
    {
        proof {
            use_type_invariant(&*self);
        }
        let align = layout.align();
        let size = layout.size();
        let ghost v = self@;
        let addr = self.page_addrs[self.current_page_index];
        proof {
            assert(page_ok(v.addrs[v.current as int], v.page_size));
            lemma_pad_aligns((addr + self.offset) as nat, align as nat);
        }
        let here = self.offset + align_offset(addr + self.offset, align);
        if here + size <= self.page_size {
            self.offset = here + size;
            proof {
                assert(self@.addrs =~= v.addrs);
            }
            return Some(addr + here);
        }
        if size > self.page_size {
            return None;
        }
        proof {
            let len = v.addrs.len();
            let ps = v.page_size;
            assert(len <= len * ps) by (nonlinear_arith)
                requires
                    ps >= 1,
            ;
        }
        let next = self.current_page_index + 1;
        let page_size = self.page_size;
        let cached_fits = if next < self.page_addrs.len() {
            let cached = self.page_addrs[next];
            proof {
                assert(page_ok(v.addrs[next as int], v.page_size));
            }
            align_offset(cached, align) + size <= page_size
        } else {
            false
        };
        if !cached_fits {
            let fresh_align = page_align(align);
            let (fresh, fresh_addr) = new_page(page_size, fresh_align, &self.buffers);
            // Take the pages out of the allocator, leaving a one-page stand-in,
            // to put the fresh page in.
            let mut parts = PagedFrameAllocator::new(page_size);
            std::mem::swap(self, &mut parts);
            proof {
                use_type_invariant(&parts);
            }
            let ghost pv = parts@;
            let PagedFrameAllocator { mut buffers, mut page_addrs, current_page_index, offset, page_size } = parts;
            let ghost old_buffers = buffers@;
            let ghost old_addrs = page_addrs@;
            if next < buffers.len() {
                buffers.set(next, fresh);
                page_addrs.set(next, fresh_addr);
            } else {
                buffers.push(fresh);
                page_addrs.push(fresh_addr);
            }
            proof {
                assert forall|i: int| 0 <= i < old_addrs.len() implies page_ok(#[trigger] old_addrs[i] as nat, page_size as nat) by {
                    assert(pv.addrs[i] == old_addrs[i] as nat);
                }
                lemma_page_list_step(
                    old_buffers,
                    old_addrs,
                    buffers@,
                    page_addrs@,
                    next as int,
                    page_size as nat,
                    fresh,
                    fresh_addr,
                );
                assert(page_addrs@.len() * page_size <= usize::MAX);
            }
            *self = PagedFrameAllocator { buffers, page_addrs, current_page_index, offset, page_size };
            proof {
                assert forall|i: int| 0 <= i < v.addrs.len() && i != next implies #[trigger] self@.addrs[i]
                    == v.addrs[i] by {
                    assert(self@.addrs[i] == old_addrs[i]);
                }
                crate::layout::lemma_pow2_positive(align as nat);
                if align <= 16 {
                    lemma_multiple_of_block_align(fresh_addr as nat, align as nat);
                } else {
                    assert(fresh_addr % align == 0);
                }
                lemma_aligned_needs_no_pad(fresh_addr as nat, align as nat);
            }
        }
        let ghost w = self@;
        let next_addr = self.page_addrs[next];
        proof {
            assert(w.addrs[next as int] == next_addr);
            assert(page_ok(w.addrs[next as int], w.page_size));
            lemma_pad_aligns(next_addr as nat, align as nat);
        }
        let there = align_offset(next_addr, align);
        self.current_page_index = next;
        self.offset = there + size;
        proof {
            assert(self@.addrs =~= w.addrs);
        }
        Some(next_addr + there)
    }

    /// The start address of page `index`.
    pub fn page_address(&self, index: usize) -> (a: usize)
        requires
            index < self@.addrs.len(),
        ensures
            a == self@.addrs[index as int],
            paged_wf(self@),
    {
        proof {
            use_type_invariant(self);
        }
        self.page_addrs[index]
    }

    /// Resets the allocator for a new frame.
    ///
    /// All pages stay allocated; only the position goes back to the start
    /// of the first page.
    pub fn reset(&mut self)
        ensures
            paged_wf(final(self)@),
            final(self)@ == (PagedView { current: 0, offset: 0, ..old(self)@ }),
    {
        proof {
            use_type_invariant(&*self);
        }
        self.current_page_index = 0;
        self.offset = 0;
    }

    /// The size of each page in bytes.
    pub fn page_size(&self) -> (n: usize)
        ensures
            n == self@.page_size,
            paged_wf(self@),
    {
        proof {
            use_type_invariant(self);
        }
        self.page_size
    }

    /// The number of pages allocated so far (at least one).
    pub fn page_count(&self) -> (n: usize)
        ensures
            n == self@.addrs.len(),
            n >= 1,
            paged_wf(self@),
    {
        proof {
            use_type_invariant(self);
        }
        self.page_addrs.len()
    }

    /// Returns the total bytes of all pages: a whole number, at least one,
    /// of pages.
    pub fn total_capacity(&self) -> (n: usize)
        ensures
            n == total_bytes(self@),
            n == self@.addrs.len() * self@.page_size,
            self@.addrs.len() >= 1,
            paged_wf(self@),
    {
        proof {
            use_type_invariant(self);
        }
        self.page_addrs.len() * self.page_size
    }
}

} // verus!

verus! {

/// Pages are never given back: an allocation keeps the page size and the
/// number of pages or adds exactly one, and only when the allocator moves
/// past the last cached page; every page other than the next one stays as it
/// was; so the total capacity never shrinks.
pub proof fn lemma_paged_alloc_keeps_pages(v: PagedView, size: nat, align: nat, w: PagedView, res: Option<nat>)
    requires
        paged_wf(v),
        paged_alloc_rel(v, size, align, w, res),
    ensures
        w.page_size == v.page_size,
        v.addrs.len() <= w.addrs.len() <= v.addrs.len() + 1,
        forall|i: int| 0 <= i < v.addrs.len() && i != v.current + 1 ==> #[trigger] w.addrs[i] == v.addrs[i],
        total_bytes(v) <= total_bytes(w),
        w.addrs.len() == v.addrs.len() + 1 ==> v.current + 1 == v.addrs.len(),
{
    if w.addrs.len() == v.addrs.len() + 1 {
        assert(total_bytes(w) == total_bytes(v) + v.page_size) by (nonlinear_arith)
            requires
                w.addrs.len() == v.addrs.len() + 1,
                w.page_size == v.page_size,
        ;
    }
}

/// Where a successful paged allocation lands: at an address that is a
/// multiple of the alignment, in the current page after the bytes already
/// used there or in the next page, with the whole block inside that page;
/// the position moves to the end of the block.
pub proof fn lemma_paged_alloc_placement(v: PagedView, size: nat, align: nat, w: PagedView, res: Option<nat>)
    requires
        paged_wf(v),
        is_pow2(align),
        paged_alloc_rel(v, size, align, w, res),
        res is Some,
    ensures
        ({
            let a = res->0;
            let page = w.addrs[w.current as int];
            &&& w.current == v.current || w.current == v.current + 1
            &&& w.current < w.addrs.len()
            &&& (a as int) % (align as int) == 0
            &&& page <= a
            &&& a + size <= page + w.page_size
            &&& w.offset == a + size - page
            &&& (w.current == v.current ==> v.addrs[v.current as int] + v.offset <= a)
        }),
{
    crate::layout::lemma_pow2_positive(align);
    let here = start_offset(v.addrs[v.current as int], v.offset, align);
    lemma_pad_aligns(v.addrs[v.current as int] + v.offset, align);
    if !(here + size <= v.page_size) {
        let next = v.current + 1;
        lemma_pad_aligns(w.addrs[next as int] + 0, align);
    }
}

/// A reset goes back to the first page without giving any page back, so the
/// next frame reuses the pages of the last one; the next request that fits
/// a page with an alignment of at most 16 starts at the first page's start.
pub proof fn lemma_paged_reset_keeps_pages(v: PagedView, size: nat, align: nat)
    requires
        paged_wf(v),
        is_pow2(align),
        align <= 16,
        size <= v.page_size,
    ensures
        paged_wf(PagedView { current: 0, offset: 0, ..v }),
        total_bytes(PagedView { current: 0, offset: 0, ..v }) == total_bytes(v),
        start_offset(v.addrs[0], 0, align) == 0,
        paged_alloc_rel(
            PagedView { current: 0, offset: 0, ..v },
            size,
            align,
            PagedView { current: 0, offset: size, ..v },
            Some(v.addrs[0]),
        ),
{
    assert(page_ok(v.addrs[0], v.page_size));
    lemma_multiple_of_block_align(v.addrs[0], align);
    crate::layout::lemma_pow2_positive(align);
    lemma_aligned_needs_no_pad(v.addrs[0] + 0, align);
}

/// One call on a paged allocator: an allocation of some size and alignment,
/// or a reset.
#[verifier::opaque]
pub open spec fn paged_step(v: PagedView, w: PagedView) -> bool {
    ||| exists|size: nat, align: nat, res: Option<nat>| #[trigger] paged_alloc_rel(v, size, align, w, res)
    ||| w == (PagedView { current: 0, offset: 0, ..v })
}

/// An allocation is one call.
pub proof fn lemma_alloc_is_step(v: PagedView, size: nat, align: nat, w: PagedView, res: Option<nat>)
    requires
        paged_alloc_rel(v, size, align, w, res),
    ensures
        paged_step(v, w),
{
    reveal(paged_step);
}

/// A reset is one call.
pub proof fn lemma_reset_is_step(v: PagedView)
    ensures
        paged_step(v, PagedView { current: 0, offset: 0, ..v }),
{
    reveal(paged_step);
}

/// One call keeps the page size and does not lower the total capacity.
proof fn lemma_step_keeps_capacity(v: PagedView, w: PagedView)
    requires
        paged_wf(v),
        paged_step(v, w),
    ensures
        w.page_size == v.page_size,
        total_bytes(v) <= total_bytes(w),
{
    reveal(paged_step);
    if exists|size: nat, align: nat, res: Option<nat>| #[trigger] paged_alloc_rel(v, size, align, w, res) {
        let (size, align, res) = choose|size: nat, align: nat, res: Option<nat>| #[trigger] paged_alloc_rel(
            v,
            size,
            align,
            w,
            res,
        );
        lemma_paged_alloc_keeps_pages(v, size, align, w, res);
    }
}

/// A well-formed state holds a whole number, at least one, of pages.
proof fn lemma_whole_pages(x: PagedView)
    requires
        paged_wf(x),
    ensures
        total_bytes(x) % x.page_size == 0,
        total_bytes(x) >= x.page_size,
{
    let ps = x.page_size;
    vstd::arithmetic::div_mod::lemma_mod_multiples_basic(x.addrs.len() as int, ps as int);
    assert(x.addrs.len() * ps >= ps) by (nonlinear_arith)
        requires
            x.addrs.len() >= 1,
    ;
}

/// Whatever the calls, the page size stays the one fixed at creation, the
/// total capacity is always a whole number of pages, at least one, and it
/// never shrinks from one call to a later one (a reset frees no page).
pub proof fn lemma_capacity_along_calls(run: Seq<PagedView>)
    requires
        run.len() >= 1,
        forall|i: int| 0 <= i < run.len() ==> paged_wf(#[trigger] run[i]),
        forall|i: int| 0 <= i < run.len() - 1 ==> paged_step(#[trigger] run[i], run[i + 1]),
    ensures
        forall|i: int| 0 <= i < run.len() ==> (#[trigger] run[i]).page_size == run[0].page_size,
        forall|i: int| 0 <= i < run.len() ==> total_bytes(#[trigger] run[i]) % run[0].page_size == 0
            && total_bytes(run[i]) >= run[0].page_size,
        forall|i: int, j: int| 0 <= i <= j < run.len() ==> total_bytes(#[trigger] run[i]) <= total_bytes(
            #[trigger] run[j],
        ),
    decreases run.len(),
{
    if run.len() > 1 {
        let k = run.len() - 1;
        let prefix = run.take(k);
        assert forall|i: int| 0 <= i < prefix.len() - 1 implies paged_step(#[trigger] prefix[i], prefix[i + 1]) by {
            assert(paged_step(run[i], run[i + 1]));
        }
        assert forall|i: int| 0 <= i < prefix.len() implies paged_wf(#[trigger] prefix[i]) by {
            assert(paged_wf(run[i]));
        }
        lemma_capacity_along_calls(prefix);
        assert(paged_wf(run[k - 1]));
        assert(paged_step(run[k - 1], run[k]));
        lemma_step_keeps_capacity(run[k - 1], run[k]);
        assert(prefix[k - 1] == run[k - 1]);
        assert(prefix[0] == run[0]);
        assert forall|i: int, j: int| 0 <= i <= j < run.len() implies total_bytes(#[trigger] run[i])
            <= total_bytes(#[trigger] run[j]) by {
            if j < k {
                assert(prefix[i] == run[i]);
                assert(prefix[j] == run[j]);
            } else if i < k {
                assert(prefix[i] == run[i]);
                assert(total_bytes(prefix[i]) <= total_bytes(prefix[k - 1]));
            }
        }
        assert forall|i: int| 0 <= i < run.len() implies (#[trigger] run[i]).page_size == run[0].page_size by {
            if i < k {
                assert(prefix[i] == run[i]);
            }
        }
    }
    assert forall|i: int| 0 <= i < run.len() implies total_bytes(#[trigger] run[i]) % run[0].page_size == 0
        && total_bytes(run[i]) >= run[0].page_size by {
        assert(paged_wf(run[i]));
        lemma_whole_pages(run[i]);
    }
}

/// Address `x` lies in `[start, start + len)`.
pub open spec fn in_range(start: nat, len: nat, x: nat) -> bool {
    start <= x < start + len
}

/// Address `x` lies in memory handed out since the last reset: in a page
/// before the current one, or in the current page before the offset reached.
pub open spec fn in_use(v: PagedView, x: nat) -> bool {
    ||| exists|i: int| 0 <= i < v.current && #[trigger] v.addrs[i] <= x && x < v.addrs[i] + v.page_size
    ||| v.addrs[v.current as int] <= x && x < v.addrs[v.current as int] + v.offset
}

/// A block handed out is fresh: none of its addresses was in use before the
/// call, all of them are in use after it, and what was in use stays in use.
pub proof fn lemma_paged_alloc_fresh(v: PagedView, size: nat, align: nat, w: PagedView, res: Option<nat>)
    requires
        paged_wf(v),
        paged_wf(w),
        paged_alloc_rel(v, size, align, w, res),
        res is Some,
    ensures
        forall|x: nat|
            #![trigger in_use(v, x)]
            #![trigger in_use(w, x)]
            res->0 <= x < res->0 + size ==> !in_use(v, x) && in_use(w, x),
        forall|x: nat| #[trigger] in_use(v, x) ==> in_use(w, x),
{
    let cur = v.current as int;
    let ps = v.page_size;
    let a = res->0;
    let here = start_offset(v.addrs[cur], v.offset, align);
    if here + size <= ps {
        assert forall|x: nat| a <= x < a + size implies !in_use(v, x) && in_use(w, x) by {
            if exists|i: int| 0 <= i < v.current && #[trigger] v.addrs[i] <= x && x < v.addrs[i] + ps {
                let i = choose|i: int| 0 <= i < v.current && #[trigger] v.addrs[i] <= x && x < v.addrs[i] + ps;
                assert(ranges_disjoint(v.addrs[i], ps, v.addrs[cur], ps));
            }
        }
        assert forall|x: nat| #[trigger] in_use(v, x) implies in_use(w, x) by {
            if exists|i: int| 0 <= i < v.current && #[trigger] v.addrs[i] <= x && x < v.addrs[i] + ps {
                let i = choose|i: int| 0 <= i < v.current && #[trigger] v.addrs[i] <= x && x < v.addrs[i] + ps;
                assert(w.addrs[i] <= x && x < w.addrs[i] + w.page_size);
            }
        }
    } else {
        let next = cur + 1;
        let b = w.addrs[next];
        assert(w.addrs[cur] == v.addrs[cur]);
        assert forall|x: nat| a <= x < a + size implies !in_use(v, x) && in_use(w, x) by {
            if exists|i: int| 0 <= i < v.current && #[trigger] v.addrs[i] <= x && x < v.addrs[i] + ps {
                let i = choose|i: int| 0 <= i < v.current && #[trigger] v.addrs[i] <= x && x < v.addrs[i] + ps;
                assert(w.addrs[i] == v.addrs[i]);
                assert(ranges_disjoint(w.addrs[i], ps, w.addrs[next], ps));
            }
            if v.addrs[cur] <= x && x < v.addrs[cur] + v.offset {
                assert(ranges_disjoint(w.addrs[cur], ps, w.addrs[next], ps));
            }
        }
        assert forall|x: nat| #[trigger] in_use(v, x) implies in_use(w, x) by {
            if exists|i: int| 0 <= i < v.current && #[trigger] v.addrs[i] <= x && x < v.addrs[i] + ps {
                let i = choose|i: int| 0 <= i < v.current && #[trigger] v.addrs[i] <= x && x < v.addrs[i] + ps;
                assert(w.addrs[i] == v.addrs[i]);
                assert(w.addrs[i] <= x && x < w.addrs[i] + w.page_size);
            } else {
                assert(w.addrs[cur] <= x && x < w.addrs[cur] + w.page_size);
            }
        }
    }
}

/// After a reset nothing is in use any more.
pub proof fn lemma_paged_reset_frees_all(v: PagedView, x: nat)
    ensures
        !in_use(PagedView { current: 0, offset: 0, ..v }, x),
{
}

/// Two blocks handed out one after the other share no address.
pub proof fn lemma_paged_successive_allocs_disjoint(
    v: PagedView,
    s1: nat,
    a1: nat,
    w: PagedView,
    r1: Option<nat>,
    s2: nat,
    a2: nat,
    u: PagedView,
    r2: Option<nat>,
)
    requires
        paged_wf(v),
        paged_wf(w),
        paged_wf(u),
        paged_alloc_rel(v, s1, a1, w, r1),
        paged_alloc_rel(w, s2, a2, u, r2),
        r1 is Some,
        r2 is Some,
    ensures
        forall|x: nat| !(#[trigger] in_range(r1->0, s1, x) && #[trigger] in_range(r2->0, s2, x)),
{
    lemma_paged_alloc_fresh(v, s1, a1, w, r1);
    lemma_paged_alloc_fresh(w, s2, a2, u, r2);
    assert forall|x: nat| !(#[trigger] in_range(r1->0, s1, x) && #[trigger] in_range(r2->0, s2, x)) by {
        if r1->0 <= x < r1->0 + s1 {
            assert(in_use(w, x));
        }
    }
}

/// Along a run of allocations, what is in use at one point stays in use.
proof fn lemma_in_use_grows(
    run: Seq<PagedView>,
    sizes: Seq<nat>,
    aligns: Seq<nat>,
    results: Seq<Option<nat>>,
    i: int,
    j: int,
    x: nat,
)
    requires
        run.len() == sizes.len() + 1,
        aligns.len() == sizes.len(),
        results.len() == sizes.len(),
        forall|k: int| 0 <= k < run.len() ==> paged_wf(#[trigger] run[k]),
        forall|k: int|
            0 <= k < sizes.len() ==> paged_alloc_rel(#[trigger] run[k], sizes[k], aligns[k], run[k + 1], results[k]),
        0 <= i <= j < run.len(),
        in_use(run[i], x),
    ensures
        in_use(run[j], x),
    decreases j - i,
{
    if i < j {
        assert(paged_alloc_rel(run[i], sizes[i], aligns[i], run[i + 1], results[i]));
        assert(paged_wf(run[i]) && paged_wf(run[i + 1]));
        if results[i] is Some {
            lemma_paged_alloc_fresh(run[i], sizes[i], aligns[i], run[i + 1], results[i]);
        } else {
            let here = start_offset(run[i].addrs[run[i].current as int], run[i].offset, aligns[i]);
            assert(!(here + sizes[i] <= run[i].page_size));
            assert(run[i + 1] == run[i]);
        }
        assert(in_use(run[i + 1], x));
        lemma_in_use_grows(run, sizes, aligns, results, i + 1, j, x);
    }
}

/// Within one frame (a run of allocations with no reset in between), no two
/// blocks handed out share an address.
pub proof fn lemma_frame_blocks_disjoint(
    run: Seq<PagedView>,
    sizes: Seq<nat>,
    aligns: Seq<nat>,
    results: Seq<Option<nat>>,
)
    requires
        run.len() == sizes.len() + 1,
        aligns.len() == sizes.len(),
        results.len() == sizes.len(),
        forall|k: int| 0 <= k < run.len() ==> paged_wf(#[trigger] run[k]),
        forall|k: int|
            0 <= k < sizes.len() ==> paged_alloc_rel(#[trigger] run[k], sizes[k], aligns[k], run[k + 1], results[k]),
    ensures
        forall|k1: int, k2: int, x: nat|
            0 <= k1 < k2 < sizes.len() && results[k1] is Some && results[k2] is Some ==> !(#[trigger] in_range(
                results[k1]->0,
                sizes[k1],
                x,
            ) && #[trigger] in_range(results[k2]->0, sizes[k2], x)),
{
    assert forall|k1: int, k2: int, x: nat|
        0 <= k1 < k2 < sizes.len() && results[k1] is Some && results[k2] is Some implies !(#[trigger] in_range(
            results[k1]->0,
            sizes[k1],
            x,
        ) && #[trigger] in_range(results[k2]->0, sizes[k2], x)) by {
        if in_range(results[k1]->0, sizes[k1], x) {
            assert(paged_alloc_rel(run[k1], sizes[k1], aligns[k1], run[k1 + 1], results[k1]));
            assert(paged_wf(run[k1]) && paged_wf(run[k1 + 1]));
            lemma_paged_alloc_fresh(run[k1], sizes[k1], aligns[k1], run[k1 + 1], results[k1]);
            assert(in_use(run[k1 + 1], x));
            lemma_in_use_grows(run, sizes, aligns, results, k1 + 1, k2, x);
            assert(paged_alloc_rel(run[k2], sizes[k2], aligns[k2], run[k2 + 1], results[k2]));
            assert(paged_wf(run[k2]) && paged_wf(run[k2 + 1]));
            lemma_paged_alloc_fresh(run[k2], sizes[k2], aligns[k2], run[k2 + 1], results[k2]);
        }
    }
}

} // verus!
