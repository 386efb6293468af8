use rustfiber::allocator::linear::FrameAllocator;
use rustfiber::allocator::paged::PagedFrameAllocator;
use rustfiber::layout::{is_power_of_two, Layout};

fn layout(size: usize, align: usize) -> Layout {
    Layout::from_size_align(size, align).unwrap()
}

#[test]
fn layout_rejects_bad_alignment_and_huge_sizes() {
    assert!(Layout::from_size_align(8, 0).is_none());
    assert!(Layout::from_size_align(8, 3).is_none());
    assert!(Layout::from_size_align(8, 12).is_none());
    assert!(Layout::from_size_align(isize::MAX as usize, 1).is_some());
    assert!(Layout::from_size_align(isize::MAX as usize, 2).is_none());
    assert!(Layout::from_size_align(isize::MAX as usize - 7, 8).is_some());
    let l = layout(24, 8);
    assert_eq!(l.size(), 24);
    assert_eq!(l.align(), 8);
}

#[test]
fn power_of_two_detection() {
    assert!(!is_power_of_two(0));
    assert!(is_power_of_two(1));
    assert!(is_power_of_two(64));
    assert!(!is_power_of_two(96));
    assert!(is_power_of_two(1 << 63));
}

fn round_up(x: usize, a: usize) -> usize {
    (x + a - 1) / a * a
}

#[test]
fn frame_allocator_bumps_and_aligns() {
    let mut a = FrameAllocator::new(64);
    let base = a.base_address();
    assert!(base != 0);
    assert_eq!(a.capacity(), 64);
    assert_eq!(a.used_bytes(), 0);
    assert_eq!(a.allocate(&layout(3, 1)), Some(base));
    assert_eq!(a.used_bytes(), 3);
    // The next block is aligned to 8 in absolute terms.
    let expected = round_up(base + 3, 8);
    assert_eq!(a.allocate(&layout(8, 8)), Some(expected));
    assert_eq!(expected % 8, 0);
    assert_eq!(a.used_bytes(), expected - base + 8);
}

#[test]
fn frame_allocator_refuses_when_full_and_keeps_state() {
    let mut a = FrameAllocator::new(16);
    let base = a.base_address();
    assert_eq!(a.allocate(&layout(10, 1)), Some(base));
    assert_eq!(a.allocate(&layout(8, 1)), None);
    assert_eq!(a.used_bytes(), 10);
    // Exactly the remainder still fits.
    assert_eq!(a.allocate(&layout(6, 1)), Some(base + 10));
    assert_eq!(a.used_bytes(), 16);
    assert_eq!(a.allocate(&layout(0, 1)), Some(base + 16));
    assert_eq!(a.allocate(&layout(1, 1)), None);
}

#[test]
fn frame_allocator_padding_counts_against_capacity() {
    let mut a = FrameAllocator::new(8);
    let base = a.base_address();
    assert_eq!(a.allocate(&layout(1, 1)), Some(base));
    // The padding up to the next multiple of 8 plus 8 bytes never fits in
    // the 7 bytes left.
    assert_eq!(a.allocate(&layout(8, 8)), None);
    assert_eq!(a.used_bytes(), 1);
    let pad = round_up(base + 1, 4) - (base + 1);
    if pad + 2 <= 7 {
        assert_eq!(a.allocate(&layout(2, 4)), Some(base + 1 + pad));
    }
}

#[test]
fn frame_allocator_successive_blocks_are_disjoint() {
    let mut a = FrameAllocator::new(256);
    let mut last_end = a.base_address();
    for (size, align) in [(3, 1), (8, 8), (5, 2), (16, 16), (1, 4)] {
        let p = a.allocate(&layout(size, align)).unwrap();
        assert_eq!(p % align, 0);
        assert!(p >= last_end);
        last_end = p + size;
        assert!(last_end <= a.base_address() + 256);
    }
}

#[test]
fn frame_allocator_reset_reclaims_everything() {
    let mut a = FrameAllocator::new(32);
    let first = a.allocate(&layout(20, 4));
    assert_eq!(a.allocate(&layout(20, 4)), None);
    a.reset();
    assert_eq!(a.used_bytes(), 0);
    assert_eq!(a.capacity(), 32);
    assert_eq!(a.allocate(&layout(20, 4)), first);
}

#[test]
fn paged_allocator_minimum_page_size() {
    let a = PagedFrameAllocator::new(1024);
    assert_eq!(a.total_capacity(), 64 * 1024);
    let b = PagedFrameAllocator::new(128 * 1024);
    assert_eq!(b.total_capacity(), 128 * 1024);
}

#[test]
fn frame_allocator_block_is_aligned_to_16() {
    let mut a = FrameAllocator::new(64);
    assert_eq!(a.base_address() % 16, 0);
    let p = a.allocate(&layout(16, 8)).unwrap();
    assert_eq!(p % 8, 0);
    assert_eq!(p, a.base_address());
    assert_eq!(a.used_bytes(), 16);
    assert_eq!(a.allocate(&layout(64, 1)), None);
    assert_eq!(a.used_bytes(), 16);
    let empty = FrameAllocator::new(0);
    assert_eq!(empty.base_address() % 16, 0);
    assert_eq!(empty.capacity(), 0);
}

#[test]
fn paged_allocator_fills_pages_in_order() {
    let mut a = PagedFrameAllocator::new(64 * 1024);
    let p0 = a.page_address(0);
    assert_eq!(p0 % 16, 0);
    assert_eq!(a.allocate(&layout(100, 1)), Some(p0));
    // The address is aligned: page 0 starts at a multiple of 16, so 100 -> 104.
    assert_eq!(a.allocate(&layout(8, 8)), Some(p0 + 104));
    // Does not fit in the rest of page 0: a second page is created.
    let big = 64 * 1024 - 50;
    let r = a.allocate(&layout(big, 1)).unwrap();
    assert_eq!(r, a.page_address(1));
    assert_eq!(a.total_capacity(), 2 * 64 * 1024);
}

#[test]
fn paged_allocator_rejects_requests_larger_than_a_page() {
    let mut a = PagedFrameAllocator::new(64 * 1024);
    let p0 = a.page_address(0);
    assert_eq!(a.allocate(&layout(64 * 1024 + 1, 1)), None);
    assert_eq!(a.total_capacity(), 64 * 1024);
    assert_eq!(a.allocate(&layout(64 * 1024, 1)), Some(p0));
    // A whole page aligned to 16 always fits a fresh page.
    let p = a.allocate(&layout(64 * 1024, 16)).unwrap();
    assert_eq!(p, a.page_address(1));
}

#[test]
fn paged_allocator_blocks_are_aligned_and_inside_one_page() {
    let page = 64 * 1024;
    let mut a = PagedFrameAllocator::new(page);
    for (size, align) in [(3, 1), (100, 64), (4000, 4096), (page - 8, 4096), (7, 2), (page, 8), (page, 8192)] {
        // Every request no larger than a page is served.
        let p = a.allocate(&layout(size, align)).unwrap();
        assert_eq!(p % align, 0);
        let inside = (0..a.page_count())
            .any(|i| a.page_address(i) <= p && p + size <= a.page_address(i) + page);
        assert!(inside);
    }
}

#[test]
fn paged_allocator_realigns_a_cached_page_without_growing() {
    let page = 64 * 1024;
    let mut a = PagedFrameAllocator::new(page);
    a.allocate(&layout(page, 1));
    a.allocate(&layout(page, 1));
    assert_eq!(a.total_capacity(), 2 * page);
    a.reset();
    a.allocate(&layout(10, 1));
    // A whole page aligned to 8192 goes to the cached second page, replaced
    // by one aligned to 8192 where it was not; no page is added.
    let p = a.allocate(&layout(page, 8192)).unwrap();
    assert_eq!(p % 8192, 0);
    assert_eq!(p, a.page_address(1));
    assert_eq!(a.total_capacity(), 2 * page);
}

#[test]
fn paged_allocator_capacity_is_whole_pages_and_never_shrinks() {
    let page = 64 * 1024;
    let mut a = PagedFrameAllocator::new(1000);
    let mut last = a.total_capacity();
    assert_eq!(last, page);
    for size in [page, 10, page - 5, 1, page, page] {
        a.allocate(&layout(size, 4));
        let now = a.total_capacity();
        assert_eq!(now % page, 0);
        assert!(now >= last && now >= page);
        last = now;
    }
    a.reset();
    assert_eq!(a.total_capacity(), last);
}

#[test]
fn paged_allocator_reuses_pages_after_reset() {
    let mut a = PagedFrameAllocator::new(64 * 1024);
    let page = 64 * 1024;
    assert_eq!(a.allocate(&layout(page, 1)), Some(a.page_address(0)));
    assert_eq!(a.allocate(&layout(page, 1)), Some(a.page_address(1)));
    assert_eq!(a.allocate(&layout(page, 1)), Some(a.page_address(2)));
    assert_eq!(a.total_capacity(), 3 * page);
    a.reset();
    assert_eq!(a.allocate(&layout(page, 1)), Some(a.page_address(0)));
    assert_eq!(a.allocate(&layout(page, 1)), Some(a.page_address(1)));
    assert_eq!(a.allocate(&layout(page, 1)), Some(a.page_address(2)));
    assert_eq!(a.total_capacity(), 3 * page);
    let p3 = a.allocate(&layout(page, 1)).unwrap();
    assert_eq!(p3, a.page_address(3));
    assert_eq!(a.total_capacity(), 4 * page);
}

#[test]
fn paged_allocator_page_addresses_are_distinct() {
    let mut a = PagedFrameAllocator::new(64 * 1024);
    let page = 64 * 1024;
    a.allocate(&layout(page, 1));
    a.allocate(&layout(page, 1));
    let p0 = a.page_address(0);
    let p1 = a.page_address(1);
    assert!(p0 != 0 && p1 != 0);
    assert_eq!(p0 % 16, 0);
    assert_eq!(p1 % 16, 0);
    assert!(p0 + page <= p1 || p1 + page <= p0);
}

#[test]
fn paged_allocator_blocks_of_one_frame_never_overlap() {
    let page = 64 * 1024;
    let mut a = PagedFrameAllocator::new(page);
    let mut blocks: Vec<(usize, usize)> = Vec::new();
    for (size, align) in [(page, 1), (1, 1), (page - 3, 8), (100, 4096), (page, 16), (5, 2)] {
        let p = a.allocate(&layout(size, align)).unwrap();
        for &(q, n) in &blocks {
            assert!(p + size <= q || q + n <= p);
        }
        blocks.push((p, size));
    }
    for i in 0..a.page_count() {
        for j in 0..a.page_count() {
            if i != j {
                let (x, y) = (a.page_address(i), a.page_address(j));
                assert!(x + page <= y || y + page <= x);
            }
        }
    }
}
