use bump_allocator::align::{align_down, align_up};
use bump_allocator::early::{AllocError, EarlyAllocator};

const PAGE: usize = 4096;

#[test]
fn new_is_empty() {
    let a = EarlyAllocator::<PAGE>::new();
    assert_eq!(a.total_bytes(), 0);
    assert_eq!(a.used_bytes(), 0);
    assert_eq!(a.available_bytes(), 0);
    assert_eq!(a.count(), 0);
}

#[test]
fn initialize_frees_whole_region() {
    let mut a = EarlyAllocator::<PAGE>::new();
    a.initialize(0x1000, 0x1000);
    assert_eq!(a.total_bytes(), 0x1000);
    assert_eq!(a.used_bytes(), 0);
    assert_eq!(a.available_bytes(), 0x1000);
    assert_eq!(a.count(), 0);
}

#[test]
fn byte_allocation_addresses_and_bookkeeping() {
    let mut a = EarlyAllocator::<PAGE>::new();
    a.initialize(0x1000, 0x1000);
    let r = a.allocate_bytes(16, 8);
    assert_eq!(r, Ok(0x1000));
    assert_eq!(a.used_bytes(), 16);
    let r2 = a.allocate_bytes(10, 16);
    assert_eq!(r2, Ok(0x1010));
    assert_eq!(a.used_bytes(), 26);
    assert_eq!(a.count(), 2);
}

#[test]
fn byte_allocations_are_aligned_and_disjoint() {
    let mut a = EarlyAllocator::<PAGE>::new();
    a.initialize(0x1001, 0x800);
    let sizes_aligns = [(3usize, 1usize), (5, 8), (1, 2), (32, 32), (7, 4)];
    let mut blocks: Vec<(usize, usize)> = Vec::new();
    for &(s, al) in sizes_aligns.iter() {
        let addr = a.allocate_bytes(s, al).unwrap();
        assert_eq!(addr % al, 0);
        for &(b, bs) in blocks.iter() {
            assert!(addr + s <= b || b + bs <= addr);
        }
        blocks.push((addr, s));
    }
}

#[test]
fn out_of_memory_changes_nothing() {
    let mut a = EarlyAllocator::<PAGE>::new();
    a.initialize(0x1000, 64);
    assert_eq!(a.allocate_bytes(48, 1), Ok(0x1000));
    let used = a.used_bytes();
    let avail = a.available_bytes();
    let count = a.count();
    assert_eq!(a.allocate_bytes(32, 1), Err(AllocError::OutOfMemory));
    assert_eq!(a.used_bytes(), used);
    assert_eq!(a.available_bytes(), avail);
    assert_eq!(a.count(), count);
}

#[test]
fn available_bytes_shrinks_under_allocation() {
    let mut a = EarlyAllocator::<PAGE>::new();
    a.initialize(0x2000, 0x400);
    let mut last = a.available_bytes();
    assert_eq!(last, 0x400);
    for s in [1usize, 9, 17, 2] {
        a.allocate_bytes(s, 4).unwrap();
        let now = a.available_bytes();
        assert!(now <= last);
        assert_eq!(a.used_bytes() + now, a.total_bytes());
        last = now;
    }
}

#[test]
fn lifo_roundtrip_reclaims_bytes() {
    let mut a = EarlyAllocator::<PAGE>::new();
    a.initialize(0x1000, 0x1000);
    let reqs = [(16usize, 8usize), (10, 16), (5, 1), (64, 64)];
    let mut got: Vec<(usize, usize)> = Vec::new();
    let mut total = 0usize;
    for &(s, al) in reqs.iter() {
        let addr = a.allocate_bytes(s, al).unwrap();
        got.push((addr, s));
        total += s;
    }
    for &(addr, s) in got.iter().rev() {
        a.deallocate_bytes(addr, s);
    }
    assert_eq!(a.used_bytes(), 0);
    assert_eq!(a.count(), 0);
    assert_eq!(a.available_bytes(), 0x1000);
    assert_eq!(a.allocate_bytes(total, 1), Ok(0x1000));
}

#[test]
fn dealloc_retracts_by_size_while_count_positive() {
    let mut a = EarlyAllocator::<PAGE>::new();
    a.initialize(0, 256);
    let p1 = a.allocate_bytes(8, 1).unwrap();
    let p2 = a.allocate_bytes(8, 1).unwrap();
    assert_eq!((p1, p2), (0, 8));
    a.deallocate_bytes(p2, 8);
    assert_eq!(a.used_bytes(), 8);
    assert_eq!(a.count(), 1);
    a.deallocate_bytes(p1, 8);
    assert_eq!(a.used_bytes(), 0);
    assert_eq!(a.count(), 0);
}

#[test]
fn page_operations_are_unsupported() {
    let mut a = EarlyAllocator::<PAGE>::new();
    a.initialize(0x1000, 0x1000);
    assert_eq!(a.allocate_pages(1, PAGE), Err(AllocError::Unsupported));
    assert_eq!(a.deallocate_pages(0x1800, 1), Err(AllocError::Unsupported));
    assert_eq!(a.total_pages(), Err(AllocError::Unsupported));
    assert_eq!(a.used_pages(), Err(AllocError::Unsupported));
    assert_eq!(a.available_pages(), Err(AllocError::Unsupported));
    assert_eq!(a.used_bytes(), 0);
    assert_eq!(a.available_bytes(), 0x1000);
}

#[test]
fn add_memory_is_unsupported() {
    let mut a = EarlyAllocator::<PAGE>::new();
    a.initialize(0x1000, 0x1000);
    assert_eq!(a.add_memory(0x4000, 0x1000), Err(AllocError::Unsupported));
    assert_eq!(a.total_bytes(), 0x1000);
}

#[test]
fn align_helpers_match_mask_semantics() {
    assert_eq!(align_up(0, 1), 0);
    assert_eq!(align_up(5, 8), 8);
    assert_eq!(align_up(8, 8), 8);
    assert_eq!(align_up(0x1010, 16), 0x1010);
    assert_eq!(align_up(0x1011, 16), 0x1020);
    assert_eq!(align_down(0x1fff, 0x1000), 0x1000);
    assert_eq!(align_down(7, 4), 4);
    assert_eq!(align_down(3, 8), 0);
    // the published semantics: align_up(x, a) == (x + a - 1) & !(a - 1)
    for x in [0usize, 1, 7, 8, 9, 100, 0x1234] {
        for a in [1usize, 2, 8, 16, 4096] {
            assert_eq!(align_up(x, a), (x + a - 1) & !(a - 1));
            assert_eq!(align_down(x, a), x & !(a - 1));
        }
    }
}
