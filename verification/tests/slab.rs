use kernel_engineering::pmm::{init, MmapEntry, Pmm};
use kernel_engineering::heap::{HEAP_SIZE, HEAP_START};
use kernel_engineering::slab::{SlabAllocator, SLAB_BASE};

fn booted() -> Pmm {
    let mut pmm = Pmm::new();
    init(&mut pmm, &[MmapEntry { base: 0, len: 0x80_0000, typ: 1, attr: 0 }]);
    pmm
}

#[test]
fn size_classes() {
    let s = SlabAllocator::new();
    assert_eq!(s.class_for(0), Some(0));
    assert_eq!(s.class_for(8), Some(0));
    assert_eq!(s.class_for(9), Some(1));
    assert_eq!(s.class_for(100), Some(4));
    assert_eq!(s.class_for(2048), Some(8));
    assert_eq!(s.class_for(2049), None);
}

#[test]
fn grows_then_hands_out_in_order() {
    let mut s = SlabAllocator::new();
    let mut pmm = booted();
    let (a, page) = s.allocate(24, 8, &mut pmm);
    let page = page.unwrap();
    assert_eq!(page.va, SLAB_BASE);
    assert_eq!(page.phys, 0x1000);
    assert_eq!(page.next, 0);
    assert_eq!(page.obj_size, 32);
    assert_eq!(page.cap, 127);
    assert_eq!(a, Some(SLAB_BASE + 32));
    let (b, none) = s.allocate(32, 1, &mut pmm);
    assert!(none.is_none());
    assert_eq!(b, Some(SLAB_BASE + 64));
}

#[test]
fn freed_object_comes_back_first() {
    let mut s = SlabAllocator::new();
    let mut pmm = booted();
    let a = s.allocate(100, 8, &mut pmm).0.unwrap();
    let _b = s.allocate(100, 8, &mut pmm).0.unwrap();
    s.dealloc(a, 100, 8);
    assert_eq!(s.allocate(128, 8, &mut pmm).0, Some(a));
}

#[test]
fn alignment_picks_the_class() {
    let mut s = SlabAllocator::new();
    let mut pmm = booted();
    let (a, page) = s.allocate(1, 64, &mut pmm);
    let page = page.unwrap();
    assert_eq!(page.obj_size, 64);
    assert_eq!(page.cap, 63);
    assert_eq!(a, Some(SLAB_BASE + 64));
}

#[test]
fn new_page_links_the_old_one() {
    let mut s = SlabAllocator::new();
    let mut pmm = booted();
    let first = s.allocate(2048, 8, &mut pmm).1.unwrap();
    assert_eq!(first.cap, 1);
    let second = s.allocate(2000, 8, &mut pmm).1.unwrap();
    assert_eq!(second.va, SLAB_BASE + 4096);
    assert_eq!(second.next, SLAB_BASE);
}

#[test]
fn large_or_without_memory_fails() {
    let mut s = SlabAllocator::new();
    let mut pmm = Pmm::new();
    let (a, page) = s.allocate(4096, 8, &mut pmm);
    assert!(a.is_none() && page.is_none());
    let (a, page) = s.allocate(16, 8, &mut pmm);
    assert!(a.is_none() && page.is_none());
    // a large object is not kept
    s.dealloc(0x1234, 4096, 8);
    let mut pmm = booted();
    assert_eq!(s.allocate(4000, 8, &mut pmm).0, None);
}

#[test]
fn objects_are_aligned_and_apart() {
    let mut s = SlabAllocator::new();
    let mut pmm = booted();
    let mut seen: Vec<u64> = Vec::new();
    for (size, align) in [(1usize, 1usize), (24, 8), (64, 64), (100, 16), (700, 512), (2048, 2048), (5, 4)] {
        let a = s.allocate(size, align, &mut pmm).0.unwrap();
        let need = size.max(align);
        let class = need.next_power_of_two().max(8) as u64;
        assert_eq!(a % align as u64, 0);
        assert_eq!(a % class, 0);
        // after the header, inside one page, past the linked-list heap
        assert!(a % 4096 >= 32 && a % 4096 + class <= 4096);
        assert!(a >= HEAP_START + HEAP_SIZE);
        for &b in &seen {
            assert_ne!(a, b);
        }
        seen.push(a);
    }
}

#[test]
fn slab_starts_where_the_heap_ends() {
    assert_eq!(SLAB_BASE, HEAP_START + HEAP_SIZE);
}

#[test]
fn a_page_is_needed_only_for_an_empty_class() {
    let mut s = SlabAllocator::new();
    let mut pmm = booted();
    assert!(s.takes_page(24, 8));
    assert!(!s.takes_page(4096, 8));
    let a = s.allocate(24, 8, &mut pmm).0.unwrap();
    assert!(!s.takes_page(32, 8));
    assert!(s.takes_page(64, 8));
    s.dealloc(a, 24, 8);
    assert!(!s.takes_page(17, 1));
}
