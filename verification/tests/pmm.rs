use kernel_engineering::pmm::{
    map_sound, alloc_frame, alloc_frames, free_frame, free_kib, init, MmapEntry, Pmm, MAX_FRAMES, PAGE_SIZE,
};

fn ram(base: u64, len: u64) -> MmapEntry {
    MmapEntry { base, len, typ: 1, attr: 0 }
}

/// 8 MiB of RAM from address 0, less frame 0 and the kernel frames.
fn booted() -> Pmm {
    let mut pmm = Pmm::new();
    init(&mut pmm, &[ram(0, 0x80_0000)]);
    pmm
}

#[test]
fn new_allocator_has_nothing_free() {
    let mut pmm = Pmm::new();
    assert_eq!(free_kib(&pmm), 0);
    assert_eq!(pmm.total_frames(), 0);
    assert_eq!(alloc_frame(&mut pmm), None);
    assert_eq!(alloc_frames(&mut pmm, 1), None);
}

#[test]
fn init_counts_and_reserves() {
    let pmm = booted();
    assert_eq!(pmm.total_frames(), 2048);
    // 2048 frames, less frame 0 and the 768 kernel frames 0x100..0x400
    assert_eq!(pmm.free_frames(), 2048 - 1 - 768);
    assert_eq!(free_kib(&pmm), (2048 - 1 - 768) * 4);
}

#[test]
fn init_ignores_reserved_entries_and_rounds_inward() {
    let mut pmm = Pmm::new();
    init(
        &mut pmm,
        &[
            MmapEntry { base: 0x10_0000_0000, len: 0x1000, typ: 2, attr: 0 },
            ram(0x1800, 0x2000),
        ],
    );
    // only frame 2 lies wholly inside 0x1800..0x3800
    assert_eq!(pmm.total_frames(), 1);
    assert_eq!(pmm.free_frames(), 1);
    assert_eq!(alloc_frame(&mut pmm), Some(0x2000));
    assert_eq!(alloc_frame(&mut pmm), None);
}

#[test]
fn init_counts_frames_past_the_bitmap() {
    let mut pmm = Pmm::new();
    let top = (MAX_FRAMES * PAGE_SIZE) as u64;
    init(&mut pmm, &[ram(top - 0x1000, 0x3000)]);
    // three frames counted, only the one below 4 GiB can be handed out
    assert_eq!(pmm.total_frames(), 3);
    assert_eq!(pmm.free_frames(), 1);
}

#[test]
fn kernel_frames_never_free() {
    let mut pmm = Pmm::new();
    init(&mut pmm, &[ram(0, 0x1000), ram(0x10_0000, 0x30_0000)]);
    assert_eq!(pmm.total_frames(), 1 + 0x300);
    assert_eq!(pmm.free_frames(), 0);
    assert_eq!(alloc_frame(&mut pmm), None);
}

#[test]
fn alloc_takes_lowest_free_frame_of_hint_word() {
    let mut pmm = booted();
    assert_eq!(alloc_frame(&mut pmm), Some(0x1000));
    assert_eq!(alloc_frame(&mut pmm), Some(0x2000));
    assert_eq!(pmm.free_frames(), 2048 - 1 - 768 - 2);
}

#[test]
fn free_undoes_alloc() {
    let mut pmm = booted();
    let before = pmm.free_frames();
    let a = alloc_frame(&mut pmm).unwrap();
    free_frame(&mut pmm, a);
    assert_eq!(pmm.free_frames(), before);
    // the same frame comes back first
    assert_eq!(alloc_frame(&mut pmm), Some(a));
}

#[test]
fn free_of_free_frame_changes_nothing() {
    let mut pmm = booted();
    let before = pmm.free_frames();
    free_frame(&mut pmm, 0x5000);
    assert_eq!(pmm.free_frames(), before);
    // addresses past 4 GiB are ignored
    free_frame(&mut pmm, 0x2_0000_0000);
    assert_eq!(pmm.free_frames(), before);
}

#[test]
fn allocated_frame_is_not_handed_out_twice() {
    let mut pmm = booted();
    let mut seen = std::collections::HashSet::new();
    while let Some(a) = alloc_frame(&mut pmm) {
        assert!(seen.insert(a));
        assert_eq!(a % PAGE_SIZE as u64, 0);
        let f = a / PAGE_SIZE as u64;
        assert!(f != 0 && !(0x100..0x400).contains(&f));
    }
    assert_eq!(seen.len(), 2048 - 1 - 768);
    assert_eq!(free_kib(&pmm), 0);
}

#[test]
fn next_fit_keeps_to_the_hint_word() {
    let mut pmm = Pmm::new();
    // frames 1 (word 0) and 130 (word 2)
    pmm.mark_free(1);
    pmm.mark_free(130);
    assert_eq!(alloc_frame(&mut pmm), Some(0x1000));
    assert_eq!(alloc_frame(&mut pmm), Some(130 * 0x1000));
    // the search now starts at word 2, and wraps round to word 0
    pmm.mark_free(1);
    pmm.mark_free(140);
    assert_eq!(alloc_frame(&mut pmm), Some(140 * 0x1000));
    assert_eq!(alloc_frame(&mut pmm), Some(0x1000));
}

#[test]
fn contiguous_alloc_takes_lowest_run() {
    let mut pmm = Pmm::new();
    for f in [3usize, 5, 6, 8, 9, 10, 11, 12] {
        pmm.mark_free(f);
    }
    assert_eq!(alloc_frames(&mut pmm, 3), Some(8 * 0x1000));
    assert_eq!(pmm.free_frames(), 5);
    assert_eq!(alloc_frames(&mut pmm, 2), Some(5 * 0x1000));
    assert_eq!(alloc_frames(&mut pmm, 2), Some(11 * 0x1000));
    assert_eq!(alloc_frames(&mut pmm, 2), None);
    assert_eq!(pmm.free_frames(), 1);
}

#[test]
fn contiguous_alloc_of_nothing_fails() {
    let mut pmm = booted();
    let before = pmm.free_frames();
    assert_eq!(alloc_frames(&mut pmm, 0), None);
    assert_eq!(pmm.free_frames(), before);
}

#[test]
fn mark_used_and_free_past_the_end_are_ignored() {
    let mut pmm = Pmm::new();
    pmm.mark_free(MAX_FRAMES);
    assert_eq!(pmm.free_frames(), 0);
    pmm.mark_free(MAX_FRAMES - 1);
    assert_eq!(pmm.free_frames(), 1);
    pmm.mark_used(MAX_FRAMES);
    assert_eq!(pmm.free_frames(), 1);
    pmm.mark_used(MAX_FRAMES - 1);
    assert_eq!(pmm.free_frames(), 0);
}

#[test]
fn memory_map_soundness() {
    assert!(map_sound(&[ram(0, 0x1000)]));
    assert!(!map_sound(&[ram(u64::MAX, 1)]));
    assert!(map_sound(&[]));
}
