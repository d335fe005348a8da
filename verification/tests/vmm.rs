use kernel_engineering::pmm::{init, MmapEntry, Pmm};
use kernel_engineering::vmm::{
    ensure_table, flags, pd_entry, pd_idx, pdpt_entry, pdpt_idx, pml4_entry, pml4_idx, pt_entry,
    pt_idx, table_flags, translate_entry, unmap_entry, Entry, TableStep,
};

#[test]
fn entry_fields() {
    let e = Entry::new(0x1234_5678, flags::KERNEL_RW);
    assert_eq!(e.0, 0x1234_5000 | 0x103);
    assert!(e.present());
    assert_eq!(e.phys(), 0x1234_5000);
    assert_eq!(e.flags(), 0x103);
    let nx = Entry::new(0xFFFF_FFFF_FFFF_FFFF, flags::KERNEL_RO);
    assert_eq!(nx.phys(), 0x000F_FFFF_FFFF_F000);
    assert_eq!(nx.flags(), 0x101);
    assert!(!Entry(0).present());
}

#[test]
fn flag_sets() {
    assert_eq!(flags::KERNEL_RW, flags::PRESENT | flags::WRITABLE | flags::GLOBAL);
    assert_eq!(flags::KERNEL_RO, flags::PRESENT | flags::GLOBAL | flags::NX);
    assert_eq!(flags::USER_RW, flags::PRESENT | flags::WRITABLE | flags::USER);
}

#[test]
fn address_split() {
    let va: u64 = 0xFFFF_C000_0040_3123;
    assert_eq!(pml4_idx(va), 384);
    assert_eq!(pdpt_idx(va), 0);
    assert_eq!(pd_idx(va), 2);
    assert_eq!(pt_idx(va), 3);
    let parts = (pml4_idx(va) as u64) << 39
        | (pdpt_idx(va) as u64) << 30
        | (pd_idx(va) as u64) << 21
        | (pt_idx(va) as u64) << 12
        | (va & 0xFFF);
    assert_eq!(parts, va & 0xFFFF_FFFF_FFFF);
}

#[test]
fn recursive_entry_addresses() {
    let va: u64 = 0xFFFF_C000_0040_3123;
    assert_eq!(pml4_entry(va), 0xFFFF_FF7F_BFDF_E000 + 384 * 8);
    assert_eq!(pdpt_entry(va), 0xFFFF_FF7F_BFC0_0000 + 384 * 4096);
    assert_eq!(pd_entry(va), 0xFFFF_FF7F_8000_0000 + 384 * 0x20_0000 + 2 * 8);
    assert_eq!(pt_entry(va), 0xFFFF_FF00_0000_0000 + 384 * 0x4000_0000 + 2 * 4096 + 3 * 8);
    // the page-table entry address walks slot 510, then the address's own indices
    let a = pt_entry(va);
    assert_eq!(pml4_idx(a), 510);
    assert_eq!(pdpt_idx(a), pml4_idx(va));
    assert_eq!(pd_idx(a), pdpt_idx(va));
    assert_eq!(pt_idx(a), pd_idx(va));
    assert_eq!(a & 0xFFF, pt_idx(va) as u64 * 8);
}

#[test]
fn ensure_table_steps() {
    let mut pmm = Pmm::new();
    assert!(matches!(ensure_table(Entry(0x5003), 3, &mut pmm), TableStep::Present));
    assert!(matches!(ensure_table(Entry(0), 3, &mut pmm), TableStep::OutOfMemory));
    init(&mut pmm, &[MmapEntry { base: 0, len: 0x4000, typ: 1, attr: 0 }]);
    match ensure_table(Entry(0x5002), 3, &mut pmm) {
        TableStep::Install { frame, entry } => {
            assert_eq!(frame, 0x1000);
            assert_eq!(entry.0, 0x1003);
        }
        _ => panic!("expected a new table"),
    }
    assert_eq!(pmm.free_frames(), 2);
}

#[test]
fn user_pages_get_user_tables() {
    let mut pmm = Pmm::new();
    let user_leaf = flags::PRESENT | flags::USER | flags::NX;
    assert_eq!(table_flags(user_leaf), flags::PRESENT | flags::WRITABLE | flags::USER);
    assert_eq!(table_flags(flags::PRESENT), flags::PRESENT | flags::WRITABLE);
    // a present kernel-only table on the way to a user page is opened to ring 3
    match ensure_table(Entry(0x5003), table_flags(user_leaf), &mut pmm) {
        TableStep::Update { entry } => assert_eq!(entry.0, 0x5007),
        _ => panic!("expected the user bit to be added"),
    }
    assert!(matches!(ensure_table(Entry(0x5007), table_flags(user_leaf), &mut pmm), TableStep::Present));
    init(&mut pmm, &[MmapEntry { base: 0, len: 0x4000, typ: 1, attr: 0 }]);
    match ensure_table(Entry(0), table_flags(user_leaf), &mut pmm) {
        TableStep::Install { frame, entry } => assert_eq!(entry.0, frame | 7),
        _ => panic!("expected a new table"),
    }
}

#[test]
fn unmap_and_translate_leaf() {
    let e = Entry::new(0xABC_D000, flags::USER_RW);
    let (left, phys) = unmap_entry(e);
    assert_eq!(left.0, 0);
    assert_eq!(phys, Some(0xABC_D000));
    let (kept, none) = unmap_entry(Entry(0xABC_D000));
    assert_eq!(kept.0, 0xABC_D000);
    assert_eq!(none, None);
    assert_eq!(translate_entry(e, 0x7000_0123), Some(0xABC_D123));
    assert_eq!(translate_entry(Entry(0xABC_D000), 0x123), None);
}
