//! Virtual memory: page-table entries, the split of a virtual address into
//! table indices, and the addresses at which the recursive mapping in PML4
//! slot 510 exposes each level's entry for an address.
use vstd::prelude::*;
use crate::pmm::{Pmm, PAGE_SIZE, alloc_frame, next_fit, frame_of};

pub mod flags;

verus! {

/// The PML4 slot that maps the PML4 onto itself.
pub const RECURSIVE_INDEX: u64 = 510;

/// Virtual base of the window that the recursive slot opens.
pub const RECURSIVE_BASE: u64 = 0xFFFF_FF00_0000_0000;

/// Bits of an entry that hold the physical frame address.
pub const ADDR_MASK: u64 = 0x000F_FFFF_FFFF_F000;

/// Bits of an entry that hold the low flags.
pub const FLAGS_MASK: u64 = 0xFFF;

#[derive(Clone, Copy)]
pub struct Entry(pub u64);

impl Entry {
    /// An entry that points at the frame of `phys` with `flags` set.
    pub fn new(phys: u64, flags: u64) -> (e: Self)
        ensures
            e.0 == (phys & ADDR_MASK) | flags,
    {
        Entry((phys & ADDR_MASK) | flags)
    }

    /// The present bit is set.
    pub fn present(self) -> (r: bool)
        ensures
            r == (self.0 & flags::PRESENT != 0),
    {
        self.0 & flags::PRESENT != 0
    }

    /// The physical address the entry points at.
    pub fn phys(self) -> (r: u64)
        ensures
            r == self.0 & ADDR_MASK,
    {
        self.0 & ADDR_MASK
    }

    /// The low twelve flag bits.
    pub fn flags(self) -> (r: u64)
        ensures
            r == self.0 & FLAGS_MASK,
    {
        self.0 & FLAGS_MASK
    }
}

/// Index into the PML4.
pub fn pml4_idx(va: u64) -> (r: usize)
    ensures
        r == (va >> 39u64) & 0x1FF,
        r < 512,
{
    let i = (va >> 39u64) & 0x1FF;
    assert(i < 512) by (bit_vector)
        requires
            i == (va >> 39u64) & 0x1FF,
    ;
    i as usize
}

/// Index into the page-directory-pointer table.
pub fn pdpt_idx(va: u64) -> (r: usize)
    ensures
        r == (va >> 30u64) & 0x1FF,
        r < 512,
{
    let i = (va >> 30u64) & 0x1FF;
    assert(i < 512) by (bit_vector)
        requires
            i == (va >> 30u64) & 0x1FF,
    ;
    i as usize
}

/// Index into the page directory.
pub fn pd_idx(va: u64) -> (r: usize)
    ensures
        r == (va >> 21u64) & 0x1FF,
        r < 512,
{
    let i = (va >> 21u64) & 0x1FF;
    assert(i < 512) by (bit_vector)
        requires
            i == (va >> 21u64) & 0x1FF,
    ;
    i as usize
}

/// Index into the page table.
pub fn pt_idx(va: u64) -> (r: usize)
    ensures
        r == (va >> 12u64) & 0x1FF,
        r < 512,
{
    let i = (va >> 12u64) & 0x1FF;
    assert(i < 512) by (bit_vector)
        requires
            i == (va >> 12u64) & 0x1FF,
    ;
    i as usize
}

/// Where the recursive window exposes the PML4 entry for `va`.
pub open spec fn pml4_entry_addr(va: u64) -> u64 {
    RECURSIVE_BASE | (RECURSIVE_INDEX << 30u64) | (RECURSIVE_INDEX << 21u64) | (RECURSIVE_INDEX
        << 12u64) | ((((va >> 39u64) & 0x1FF) * 8) as u64)
}

/// Where the recursive window exposes the page-directory-pointer entry for `va`.
pub open spec fn pdpt_entry_addr(va: u64) -> u64 {
    RECURSIVE_BASE | (RECURSIVE_INDEX << 30u64) | (RECURSIVE_INDEX << 21u64) | ((((va >> 39u64)
        & 0x1FF) * 4096) as u64) | ((((va >> 30u64) & 0x1FF) * 8) as u64)
}

/// Where the recursive window exposes the page-directory entry for `va`.
pub open spec fn pd_entry_addr(va: u64) -> u64 {
    RECURSIVE_BASE | (RECURSIVE_INDEX << 30u64) | ((((va >> 39u64) & 0x1FF) * 0x200000) as u64)
        | ((((va >> 30u64) & 0x1FF) * 4096) as u64) | ((((va >> 21u64) & 0x1FF) * 8) as u64)
}

/// Where the recursive window exposes the page-table entry for `va`.
pub open spec fn pt_entry_addr(va: u64) -> u64 {
    RECURSIVE_BASE | ((((va >> 39u64) & 0x1FF) * 0x40000000) as u64) | ((((va >> 30u64) & 0x1FF)
        * 0x200000) as u64) | ((((va >> 21u64) & 0x1FF) * 4096) as u64) | ((((va >> 12u64)
        & 0x1FF) * 8) as u64)
}

/// Virtual address of the PML4 entry for `va`.
pub fn pml4_entry(va: u64) -> (r: u64)
    ensures
        r == pml4_entry_addr(va),
{
    RECURSIVE_BASE | (RECURSIVE_INDEX << 30u64) | (RECURSIVE_INDEX << 21u64) | (RECURSIVE_INDEX
        << 12u64) | (pml4_idx(va) as u64 * 8)
}

/// Virtual address of the page-directory-pointer entry for `va`.
pub fn pdpt_entry(va: u64) -> (r: u64)
    ensures
        r == pdpt_entry_addr(va),
{
    RECURSIVE_BASE | (RECURSIVE_INDEX << 30u64) | (RECURSIVE_INDEX << 21u64) | (pml4_idx(va) as u64
        * 4096) | (pdpt_idx(va) as u64 * 8)
}

/// Virtual address of the page-directory entry for `va`.
pub fn pd_entry(va: u64) -> (r: u64)
    ensures
        r == pd_entry_addr(va),
{
    RECURSIVE_BASE | (RECURSIVE_INDEX << 30u64) | (pml4_idx(va) as u64 * 0x200000) | (pdpt_idx(
        va,
    ) as u64 * 4096) | (pd_idx(va) as u64 * 8)
}

/// Virtual address of the page-table entry for `va`.
pub fn pt_entry(va: u64) -> (r: u64)
    ensures
        r == pt_entry_addr(va),
{
    RECURSIVE_BASE | (pml4_idx(va) as u64 * 0x40000000) | (pdpt_idx(va) as u64 * 0x200000) | (
    pd_idx(va) as u64 * 4096) | (pt_idx(va) as u64 * 8)
}

/// Flags of an upper-level table on the way to a page mapped with `leaf`: present
/// and writable, and user-accessible when the page is, so that user pages are
/// reachable from ring 3.
pub fn table_flags(leaf: u64) -> (r: u64)
    ensures
        r == flags::PRESENT | flags::WRITABLE | (leaf & flags::USER),
{
    flags::PRESENT | flags::WRITABLE | (leaf & flags::USER)
}

/// What `map` does at one upper level of the walk.
pub enum TableStep {
    /// The entry already points at a table that allows the access.
    Present,
    /// The entry points at a table that must also allow user access: write `entry`.
    Update { entry: Entry },
    /// No frame was left for a new table: the mapping fails.
    OutOfMemory,
    /// A fresh frame was taken; it must be zeroed and `entry` written in place.
    Install { frame: u64, entry: Entry },
}

/// Makes sure the table below `e` exists with the user bit of `flags`, taking a frame
/// from `pmm` for a new table if there is none.
pub fn ensure_table(e: Entry, flags: u64, pmm: &mut Pmm) -> (r: TableStep)
    requires
        old(pmm).wf(),
    ensures
        final(pmm).wf(),
        final(pmm).total() == old(pmm).total(),
        e.0 & flags::PRESENT != 0 ==> *final(pmm) == *old(pmm),
        e.0 & flags::PRESENT != 0 && (flags & flags::USER == 0 || e.0 & flags::USER != 0) ==> r is Present,
        e.0 & flags::PRESENT != 0 && flags & flags::USER != 0 && e.0 & flags::USER == 0 ==> r
            == (TableStep::Update { entry: Entry(e.0 | flags::USER) }),
        e.0 & flags::PRESENT == 0 ==> !(r is Present) && !(r is Update),
        r is OutOfMemory <==> e.0 & flags::PRESENT == 0 && old(pmm).free_set() == Set::<
            int,
        >::empty(),
        r is OutOfMemory ==> final(pmm).free_set() == old(pmm).free_set() && final(pmm).hint()
            == old(pmm).hint(),
        r matches TableStep::Install { frame, entry } ==> {
            &&& entry.0 == (frame & ADDR_MASK) | flags
            &&& frame % (PAGE_SIZE as u64) == 0
            &&& next_fit(old(pmm).free_set(), old(pmm).hint() as int, frame_of(frame))
            &&& final(pmm).free_set() == old(pmm).free_set().remove(frame_of(frame))
            &&& final(pmm).hint() == frame_of(frame) / 64
        },
{
    if e.present() {
        if flags & flags::USER != 0 && e.0 & flags::USER == 0 {
            return TableStep::Update { entry: Entry(e.0 | flags::USER) };
        }
        return TableStep::Present;
    }
    match alloc_frame(pmm) {
        Some(frame) => TableStep::Install { frame, entry: Entry::new(frame, flags) },
        None => TableStep::OutOfMemory,
    }
}

/// Every upper-level entry that `ensure_table` leaves on the path of a user page,
/// whether found, updated or newly installed with `table_flags`, allows user access.
pub proof fn law_user_path(old_entry: u64, frame: u64, leaf: u64)
    requires
        leaf & flags::USER != 0,
    ensures
        (old_entry | flags::USER) & flags::USER != 0,
        ((frame & ADDR_MASK) | (flags::PRESENT | flags::WRITABLE | (leaf & flags::USER)))
            & flags::USER != 0,
        (flags::PRESENT | flags::WRITABLE | (leaf & flags::USER)) & flags::USER != 0,
{
    assert((old_entry | 4u64) & 4u64 != 0) by (bit_vector);
    assert(((frame & 0x000F_FFFF_FFFF_F000u64) | (1u64 | 2u64 | (leaf & 4u64))) & 4u64 != 0
        && (1u64 | 2u64 | (leaf & 4u64)) & 4u64 != 0) by (bit_vector)
        requires
            leaf & 4u64 != 0,
    ;
}

/// The leaf step of `unmap`: the entry to leave behind and the frame that was mapped.
pub fn unmap_entry(e: Entry) -> (r: (Entry, Option<u64>))
    ensures
        e.0 & flags::PRESENT == 0 ==> r.0 == e && r.1 is None,
        e.0 & flags::PRESENT != 0 ==> r.0.0 == 0 && r.1 == Some(e.0 & ADDR_MASK),
{
    if !e.present() {
        return (e, None);
    }
    (Entry(0), Some(e.phys()))
}

/// The leaf step of `translate`: the physical address of `va` through page-table entry `e`.
pub fn translate_entry(e: Entry, va: u64) -> (r: Option<u64>)
    ensures
        e.0 & flags::PRESENT == 0 ==> r is None,
        e.0 & flags::PRESENT != 0 ==> r == Some((e.0 & ADDR_MASK) | (va & FLAGS_MASK)),
{
    if !e.present() {
        return None;
    }
    Some(e.phys() | (va & FLAGS_MASK))
}

/// An entry built from a frame address and flags that stay out of the address bits
/// gives back the frame address, the low flags and the present bit.
pub proof fn law_entry_round_trip(phys: u64, f: u64)
    requires
        f & ADDR_MASK == 0,
    ensures
        (((phys & ADDR_MASK) | f) & ADDR_MASK) == phys & ADDR_MASK,
        (((phys & ADDR_MASK) | f) & FLAGS_MASK) == f & FLAGS_MASK,
        (((phys & ADDR_MASK) | f) & flags::PRESENT != 0) == (f & flags::PRESENT != 0),
{
    assert((((phys & 0x000F_FFFF_FFFF_F000u64) | f) & 0x000F_FFFF_FFFF_F000u64) == phys
        & 0x000F_FFFF_FFFF_F000u64) by (bit_vector)
        requires
            f & 0x000F_FFFF_FFFF_F000u64 == 0,
    ;
    assert((((phys & 0x000F_FFFF_FFFF_F000u64) | f) & 0xFFFu64) == f & 0xFFFu64) by (bit_vector);
    assert((((phys & 0x000F_FFFF_FFFF_F000u64) | f) & 1u64 != 0) == (f & 1u64 != 0))
        by (bit_vector);
}

/// The four table indices and the page offset put the low 48 bits of an address back together.
pub proof fn law_index_split(va: u64)
    ensures
        va & 0xFFFF_FFFF_FFFFu64 == (((va >> 39u64) & 0x1FF) << 39u64) | (((va >> 30u64) & 0x1FF)
            << 30u64) | (((va >> 21u64) & 0x1FF) << 21u64) | (((va >> 12u64) & 0x1FF) << 12u64) | (
        va & FLAGS_MASK),
{
    assert(va & 0xFFFF_FFFF_FFFFu64 == (((va >> 39u64) & 0x1FF) << 39u64) | (((va >> 30u64)
        & 0x1FF) << 30u64) | (((va >> 21u64) & 0x1FF) << 21u64) | (((va >> 12u64) & 0x1FF)
        << 12u64) | (va & 0xFFFu64)) by (bit_vector);
}

/// Through the recursive slot, the page-table entry address of `va` walks the slot
/// once and then `va`'s PML4, PDPT and PD indices, landing on `va`'s PT index.
pub proof fn law_pt_entry_walk(va: u64)
    ensures
        (pt_entry_addr(va) >> 39u64) & 0x1FF == RECURSIVE_INDEX,
        (pt_entry_addr(va) >> 30u64) & 0x1FF == (va >> 39u64) & 0x1FF,
        (pt_entry_addr(va) >> 21u64) & 0x1FF == (va >> 30u64) & 0x1FF,
        (pt_entry_addr(va) >> 12u64) & 0x1FF == (va >> 21u64) & 0x1FF,
        pt_entry_addr(va) & FLAGS_MASK == ((va >> 12u64) & 0x1FF) * 8,
{
    let a = pt_entry_addr(va);
    assert(a == 0xFFFF_FF00_0000_0000u64 | ((((va >> 39u64) & 0x1FF) * 0x40000000) as u64) | ((((
    va >> 30u64) & 0x1FF) * 0x200000) as u64) | ((((va >> 21u64) & 0x1FF) * 4096) as u64) | ((((va
        >> 12u64) & 0x1FF) * 8) as u64));
    assert((a >> 39u64) & 0x1FF == 510 && (a >> 30u64) & 0x1FF == (va >> 39u64) & 0x1FF && (a
        >> 21u64) & 0x1FF == (va >> 30u64) & 0x1FF && (a >> 12u64) & 0x1FF == (va >> 21u64) & 0x1FF
        && a & 0xFFF == ((va >> 12u64) & 0x1FF) * 8) by (bit_vector)
        requires
            a == 0xFFFF_FF00_0000_0000u64 | ((((va >> 39u64) & 0x1FF) * 0x40000000) as u64) | ((((
            va >> 30u64) & 0x1FF) * 0x200000) as u64) | ((((va >> 21u64) & 0x1FF) * 4096) as u64)
                | ((((va >> 12u64) & 0x1FF) * 8) as u64),
    ;
}

/// Through the recursive slot twice, the page-directory entry address of `va` lands on
/// `va`'s PD index in the directory that `va`'s PML4 and PDPT indices select.
pub proof fn law_pd_entry_walk(va: u64)
    ensures
        (pd_entry_addr(va) >> 39u64) & 0x1FF == RECURSIVE_INDEX,
        (pd_entry_addr(va) >> 30u64) & 0x1FF == RECURSIVE_INDEX,
        (pd_entry_addr(va) >> 21u64) & 0x1FF == (va >> 39u64) & 0x1FF,
        (pd_entry_addr(va) >> 12u64) & 0x1FF == (va >> 30u64) & 0x1FF,
        pd_entry_addr(va) & FLAGS_MASK == ((va >> 21u64) & 0x1FF) * 8,
{
    let a = pd_entry_addr(va);
    assert(a == 0xFFFF_FF00_0000_0000u64 | (510u64 << 30u64) | ((((va >> 39u64) & 0x1FF)
        * 0x200000) as u64) | ((((va >> 30u64) & 0x1FF) * 4096) as u64) | ((((va >> 21u64) & 0x1FF)
        * 8) as u64));
    assert((a >> 39u64) & 0x1FF == 510 && (a >> 30u64) & 0x1FF == 510 && (a >> 21u64) & 0x1FF == (
    va >> 39u64) & 0x1FF && (a >> 12u64) & 0x1FF == (va >> 30u64) & 0x1FF && a & 0xFFF == ((va
        >> 21u64) & 0x1FF) * 8) by (bit_vector)
        requires
            a == 0xFFFF_FF00_0000_0000u64 | (510u64 << 30u64) | ((((va >> 39u64) & 0x1FF)
                * 0x200000) as u64) | ((((va >> 30u64) & 0x1FF) * 4096) as u64) | ((((va >> 21u64)
                & 0x1FF) * 8) as u64),
    ;
}

/// Through the recursive slot three times, the PDPT entry address of `va` lands on
/// `va`'s PDPT index in the table that `va`'s PML4 index selects.
pub proof fn law_pdpt_entry_walk(va: u64)
    ensures
        (pdpt_entry_addr(va) >> 39u64) & 0x1FF == RECURSIVE_INDEX,
        (pdpt_entry_addr(va) >> 30u64) & 0x1FF == RECURSIVE_INDEX,
        (pdpt_entry_addr(va) >> 21u64) & 0x1FF == RECURSIVE_INDEX,
        (pdpt_entry_addr(va) >> 12u64) & 0x1FF == (va >> 39u64) & 0x1FF,
        pdpt_entry_addr(va) & FLAGS_MASK == ((va >> 30u64) & 0x1FF) * 8,
{
    let a = pdpt_entry_addr(va);
    assert(a == 0xFFFF_FF00_0000_0000u64 | (510u64 << 30u64) | (510u64 << 21u64) | ((((va >> 39u64)
        & 0x1FF) * 4096) as u64) | ((((va >> 30u64) & 0x1FF) * 8) as u64));
    assert((a >> 39u64) & 0x1FF == 510 && (a >> 30u64) & 0x1FF == 510 && (a >> 21u64) & 0x1FF
        == 510 && (a >> 12u64) & 0x1FF == (va >> 39u64) & 0x1FF && a & 0xFFF == ((va >> 30u64)
        & 0x1FF) * 8) by (bit_vector)
        requires
            a == 0xFFFF_FF00_0000_0000u64 | (510u64 << 30u64) | (510u64 << 21u64) | ((((va
                >> 39u64) & 0x1FF) * 4096) as u64) | ((((va >> 30u64) & 0x1FF) * 8) as u64),
    ;
}

/// The PML4 entry address of `va` walks the recursive slot four times and lands on
/// `va`'s PML4 index in the PML4 itself.
pub proof fn law_pml4_entry_walk(va: u64)
    ensures
        (pml4_entry_addr(va) >> 39u64) & 0x1FF == RECURSIVE_INDEX,
        (pml4_entry_addr(va) >> 30u64) & 0x1FF == RECURSIVE_INDEX,
        (pml4_entry_addr(va) >> 21u64) & 0x1FF == RECURSIVE_INDEX,
        (pml4_entry_addr(va) >> 12u64) & 0x1FF == RECURSIVE_INDEX,
        pml4_entry_addr(va) & FLAGS_MASK == ((va >> 39u64) & 0x1FF) * 8,
{
    let a = pml4_entry_addr(va);
    assert(a == 0xFFFF_FF00_0000_0000u64 | (510u64 << 30u64) | (510u64 << 21u64) | (510u64
        << 12u64) | ((((va >> 39u64) & 0x1FF) * 8) as u64));
    assert((a >> 39u64) & 0x1FF == 510 && (a >> 30u64) & 0x1FF == 510 && (a >> 21u64) & 0x1FF
        == 510 && (a >> 12u64) & 0x1FF == 510 && a & 0xFFF == ((va >> 39u64) & 0x1FF) * 8)
        by (bit_vector)
        requires
            a == 0xFFFF_FF00_0000_0000u64 | (510u64 << 30u64) | (510u64 << 21u64) | (510u64
                << 12u64) | ((((va >> 39u64) & 0x1FF) * 8) as u64),
    ;
}

} // verus!
