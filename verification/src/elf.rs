//! ELF64 loader: checks the image, and turns each loadable segment into the pages
//! to map and the bytes to copy. The mapping, zeroing and copying are done by the
//! caller, in the order of the returned actions.
use vstd::prelude::*;
use vstd::set_lib::*;
use crate::pmm::{Pmm, PAGE_SIZE, alloc_frame, frame_of, next_fit};
use crate::vmm::flags;

verus! {

pub const EHDR_SIZE: usize = 64;

pub const PHDR_SIZE: u64 = 56;

pub const ET_EXEC: u16 = 2;

pub const ET_DYN: u16 = 3;

pub const EM_X86_64: u16 = 62;

pub const PT_LOAD: u32 = 1;

pub const PT_GNU_STACK: u32 = 0x6474E551;

pub const PF_X: u32 = 1;

pub const PF_W: u32 = 2;

pub const PF_R: u32 = 4;

#[derive(Debug, PartialEq, Eq, Structural)]
pub struct LoadedElf {
    pub entry: u64,
    pub load_bias: u64,
}

/// Little-endian 16-bit field at `o`.
pub open spec fn le16(d: Seq<u8>, o: int) -> int {
    d[o] + d[o + 1] * 256
}

/// Little-endian 32-bit field at `o`.
pub open spec fn le32(d: Seq<u8>, o: int) -> int {
    le16(d, o) + le16(d, o + 2) * 0x10000
}

/// Little-endian 64-bit field at `o`.
pub open spec fn le64(d: Seq<u8>, o: int) -> int {
    le32(d, o) + le32(d, o + 4) * 0x1_0000_0000
}

fn read_u16(d: &[u8], o: usize) -> (r: u16)
    requires
        o + 2 <= d.len(),
    ensures
        r == le16(d@, o as int),
{
    d[o] as u16 + d[o + 1] as u16 * 256
}

fn read_u32(d: &[u8], o: usize) -> (r: u32)
    requires
        o + 4 <= d.len(),
    ensures
        r == le32(d@, o as int),
{
    read_u16(d, o) as u32 + read_u16(d, o + 2) as u32 * 0x10000
}

fn read_u64(d: &[u8], o: usize) -> (r: u64)
    requires
        o + 8 <= d.len(),
    ensures
        r == le64(d@, o as int),
{
    read_u32(d, o) as u64 + read_u32(d, o + 4) as u64 * 0x1_0000_0000
}

/// Why an image is refused.
pub enum ElfError {
    TooSmall,
    BadMagic,
    Not64Bit,
    NotX86_64,
    NotExecutable,
    PhdrOutOfBounds,
    SegmentOutOfBounds,
    OutOfMemory,
}

/// The message that `load` returns for each refusal.
pub open spec fn error_text(e: ElfError) -> Seq<char> {
    match e {
        ElfError::TooSmall => "too small"@,
        ElfError::BadMagic => "bad magic"@,
        ElfError::Not64Bit => "not 64-bit"@,
        ElfError::NotX86_64 => "not x86_64"@,
        ElfError::NotExecutable => "not executable"@,
        ElfError::PhdrOutOfBounds => "phdr out of bounds"@,
        ElfError::SegmentOutOfBounds => "segment out of bounds"@,
        ElfError::OutOfMemory => "elf: out of memory"@,
    }
}

pub open spec fn e_type(d: Seq<u8>) -> int {
    le16(d, 16)
}

pub open spec fn e_machine(d: Seq<u8>) -> int {
    le16(d, 18)
}

pub open spec fn e_entry(d: Seq<u8>) -> int {
    le64(d, 24)
}

pub open spec fn e_phoff(d: Seq<u8>) -> int {
    le64(d, 32)
}

pub open spec fn e_phentsize(d: Seq<u8>) -> int {
    le16(d, 54)
}

pub open spec fn e_phnum(d: Seq<u8>) -> int {
    le16(d, 56)
}

/// The first check of the ELF header that fails, if any.
pub open spec fn header_error(d: Seq<u8>) -> Option<ElfError> {
    if d.len() < EHDR_SIZE {
        Some(ElfError::TooSmall)
    } else if !(d[0] == 0x7F && d[1] == 0x45 && d[2] == 0x4C && d[3] == 0x46) {
        Some(ElfError::BadMagic)
    } else if d[4] != 2 {
        Some(ElfError::Not64Bit)
    } else if e_machine(d) != EM_X86_64 {
        Some(ElfError::NotX86_64)
    } else if e_type(d) != ET_EXEC && e_type(d) != ET_DYN {
        Some(ElfError::NotExecutable)
    } else {
        None
    }
}

/// Program header fields of the header at `o`.
pub open spec fn p_type(d: Seq<u8>, o: int) -> int {
    le32(d, o)
}

pub open spec fn p_flags(d: Seq<u8>, o: int) -> int {
    le32(d, o + 4)
}

pub open spec fn p_offset(d: Seq<u8>, o: int) -> int {
    le64(d, o + 8)
}

pub open spec fn p_vaddr(d: Seq<u8>, o: int) -> int {
    le64(d, o + 16)
}

pub open spec fn p_filesz(d: Seq<u8>, o: int) -> int {
    le64(d, o + 32)
}

pub open spec fn p_memsz(d: Seq<u8>, o: int) -> int {
    le64(d, o + 40)
}

/// Page-table flags of a segment with ELF flags `pf`: present and user, writable
/// if the segment is, not executable unless it is.
pub open spec fn segment_flags(pf: u32) -> u64 {
    flags::PRESENT | flags::USER | (if pf & PF_W != 0 {
        flags::WRITABLE
    } else {
        0
    }) | (if pf & PF_X == 0 {
        flags::NX
    } else {
        0
    })
}

/// First page of the segment whose header is at `o`.
pub open spec fn seg_page_start(d: Seq<u8>, o: int) -> u64 {
    (p_vaddr(d, o) as u64) & !0xFFFu64
}

/// End of the last page of the segment whose header is at `o` (exclusive).
pub open spec fn seg_page_end(d: Seq<u8>, o: int) -> u64 {
    ((p_vaddr(d, o) + p_memsz(d, o) + 0xFFF) as u64) & !0xFFFu64
}

/// Number of pages mapped for the segment whose header is at `o`.
pub open spec fn seg_pages(d: Seq<u8>, o: int) -> int {
    pages_between(seg_page_start(d, o), seg_page_end(d, o))
}

/// One step of loading, before physical frames are chosen.
pub enum PlanItem {
    /// Map a zeroed page at `va` with `flags`.
    Page { va: u64, flags: u64 },
    /// Copy a segment's file bytes to its address.
    Copy { vaddr: u64, file_off: u64, file_size: u64, mem_size: u64, p_flags: u32 },
}

/// The `k`-th page of a segment that starts at page `start`.
pub open spec fn page_item(start: u64, k: int, fl: u64) -> PlanItem {
    PlanItem::Page { va: (start + k * PAGE_SIZE) as u64, flags: fl }
}

/// Number of pages in `[start, end)`.
pub open spec fn pages_between(start: u64, end: u64) -> int {
    if start < end {
        (end - start) / PAGE_SIZE as int
    } else {
        0
    }
}

/// The steps for the loadable segment whose header is at `o`.
pub open spec fn segment_plan(d: Seq<u8>, o: int) -> Seq<PlanItem> {
    Seq::new(
        seg_pages(d, o) as nat,
        |k: int| page_item(seg_page_start(d, o), k, segment_flags(p_flags(d, o) as u32)),
    ).push(
        PlanItem::Copy {
            vaddr: p_vaddr(d, o) as u64,
            file_off: p_offset(d, o) as u64,
            file_size: p_filesz(d, o) as u64,
            mem_size: p_memsz(d, o) as u64,
            p_flags: p_flags(d, o) as u32,
        },
    )
}

/// The steps for program headers `i ..` (the `i`-th at offset `o`), and the
/// refusal that ends them, if any.
pub open spec fn plan_from(d: Seq<u8>, i: int, o: int) -> (Seq<PlanItem>, Option<ElfError>)
    decreases e_phnum(d) - i,
{
    if i >= e_phnum(d) {
        (Seq::empty(), None)
    } else if o + e_phentsize(d) > d.len() {
        (Seq::empty(), Some(ElfError::PhdrOutOfBounds))
    } else if p_type(d, o) != PT_LOAD {
        plan_from(d, i + 1, o + e_phentsize(d))
    } else if p_offset(d, o) + p_filesz(d, o) > d.len() {
        (Seq::empty(), Some(ElfError::SegmentOutOfBounds))
    } else {
        let rest = plan_from(d, i + 1, o + e_phentsize(d));
        (segment_plan(d, o) + rest.0, rest.1)
    }
}

/// The steps of loading image `d`, and the refusal, if any.
pub open spec fn elf_plan(d: Seq<u8>) -> (Seq<PlanItem>, Option<ElfError>) {
    match header_error(d) {
        Some(e) => (Seq::empty(), Some(e)),
        None => plan_from(d, 0, e_phoff(d)),
    }
}

/// Program headers `i ..` can be walked without an arithmetic overflow or a read
/// past the end of the image.
pub open spec fn walk_sound(d: Seq<u8>, i: int, o: int) -> bool
    decreases e_phnum(d) - i,
{
    if i >= e_phnum(d) {
        true
    } else {
        &&& o + e_phentsize(d) <= u64::MAX
        &&& o + e_phentsize(d) <= d.len() ==> {
            &&& o + PHDR_SIZE <= d.len()
            &&& p_type(d, o) != PT_LOAD ==> walk_sound(d, i + 1, o + e_phentsize(d))
            &&& p_type(d, o) == PT_LOAD ==> {
                &&& p_offset(d, o) + p_filesz(d, o) <= u64::MAX
                &&& p_offset(d, o) + p_filesz(d, o) <= d.len() ==> {
                    &&& p_vaddr(d, o) + p_memsz(d, o) + 0xFFF <= u64::MAX
                    &&& walk_sound(d, i + 1, o + e_phentsize(d))
                }
            }
        }
    }
}

/// Number of pages among the steps.
pub open spec fn page_count(s: Seq<PlanItem>) -> nat
    decreases s.len(),
{
    if s.len() == 0 {
        0
    } else {
        page_count(s.drop_last()) + if s.last() is Page {
            1nat
        } else {
            0nat
        }
    }
}

/// What the caller is to do, in order.
#[derive(Clone, Copy, Debug, PartialEq, Eq, Structural)]
pub enum ElfAction {
    /// Zero frame `pa` and map `va` to it with `flags`.
    MapPage { va: u64, pa: u64, flags: u64 },
    /// Copy `file_size` bytes of the image from `file_off` to `vaddr`.
    Copy { vaddr: u64, file_off: u64, file_size: u64, mem_size: u64, p_flags: u32 },
}

/// An action carries out a step; the frame of a page is the action's own.
pub open spec fn carries_out(a: ElfAction, p: PlanItem) -> bool {
    match (a, p) {
        (ElfAction::MapPage { va, pa, flags }, PlanItem::Page { va: v, flags: f }) => va == v
            && flags == f,
        (
            ElfAction::Copy { vaddr, file_off, file_size, mem_size, p_flags },
            PlanItem::Copy {
                vaddr: v2,
                file_off: o2,
                file_size: s2,
                mem_size: m2,
                p_flags: f2,
            },
        ) => vaddr == v2 && file_off == o2 && file_size == s2 && mem_size == m2 && p_flags == f2,
        _ => false,
    }
}

/// The frames that the actions map.
pub open spec fn mapped_frames(acts: Seq<ElfAction>) -> Set<int> {
    Set::new(
        |f: int|
            exists|k: int|
                0 <= k < acts.len() && #[trigger] acts[k] is MapPage && frame_of(acts[k]->pa) == f,
    )
}

/// Page counts add up over concatenation.
pub proof fn lemma_page_count_add(a: Seq<PlanItem>, b: Seq<PlanItem>)
    ensures
        page_count(a + b) == page_count(a) + page_count(b),
    decreases b.len(),
{
    if b.len() > 0 {
        lemma_page_count_add(a, b.drop_last());
        assert((a + b).drop_last() =~= a + b.drop_last());
    } else {
        assert(a + b =~= a);
    }
}

/// The frames mapped by actions grow by one with each page mapped.
proof fn lemma_mapped_push(acts: Seq<ElfAction>, a: ElfAction)
    ensures
        mapped_frames(acts.push(a)) == (if a is MapPage {
            mapped_frames(acts).insert(frame_of(a->pa))
        } else {
            mapped_frames(acts)
        }),
{
    let n = acts.push(a);
    assert forall|f: int| mapped_frames(n).contains(f) implies (if a is MapPage {
        mapped_frames(acts).insert(frame_of(a->pa))
    } else {
        mapped_frames(acts)
    }).contains(f) by {
        let k = choose|k: int| 0 <= k < n.len() && #[trigger] n[k] is MapPage && frame_of(n[k]->pa) == f;
        if k < acts.len() {
            assert(acts[k] == n[k]);
        }
    }
    assert forall|f: int| (if a is MapPage {
        mapped_frames(acts).insert(frame_of(a->pa))
    } else {
        mapped_frames(acts)
    }).contains(f) implies mapped_frames(n).contains(f) by {
        if mapped_frames(acts).contains(f) {
            let k = choose|k: int| 0 <= k < acts.len() && #[trigger] acts[k] is MapPage && frame_of(acts[k]->pa) == f;
            assert(n[k] == acts[k]);
        } else {
            assert(n[acts.len() as int] == a);
        }
    }
    if a is MapPage {
        assert(mapped_frames(n) =~= mapped_frames(acts).insert(frame_of(a->pa)));
    } else {
        assert(mapped_frames(n) =~= mapped_frames(acts));
    }
}

/// The frame allocator's search hint after the actions, starting from `h0`: the
/// word of the last frame mapped, if any.
pub open spec fn hint_after(acts: Seq<ElfAction>, h0: int) -> int
    decreases acts.len(),
{
    if acts.len() == 0 {
        h0
    } else if acts.last() is MapPage {
        frame_of(acts.last()->pa) / 64
    } else {
        hint_after(acts.drop_last(), h0)
    }
}

/// Each frame mapped is the one that the frame allocator's next-fit search picks
/// from what is still free at that point, starting from the frames `before` and the
/// hint `h0`.
pub open spec fn frames_chosen(acts: Seq<ElfAction>, before: Set<int>, h0: int) -> bool {
    forall|k: int|
        0 <= k < acts.len() && #[trigger] acts[k] is MapPage ==> next_fit(
            before.difference(mapped_frames(acts.take(k))),
            hint_after(acts.take(k), h0),
            frame_of(acts[k]->pa),
        )
}

/// Appending an action keeps the frames chosen by next fit.
proof fn lemma_chosen_push(acts: Seq<ElfAction>, a: ElfAction, before: Set<int>, h0: int)
    requires
        frames_chosen(acts, before, h0),
        a is MapPage ==> next_fit(
            before.difference(mapped_frames(acts)),
            hint_after(acts, h0),
            frame_of(a->pa),
        ),
    ensures
        frames_chosen(acts.push(a), before, h0),
        hint_after(acts.push(a), h0) == (if a is MapPage {
            frame_of(a->pa) / 64
        } else {
            hint_after(acts, h0)
        }),
{
    let n = acts.push(a);
    assert(n.drop_last() =~= acts);
    assert(n.take(acts.len() as int) =~= acts);
    assert forall|k: int| 0 <= k < n.len() && #[trigger] n[k] is MapPage implies next_fit(
        before.difference(mapped_frames(n.take(k))),
        hint_after(n.take(k), h0),
        frame_of(n[k]->pa),
    ) by {
        if k < acts.len() {
            assert(n[k] == acts[k]);
            assert(n.take(k) =~= acts.take(k));
        }
    }
}

proof fn lemma_page_align(x: u64)
    ensures
        (x & !0xFFFu64) % 4096 == 0,
        (x & !0xFFFu64) <= x,
{
    assert((x & !0xFFFu64) % 4096 == 0 && (x & !0xFFFu64) <= x) by (bit_vector);
}

/// Checks the ELF64 image `data` and plans its loading: for each loadable segment,
/// a zeroed frame mapped at each of its pages, then the copy of its file bytes.
/// Frames come from `pmm`. Returns the entry point, or why the image was refused,
/// together with the actions taken up to that point.
#[verifier::rlimit(60)]
#[verifier::spinoff_prover]
pub fn load(data: &[u8], pmm: &mut Pmm) -> (r: (Result<LoadedElf, &'static str>, Vec<ElfAction>))
    requires
        old(pmm).wf(),
        header_error(data@) is None ==> walk_sound(data@, 0, e_phoff(data@)),
    ensures
        ({
            let items = elf_plan(data@).0;
            let refusal = elf_plan(data@).1;
            let acts = r.1@;
            let before = old(pmm).free_set();
            &&& final(pmm).wf()
            &&& final(pmm).total() == old(pmm).total()
            &&& acts.len() <= items.len()
            &&& forall|k: int| 0 <= k < acts.len() ==> carries_out(#[trigger] acts[k], items[k])
            &&& forall|k: int|
                0 <= k < acts.len() && #[trigger] acts[k] is MapPage ==> acts[k]->pa % (
                PAGE_SIZE as u64) == 0
            &&& mapped_frames(acts).subset_of(before)
            &&& mapped_frames(acts).finite()
            &&& mapped_frames(acts).len() == page_count(items.take(acts.len() as int))
            &&& final(pmm).free_set() == before.difference(mapped_frames(acts))
            &&& frames_chosen(acts, before, old(pmm).hint() as int)
            &&& final(pmm).hint() == hint_after(acts, old(pmm).hint() as int)
            &&& page_count(items) <= before.len() ==> {
                &&& acts.len() == items.len()
                &&& refusal matches Some(e) ==> (r.0 matches Err(s) && s@ == error_text(e))
                &&& refusal is None ==> (r.0 matches Ok(l) && l.entry == e_entry(data@) && l.load_bias
                    == 0)
            }
            &&& page_count(items) > before.len() ==> {
                &&& r.0 matches Err(s) && s@ == error_text(ElfError::OutOfMemory)
                &&& page_count(items.take(acts.len() as int)) == before.len()
                &&& items[acts.len() as int] is Page
            }
        }),
{
    let ghost d = data@;
    let ghost before = old(pmm).free_set();
    let mut acts: Vec<ElfAction> = Vec::new();
    proof {
        old(pmm).lemma_free_set_bounded();
        assert(mapped_frames(acts@) =~= Set::<int>::empty());
        assert(elf_plan(d).0.take(0) =~= Seq::<PlanItem>::empty());
    }
    if data.len() < EHDR_SIZE {
        return (Err("too small"), acts);
    }
    if !(data[0] == 0x7F && data[1] == 0x45 && data[2] == 0x4C && data[3] == 0x46) {
        return (Err("bad magic"), acts);
    }
    if data[4] != 2 {
        return (Err("not 64-bit"), acts);
    }
    let machine = read_u16(data, 18);
    if machine != EM_X86_64 {
        return (Err("not x86_64"), acts);
    }
    let typ = read_u16(data, 16);
    if typ != ET_EXEC && typ != ET_DYN {
        return (Err("not executable"), acts);
    }
    let entry = read_u64(data, 24);
    let phoff = read_u64(data, 32);
    let phentsize = read_u16(data, 54) as u64;
    let phnum = read_u16(data, 56) as u64;
    let ghost items = elf_plan(d).0;
    let ghost refusal = elf_plan(d).1;
    let ghost mut done: Seq<PlanItem> = Seq::empty();
    let mut off: u64 = phoff;
    let mut i: u64 = 0;
    while i < phnum
        invariant
            d == data@,
            header_error(d) is None,
            phentsize == e_phentsize(d),
            phnum == e_phnum(d),
            entry == e_entry(d),
            items == elf_plan(d).0,
            refusal == elf_plan(d).1,
            i <= phnum,
            items == done + plan_from(d, i as int, off as int).0,
            refusal == plan_from(d, i as int, off as int).1,
            walk_sound(d, i as int, off as int),
            acts@.len() == done.len(),
            forall|k: int| 0 <= k < acts@.len() ==> carries_out(#[trigger] acts@[k], done[k]),
            forall|k: int|
                0 <= k < acts@.len() && #[trigger] acts@[k] is MapPage ==> acts@[k]->pa % (
                PAGE_SIZE as u64) == 0,
            pmm.wf(),
            pmm.total() == old(pmm).total(),
            before == old(pmm).free_set(),
            before.finite(),
            mapped_frames(acts@).subset_of(before),
            mapped_frames(acts@).finite(),
            mapped_frames(acts@).len() == page_count(done),
            pmm.free_set() == before.difference(mapped_frames(acts@)),
            frames_chosen(acts@, before, old(pmm).hint() as int),
            pmm.hint() == hint_after(acts@, old(pmm).hint() as int),
        decreases phnum - i,
    {
        if off + phentsize > data.len() as u64 {
            proof {
                assert(items =~= done);
                assert(items.take(acts@.len() as int) =~= done);
                lemma_len_subset(mapped_frames(acts@), before);
            }
            return (Err("phdr out of bounds"), acts);
        }
        let o = off as usize;
        let ptype = read_u32(data, o);
        if ptype == PT_LOAD {
            let pf = read_u32(data, o + 4);
            let file_off = read_u64(data, o + 8);
            let vaddr = read_u64(data, o + 16);
            let file_size = read_u64(data, o + 32);
            let mem_size = read_u64(data, o + 40);
            if file_off + file_size > data.len() as u64 {
                proof {
                    assert(items =~= done);
                    assert(items.take(acts@.len() as int) =~= done);
                    lemma_len_subset(mapped_frames(acts@), before);
                }
                return (Err("segment out of bounds"), acts);
            }
            let page_start = vaddr & !0xFFFu64;
            let page_end = (vaddr + mem_size + 0xFFF) & !0xFFFu64;
            let fl = flags::PRESENT | flags::USER | (if pf & PF_W != 0 {
                flags::WRITABLE
            } else {
                0
            }) | (if pf & PF_X == 0 {
                flags::NX
            } else {
                0
            });
            let ghost seg = segment_plan(d, off as int);
            let ghost rest = plan_from(d, i + 1, off + phentsize);
            let ghost npages = seg_pages(d, off as int);
            proof {
                lemma_page_align(vaddr);
                lemma_page_align((vaddr + mem_size + 0xFFF) as u64);
                assert(page_start == seg_page_start(d, off as int));
                assert(page_end == seg_page_end(d, off as int));
                assert(fl == segment_flags(pf));
                assert(items == done + (seg + rest.0));
            }
            let ghost acts0 = acts@;
            let ok = map_pages(pmm, &mut acts, page_start, page_end, fl, Ghost(before), Ghost(old(pmm).hint() as int));
            proof {
                let added = acts@.len() - acts0.len();
                assert forall|j: int| 0 <= j < done.len() implies carries_out(#[trigger] acts@[j], done[j]) by {
                    assert(acts@[j] == acts0[j]);
                }
                assert forall|j: int| 0 <= j < added implies carries_out(#[trigger] acts@[done.len() + j], seg[j]) by {
                    assert(seg[j] == page_item(page_start, j, fl));
                }
                if !ok {
                    let taken = done + seg.take(added);
                    assert(items.take(acts@.len() as int) =~= taken);
                    assert forall|j: int| 0 <= j < added implies #[trigger] seg[j] is Page by {
                        assert(seg[j] == page_item(page_start, j, fl));
                    }
                    lemma_page_count_add(done, seg.take(added));
                    lemma_page_count_prefix_pages(seg, added);
                    assert(mapped_frames(acts@) =~= before) by {
                        assert forall|f: int| before.contains(f) implies mapped_frames(acts@).contains(f) by {
                            assert(!pmm.free_set().contains(f));
                        }
                    }
                    assert(items[acts@.len() as int] == seg[added]);
                    assert(seg[added] == page_item(page_start, added, fl));
                    lemma_oom_count(items, acts@.len() as int);
                    assert forall|j: int| 0 <= j < acts@.len() implies carries_out(#[trigger] acts@[j], items[j]) by {
                        if j < done.len() {
                            assert(carries_out(acts@[j], done[j]));
                        } else {
                            assert(carries_out(acts@[done.len() + (j - done.len())], seg[j - done.len()]));
                        }
                    }
                }
            }
            if !ok {
                return (Err("elf: out of memory"), acts);
            }
            let ghost old_acts = acts@;
            acts.push(
                ElfAction::Copy { vaddr, file_off, file_size, mem_size, p_flags: pf },
            );
            proof {
                lemma_mapped_push(old_acts, ElfAction::Copy { vaddr, file_off, file_size, mem_size, p_flags: pf });
                lemma_chosen_push(old_acts, ElfAction::Copy { vaddr, file_off, file_size, mem_size, p_flags: pf }, before, old(pmm).hint() as int);
                assert forall|j: int| 0 <= j < npages implies #[trigger] seg[j] is Page by {
                    assert(seg[j] == page_item(page_start, j, fl));
                }
                lemma_page_count_add(done, seg);
                lemma_segment_pages(seg, npages);
                let done2 = done + seg;
                assert forall|j: int| 0 <= j < acts@.len() implies carries_out(#[trigger] acts@[j], done2[j]) by {
                    if j < done.len() {
                        assert(acts@[j] == old_acts[j]);
                    } else if j < old_acts.len() {
                        assert(acts@[j] == old_acts[done.len() + (j - done.len())]);
                    }
                }
                done = done2;
                assert(items =~= done + rest.0);
            }
        }
        off = off + phentsize;
        i = i + 1;
    }
    proof {
        assert(items =~= done);
        assert(items.take(acts@.len() as int) =~= done);
        lemma_len_subset(mapped_frames(acts@), before);
    }
    (Ok(LoadedElf { entry, load_bias: 0 }), acts)
}

/// Maps a fresh frame at each page of `[page_start, page_end)`, stopping early
/// when no frame is left; returns whether every page got one.
fn map_pages(
    pmm: &mut Pmm,
    acts: &mut Vec<ElfAction>,
    page_start: u64,
    page_end: u64,
    fl: u64,
    Ghost(before): Ghost<Set<int>>,
    Ghost(h0): Ghost<int>,
) -> (ok: bool)
    requires
        old(pmm).wf(),
        frames_chosen(old(acts)@, before, h0),
        old(pmm).hint() == hint_after(old(acts)@, h0),
        page_start % 4096 == 0,
        page_end % 4096 == 0,
        before.finite(),
        mapped_frames(old(acts)@).subset_of(before),
        mapped_frames(old(acts)@).finite(),
        old(pmm).free_set() == before.difference(mapped_frames(old(acts)@)),
    ensures
        ({
            let n0 = old(acts)@.len();
            let added = final(acts)@.len() - n0;
            &&& final(pmm).wf()
            &&& final(pmm).total() == old(pmm).total()
            &&& 0 <= added <= pages_between(page_start, page_end)
            &&& ok ==> added == pages_between(page_start, page_end)
            &&& !ok ==> added < pages_between(page_start, page_end) && final(pmm).free_set()
                == Set::<int>::empty()
            &&& forall|j: int| 0 <= j < n0 ==> #[trigger] final(acts)@[j] == old(acts)@[j]
            &&& forall|j: int|
                0 <= j < added ==> carries_out(
                    #[trigger] final(acts)@[n0 + j],
                    page_item(page_start, j, fl),
                )
            &&& forall|j: int|
                n0 <= j < final(acts)@.len() ==> #[trigger] final(acts)@[j] is MapPage
                    && final(acts)@[j]->pa % (PAGE_SIZE as u64) == 0
            &&& mapped_frames(final(acts)@).subset_of(before)
            &&& mapped_frames(final(acts)@).finite()
            &&& mapped_frames(final(acts)@).len() == mapped_frames(old(acts)@).len() + added
            &&& final(pmm).free_set() == before.difference(mapped_frames(final(acts)@))
            &&& frames_chosen(final(acts)@, before, h0)
            &&& final(pmm).hint() == hint_after(final(acts)@, h0)
        }),
{
    let ghost n0 = acts@.len();
    let ghost m0 = mapped_frames(acts@).len();
    let mut va = page_start;
    let ghost mut k: int = 0;
    while va < page_end
        invariant
            page_start % 4096 == 0,
            page_end % 4096 == 0,
            0 <= k <= pages_between(page_start, page_end),
            va == page_start + k * 4096,
            k < pages_between(page_start, page_end) ==> va < page_end,
            k == pages_between(page_start, page_end) ==> va >= page_end,
            acts@.len() == n0 + k,
            n0 == old(acts)@.len(),
            m0 == mapped_frames(old(acts)@).len(),
            forall|j: int| 0 <= j < n0 ==> #[trigger] acts@[j] == old(acts)@[j],
            forall|j: int| 0 <= j < k ==> carries_out(#[trigger] acts@[n0 + j], page_item(page_start, j, fl)),
            forall|j: int|
                n0 <= j < acts@.len() ==> #[trigger] acts@[j] is MapPage && acts@[j]->pa % (
                PAGE_SIZE as u64) == 0,
            pmm.wf(),
            pmm.total() == old(pmm).total(),
            before.finite(),
            mapped_frames(acts@).subset_of(before),
            mapped_frames(acts@).finite(),
            mapped_frames(acts@).len() == m0 + k,
            pmm.free_set() == before.difference(mapped_frames(acts@)),
            frames_chosen(acts@, before, h0),
            pmm.hint() == hint_after(acts@, h0),
        decreases page_end - va,
    {
        match alloc_frame(pmm) {
            Some(pa) => {
                let ghost old_acts = acts@;
                acts.push(ElfAction::MapPage { va, pa, flags: fl });
                proof {
                    lemma_chosen_push(old_acts, ElfAction::MapPage { va, pa, flags: fl }, before, h0);
                    lemma_mapped_push(old_acts, ElfAction::MapPage { va, pa, flags: fl });
                    assert(pmm.free_set() =~= before.difference(mapped_frames(acts@)));
                    assert(acts@[n0 + k] == ElfAction::MapPage { va, pa, flags: fl });
                    assert forall|j: int| 0 <= j < k + 1 implies carries_out(#[trigger] acts@[n0 + j], page_item(page_start, j, fl)) by {
                        if j < k {
                            assert(acts@[n0 + j] == old_acts[n0 + j]);
                        }
                    }
                    assert forall|j: int| 0 <= j < n0 implies #[trigger] acts@[j] == old(acts)@[j] by {
                        assert(acts@[j] == old_acts[j]);
                    }
                    assert forall|j: int| n0 <= j < acts@.len() implies #[trigger] acts@[j] is MapPage && acts@[j]->pa % (
                        PAGE_SIZE as u64) == 0 by {
                        if j < old_acts.len() {
                            assert(acts@[j] == old_acts[j]);
                        }
                    }
                }
                va = va + 4096;
                proof {
                    k = k + 1;
                }
            },
            None => {
                return false;
            },
        }
    }
    true
}

/// Running out of frames after `j` steps means the plan needs more pages than were free.
proof fn lemma_oom_count(items: Seq<PlanItem>, j: int)
    requires
        0 <= j < items.len(),
        items[j] is Page,
    ensures
        page_count(items) > page_count(items.take(j)),
{
    lemma_page_count_add(items.take(j + 1), items.skip(j + 1));
    assert(items.take(j + 1) + items.skip(j + 1) =~= items);
    assert(items.take(j + 1).drop_last() =~= items.take(j));
}

/// The first `k` steps of a segment's plan are all pages.
proof fn lemma_page_count_prefix_pages(seg: Seq<PlanItem>, k: int)
    requires
        0 <= k,
        forall|j: int| 0 <= j < k ==> #[trigger] seg[j] is Page,
        k <= seg.len(),
    ensures
        page_count(seg.take(k)) == k,
    decreases k,
{
    if k > 0 {
        lemma_page_count_prefix_pages(seg, k - 1);
        assert(seg.take(k).drop_last() =~= seg.take(k - 1));
    }
}

/// A segment's plan holds `npages` pages and one copy.
proof fn lemma_segment_pages(seg: Seq<PlanItem>, npages: int)
    requires
        seg.len() == npages + 1,
        0 <= npages,
        forall|j: int| 0 <= j < npages ==> #[trigger] seg[j] is Page,
        seg[npages] is Copy,
    ensures
        page_count(seg) == npages,
{
    lemma_page_count_prefix_pages(seg, npages);
    assert(seg.drop_last() =~= seg.take(npages));
}

/// Whether `load` can walk the program headers of `data` without an arithmetic
/// overflow or a read past its end.
pub fn image_sound(data: &[u8]) -> (r: bool)
    ensures
        r == (header_error(data@) is None ==> walk_sound(data@, 0, e_phoff(data@))),
{
    if data.len() < EHDR_SIZE || !(data[0] == 0x7F && data[1] == 0x45 && data[2] == 0x4C && data[3]
        == 0x46) || data[4] != 2 || read_u16(data, 18) != EM_X86_64 || (read_u16(data, 16) != ET_EXEC
        && read_u16(data, 16) != ET_DYN) {
        return true;
    }
    let ghost d = data@;
    let phoff = read_u64(data, 32);
    let phentsize = read_u16(data, 54) as u64;
    let phnum = read_u16(data, 56) as u64;
    let len = data.len() as u64;
    let mut off: u64 = phoff;
    let mut i: u64 = 0;
    while i < phnum
        invariant
            d == data@,
            header_error(d) is None,
            phentsize == e_phentsize(d),
            phnum == e_phnum(d),
            len == d.len(),
            i <= phnum,
            walk_sound(d, 0, e_phoff(d)) == walk_sound(d, i as int, off as int),
        decreases phnum - i,
    {
        if off as u128 + phentsize as u128 > u64::MAX as u128 {
            return false;
        }
        if off + phentsize > len {
            return true;
        }
        if off as u128 + PHDR_SIZE as u128 > len as u128 {
            return false;
        }
        assert(off + PHDR_SIZE <= data.len());
        let o = off as usize;
        if read_u32(data, o) == PT_LOAD {
            let file_off = read_u64(data, o + 8);
            let vaddr = read_u64(data, o + 16);
            let file_size = read_u64(data, o + 32);
            let mem_size = read_u64(data, o + 40);
            if file_off as u128 + file_size as u128 > u64::MAX as u128 {
                return false;
            }
            if file_off + file_size > len {
                return true;
            }
            if vaddr as u128 + mem_size as u128 + 0xFFF > u64::MAX as u128 {
                return false;
            }
        }
        off = off + phentsize;
        i = i + 1;
    }
    true
}

/// The pages mapped for a segment are page-aligned and cover its memory image,
/// from its virtual address to that address plus its memory size.
pub proof fn law_segment_pages_cover(vaddr: u64, memsz: u64)
    requires
        vaddr + memsz + 0xFFF <= u64::MAX,
    ensures
        (vaddr & !0xFFFu64) % 4096 == 0,
        ((vaddr + memsz + 0xFFF) as u64 & !0xFFFu64) % 4096 == 0,
        (vaddr & !0xFFFu64) <= vaddr,
        vaddr + memsz <= ((vaddr + memsz + 0xFFF) as u64 & !0xFFFu64),
{
    let e = (vaddr + memsz + 0xFFF) as u64;
    lemma_page_align(vaddr);
    lemma_page_align(e);
    assert((e & !0xFFFu64) + 0xFFF >= e) by (bit_vector);
}

/// Page flags of a loaded segment: always present and user-accessible, writable
/// exactly when the segment has `PF_W`, not executable exactly when it lacks `PF_X`,
/// and no other bit.
pub proof fn law_segment_flags(pf: u32)
    ensures
        segment_flags(pf) & flags::PRESENT != 0,
        segment_flags(pf) & flags::USER != 0,
        (segment_flags(pf) & flags::WRITABLE != 0) == (pf & PF_W != 0),
        (segment_flags(pf) & flags::NX != 0) == (pf & PF_X == 0),
        segment_flags(pf) & !(flags::PRESENT | flags::USER | flags::WRITABLE | flags::NX) == 0,
{
    let w = pf & 2u32 != 0;
    let x = pf & 1u32 == 0;
    assert(pf & PF_W != 0 <==> w);
    assert(pf & PF_X == 0 <==> x);
    let f = 1u64 | 4u64 | (if w { 2u64 } else { 0u64 }) | (if x { 0x8000_0000_0000_0000u64 } else { 0u64 });
    assert(segment_flags(pf) == f);
    assert(f & 1u64 != 0 && f & 4u64 != 0 && (f & 2u64 != 0) == w && (f & 0x8000_0000_0000_0000u64 != 0) == x
        && f & !(1u64 | 4u64 | 2u64 | 0x8000_0000_0000_0000u64) == 0) by (bit_vector)
        requires
            f == 1u64 | 4u64 | (if w { 2u64 } else { 0u64 }) | (if x { 0x8000_0000_0000_0000u64 } else { 0u64 }),
    ;
}

/// The pages planned for a segment cover its whole memory image and nothing more
/// than the pages it touches: they start at the page holding `p_vaddr`, end at the
/// first page boundary at or after `p_vaddr + p_memsz`, and every byte of
/// `[p_vaddr, p_vaddr + p_memsz)` lies in one of the planned pages.
pub proof fn law_segment_covered(d: Seq<u8>, o: int)
    requires
        0 <= o,
        o + PHDR_SIZE <= d.len(),
        p_vaddr(d, o) + p_memsz(d, o) + 0xFFF <= u64::MAX,
    ensures
        ({
            let v = p_vaddr(d, o);
            let m = p_memsz(d, o);
            let start = seg_page_start(d, o) as int;
            let end = seg_page_end(d, o) as int;
            &&& start % 4096 == 0
            &&& start <= v < start + 4096
            &&& end % 4096 == 0
            &&& v + m <= end < v + m + 4096
            &&& seg_pages(d, o) * 4096 == end - start
            &&& forall|a: int| #![trigger (a - start) / 4096] v <= a < v + m ==> {
                let k = (a - start) / 4096;
                &&& 0 <= k < seg_pages(d, o)
                &&& segment_plan(d, o)[k] matches PlanItem::Page { va, flags: _ } && va <= a < va + 4096
            }
        }),
{
    let v = p_vaddr(d, o);
    let m = p_memsz(d, o);
    assert(0 <= m && 0 <= v) by {
        assert(forall|i: int| 0 <= i < d.len() ==> 0 <= #[trigger] d[i]);
    }
    let vv = v as u64;
    let e = (v + m + 0xFFF) as u64;
    assert(vv == v);
    assert(e == v + m + 0xFFF);
    assert((vv & !0xFFFu64) % 4096 == 0 && (vv & !0xFFFu64) <= vv && vv < (vv & !0xFFFu64) + 4096) by (bit_vector);
    assert((e & !0xFFFu64) % 4096 == 0 && (e & !0xFFFu64) <= e && e < (e & !0xFFFu64) + 4096) by (bit_vector);
    let start = seg_page_start(d, o) as int;
    let end = seg_page_end(d, o) as int;
    assert(start == (vv & !0xFFFu64));
    assert(end == (e & !0xFFFu64));
    assert(start <= end);
    let n = (end - start) / 4096;
    assert((end - start) % 4096 == 0) by {
        vstd::arithmetic::div_mod::lemma_sub_mod_noop(end, start, 4096);
    }
    assert(n * 4096 == end - start) by {
        vstd::arithmetic::div_mod::lemma_fundamental_div_mod(end - start, 4096);
    }
    assert(seg_pages(d, o) == n);
    let fl = segment_flags(p_flags(d, o) as u32);
    assert forall|a: int| #![trigger (a - start) / 4096] v <= a < v + m implies {
        let k = (a - start) / 4096;
        &&& 0 <= k < seg_pages(d, o)
        &&& segment_plan(d, o)[k] matches PlanItem::Page { va, flags: _ } && va <= a < va + 4096
    } by {
        let k = (a - start) / 4096;
        vstd::arithmetic::div_mod::lemma_fundamental_div_mod(a - start, 4096);
        assert(0 <= k);
        assert(k * 4096 <= a - start < k * 4096 + 4096);
        assert(k < n) by (nonlinear_arith)
            requires
                k * 4096 <= a - start,
                a - start < n * 4096,
        ;
        assert(start + k * 4096 <= u64::MAX) by (nonlinear_arith)
            requires
                k < n,
                n * 4096 == end - start,
                end <= u64::MAX,
                start >= 0,
        ;
        assert(segment_plan(d, o)[k] == page_item(seg_page_start(d, o), k, fl));
    }
}

} // verus!
