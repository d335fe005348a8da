//! Kernel heap: where it lives, which allocator serves a request, and the
//! frames that back it.
use vstd::prelude::*;
use vstd::set_lib::*;
use crate::pmm::{Pmm, PAGE_SIZE, alloc_frame, frame_of, next_fit};

verus! {

pub const HEAP_START: u64 = 0xFFFF_C000_0000_0000;

pub const HEAP_SIZE: u64 = 8388608;

/// Number of pages the heap spans.
pub const HEAP_PAGES: usize = 2048;

/// Largest request that the slab allocator serves.
pub const SLAB_MAX: usize = 2048;

/// Requests up to `SLAB_MAX` bytes go to the slab allocator first; larger ones
/// and those the slab allocator cannot serve go to the linked-list heap.
pub fn uses_slab(size: usize) -> (r: bool)
    ensures
        r == (size <= SLAB_MAX),
{
    size <= SLAB_MAX
}

/// A heap page to map: virtual address and the frame behind it.
pub struct HeapPage {
    pub va: u64,
    pub pa: u64,
}

/// Frames behind the first `n` heap pages.
pub open spec fn frames_taken(pages: Seq<HeapPage>, n: int) -> Set<int> {
    Set::new(|f: int| exists|j: int| 0 <= j < n && frame_of(#[trigger] pages[j].pa) == f)
}

/// The frame allocator's search hint when heap page `i` gets its frame, starting
/// from `h0`: the word of the frame taken just before.
pub open spec fn hint_before(pages: Seq<HeapPage>, i: int, h0: int) -> int {
    if i == 0 {
        h0
    } else {
        frame_of(pages[i - 1].pa) / 64
    }
}

/// Sequences that agree on their first `n` pages took the same frames for them.
proof fn lemma_taken_prefix(a: Seq<HeapPage>, b: Seq<HeapPage>, n: int)
    requires
        0 <= n <= a.len(),
        n <= b.len(),
        forall|j: int| 0 <= j < n ==> a[j] == b[j],
    ensures
        frames_taken(a, n) == frames_taken(b, n),
{
    assert forall|f: int| frames_taken(a, n).contains(f) implies frames_taken(b, n).contains(f) by {
        let j = choose|j: int| 0 <= j < n && frame_of(#[trigger] a[j].pa) == f;
        assert(b[j] == a[j]);
    }
    assert forall|f: int| frames_taken(b, n).contains(f) implies frames_taken(a, n).contains(f) by {
        let j = choose|j: int| 0 <= j < n && frame_of(#[trigger] b[j].pa) == f;
        assert(b[j] == a[j]);
    }
    assert(frames_taken(a, n) =~= frames_taken(b, n));
}

/// Takes one frame for each heap page, in order, until the frames run out.
/// Returns the pages the caller maps; fewer than `HEAP_PAGES` means physical
/// memory ran out.
pub fn init(pmm: &mut Pmm) -> (pages: Vec<HeapPage>)
    requires
        old(pmm).wf(),
    ensures
        final(pmm).wf(),
        final(pmm).total() == old(pmm).total(),
        pages@.len() == (if old(pmm).free_set().len() >= HEAP_PAGES {
            HEAP_PAGES as int
        } else {
            old(pmm).free_set().len() as int
        }),
        forall|i: int| 0 <= i < pages@.len() ==> (#[trigger] pages@[i]).va == HEAP_START + i * PAGE_SIZE,
        forall|i: int|
            0 <= i < pages@.len() ==> (#[trigger] pages@[i]).pa % (PAGE_SIZE as u64) == 0
                && old(pmm).free_set().contains(frame_of(pages@[i].pa)),
        forall|i: int, j: int|
            0 <= i < j < pages@.len() ==> frame_of(#[trigger] pages@[i].pa) != frame_of(
                #[trigger] pages@[j].pa,
            ),
        final(pmm).free_set() == old(pmm).free_set().difference(
            Set::new(|f: int| exists|i: int| 0 <= i < pages@.len() && frame_of(#[trigger] pages@[i].pa) == f),
        ),
        forall|i: int|
            0 <= i < pages@.len() ==> next_fit(
                old(pmm).free_set().difference(frames_taken(pages@, i)),
                hint_before(pages@, i, old(pmm).hint() as int),
                frame_of(#[trigger] pages@[i].pa),
            ),
        final(pmm).hint() == hint_before(pages@, pages@.len() as int, old(pmm).hint() as int),
{
    let ghost before = old(pmm).free_set();
    let mut pages: Vec<HeapPage> = Vec::new();
    let mut i: usize = 0;
    proof {
        old(pmm).lemma_free_set_bounded();
        assert(pmm.free_set() =~= before.difference(
            Set::new(|f: int| exists|j: int| 0 <= j < 0 && frame_of(#[trigger] pages@[j].pa) == f),
        ));
    }
    while i < HEAP_PAGES
        invariant
            i <= HEAP_PAGES,
            pages@.len() == i,
            pmm.wf(),
            pmm.total() == old(pmm).total(),
            before == old(pmm).free_set(),
            before.finite(),
            forall|j: int| 0 <= j < i ==> (#[trigger] pages@[j]).va == HEAP_START + j * PAGE_SIZE,
            forall|j: int|
                0 <= j < i ==> (#[trigger] pages@[j]).pa % (PAGE_SIZE as u64) == 0 && before.contains(
                    frame_of(pages@[j].pa),
                ),
            forall|j: int, k: int|
                0 <= j < k < i ==> frame_of(#[trigger] pages@[j].pa) != frame_of(#[trigger] pages@[k].pa),
            pmm.free_set() == before.difference(
                Set::new(|f: int| exists|j: int| 0 <= j < i && frame_of(#[trigger] pages@[j].pa) == f),
            ),
            pmm.free_set().len() == before.len() - i,
            forall|j: int|
                0 <= j < i ==> next_fit(
                    before.difference(frames_taken(pages@, j)),
                    hint_before(pages@, j, old(pmm).hint() as int),
                    frame_of(#[trigger] pages@[j].pa),
                ),
            pmm.hint() == hint_before(pages@, i as int, old(pmm).hint() as int),
        decreases HEAP_PAGES - i,
    {
        proof {
            pmm.lemma_free_set_bounded();
        }
        let pa = match alloc_frame(pmm) {
            Some(p) => p,
            None => {
                proof {
                    assert(pmm.free_set().len() == 0);
                    assert(Set::new(|f: int| exists|j: int| 0 <= j < pages@.len() && frame_of(#[trigger] pages@[j].pa) == f)
                        =~= Set::new(|f: int| exists|j: int| 0 <= j < i && frame_of(#[trigger] pages@[j].pa) == f));
                }
                return pages;
            },
        };
        let va = HEAP_START + (i * PAGE_SIZE) as u64;
        let ghost old_pages = pages@;
        pages.push(HeapPage { va, pa });
        proof {
            let taken_old = Set::new(|f: int| exists|j: int| 0 <= j < i && frame_of(#[trigger] old_pages[j].pa) == f);
            let taken_new = Set::new(|f: int| exists|j: int| 0 <= j < i + 1 && frame_of(#[trigger] pages@[j].pa) == f);
            assert forall|j: int| 0 <= j < i implies #[trigger] pages@[j] == old_pages[j] by {}
            assert(taken_new =~= taken_old.insert(frame_of(pa))) by {
                assert forall|f: int| taken_new.contains(f) implies taken_old.insert(frame_of(pa)).contains(f) by {
                    let j = choose|j: int| 0 <= j < i + 1 && frame_of(#[trigger] pages@[j].pa) == f;
                    if j < i {
                        assert(pages@[j] == old_pages[j]);
                    }
                }
                assert forall|f: int| taken_old.insert(frame_of(pa)).contains(f) implies taken_new.contains(f) by {
                    if taken_old.contains(f) {
                        let j = choose|j: int| 0 <= j < i && frame_of(#[trigger] old_pages[j].pa) == f;
                        assert(pages@[j] == old_pages[j]);
                    } else {
                        assert(pages@[i as int].pa == pa);
                    }
                }
            }
            assert(pmm.free_set() =~= before.difference(taken_new));
            let h0 = old(pmm).hint() as int;
            assert forall|j: int| 0 <= j < i + 1 implies next_fit(
                before.difference(frames_taken(pages@, j)),
                hint_before(pages@, j, h0),
                frame_of(#[trigger] pages@[j].pa),
            ) by {
                lemma_taken_prefix(pages@, old_pages, j);
                if j < i {
                    assert(pages@[j] == old_pages[j]);
                    if j > 0 {
                        assert(pages@[j - 1] == old_pages[j - 1]);
                    }
                } else {
                    assert(frames_taken(old_pages, i as int) == taken_old);
                    if i > 0 {
                        assert(pages@[i - 1] == old_pages[i - 1]);
                    }
                }
            }
            assert forall|j: int, k: int| 0 <= j < k < i + 1 implies frame_of(#[trigger] pages@[j].pa)
                != frame_of(#[trigger] pages@[k].pa) by {
                if k == i {
                    assert(pages@[j] == old_pages[j]);
                    assert(taken_old.contains(frame_of(old_pages[j].pa)));
                }
            }
        }
        i = i + 1;
    }
    proof {
        assert(Set::new(|f: int| exists|j: int| 0 <= j < pages@.len() && frame_of(#[trigger] pages@[j].pa) == f)
            =~= Set::new(|f: int| exists|j: int| 0 <= j < i && frame_of(#[trigger] pages@[j].pa) == f));
    }
    pages
}

} // verus!
