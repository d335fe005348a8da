//! Physical memory manager: a bitmap of 4 KiB frames, one bit per frame,
//! a set bit meaning the frame is in use.
use vstd::prelude::*;
use vstd::set_lib::*;
use crate::bits::{bit_of, lemma_all_ones, lemma_set_bit, lemma_clear_bit, lemma_test_bit, lemma_trailing_ones};

verus! {

pub const PAGE_SIZE: usize = 4096;

/// Highest number of frames the bitmap covers (4 GiB of physical memory).
pub const MAX_FRAMES: usize = 1048576;

/// Number of 64-bit words in the bitmap.
pub const BITMAP_LEN: usize = 16384;

pub struct Pmm {
    bitmap: Vec<u64>,
    total_frames: usize,
    free_frames: usize,
    last_alloc: usize,
}

/// The frames whose bit is clear in `bitmap`.
pub closed spec fn free_frames_of(bitmap: Seq<u64>) -> Set<int> {
    Set::new(|f: int| 0 <= f < MAX_FRAMES && !bit_of(bitmap[f / 64], f % 64))
}

/// The frame that holds physical address `a`.
pub open spec fn frame_of(a: u64) -> int {
    a as int / PAGE_SIZE as int
}

/// No frame of bitmap word `w` is in `free`.
pub open spec fn word_full(free: Set<int>, w: int) -> bool {
    forall|b: int| 0 <= b < 64 ==> !#[trigger] free.contains(w * 64 + b)
}

/// `f` is the frame that a search through the bitmap words, starting at word
/// `start` and wrapping around, takes first: the lowest free frame of the first
/// word that holds one.
pub open spec fn next_fit(free: Set<int>, start: int, f: int) -> bool {
    let w = f / 64;
    &&& free.contains(f)
    &&& forall|j: int|
        0 <= j < (w - start) % (BITMAP_LEN as int) ==> #[trigger] word_full(
            free,
            (start + j) % (BITMAP_LEN as int),
        )
    &&& forall|b: int| 0 <= b < f % 64 ==> !#[trigger] free.contains(w * 64 + b)
}

/// Frames `s .. s + n` are all in `free`.
pub open spec fn run_free(free: Set<int>, s: int, n: int) -> bool {
    forall|k: int| s <= k < s + n ==> #[trigger] free.contains(k)
}

/// Some run of `n > 0` consecutive frames is free.
pub open spec fn has_run(free: Set<int>, n: int) -> bool {
    n > 0 && exists|s: int| 0 <= s && #[trigger] run_free(free, s, n)
}

/// `s` is the lowest frame that starts a free run of `n > 0` frames.
pub open spec fn first_run(free: Set<int>, n: int, s: int) -> bool {
    &&& n > 0
    &&& 0 <= s
    &&& run_free(free, s, n)
    &&& forall|t: int| 0 <= t < s ==> !#[trigger] run_free(free, t, n)
}

/// One entry of the multiboot2 memory map.
#[derive(Clone, Copy)]
pub struct MmapEntry {
    pub base: u64,
    pub len: u64,
    pub typ: u32,
    pub attr: u32,
}

/// Type of a memory map entry that describes available RAM.
pub const MMAP_AVAILABLE: u32 = 1;

/// First whole frame of an entry (its base rounded up to a frame).
pub open spec fn entry_start(e: MmapEntry) -> int {
    (e.base as int + PAGE_SIZE as int - 1) / PAGE_SIZE as int
}

/// End of the last whole frame of an entry (exclusive).
pub open spec fn entry_end(e: MmapEntry) -> int {
    (e.base as int + e.len as int) / PAGE_SIZE as int
}

/// Number of frames that an entry contributes to the frame total.
pub open spec fn entry_frames(e: MmapEntry) -> int {
    if e.typ == MMAP_AVAILABLE && entry_start(e) < entry_end(e) {
        entry_end(e) - entry_start(e)
    } else {
        0
    }
}

/// Frames contributed by the first `k` entries.
pub open spec fn frames_upto(entries: Seq<MmapEntry>, k: int) -> int
    decreases k,
{
    if k <= 0 {
        0
    } else {
        frames_upto(entries, k - 1) + entry_frames(entries[k - 1])
    }
}

/// Frame `f` lies in available RAM described by one of the first `k` entries.
pub open spec fn available_upto(entries: Seq<MmapEntry>, k: int, f: int) -> bool {
    exists|i: int|
        0 <= i < k && #[trigger] entries[i].typ == MMAP_AVAILABLE && entry_start(entries[i]) <= f
            < entry_end(entries[i])
}

/// Frames that stay reserved whatever the memory map says: frame 0 and the
/// kernel image at 1 MiB .. 4 MiB.
pub open spec fn reserved_frame(f: int) -> bool {
    f == 0 || 0x100 <= f < 0x400
}

/// The free set that `init` leaves, given the free set before it.
pub open spec fn free_after_init(before: Set<int>, entries: Seq<MmapEntry>) -> Set<int> {
    Set::new(
        |f: int|
            (before.contains(f) || (0 <= f < MAX_FRAMES && available_upto(
                entries,
                entries.len() as int,
                f,
            ))) && !reserved_frame(f),
    )
}

/// The frames `[lo, hi)` that a free set may hold.
pub open spec fn frame_range() -> Set<int> {
    set_int_range(0, MAX_FRAMES as int)
}

impl Pmm {
    /// The frames that the allocator may hand out.
    pub closed spec fn free_set(&self) -> Set<int> {
        free_frames_of(self.bitmap@)
    }

    /// Number of frames counted as available RAM by the last `init`.
    pub closed spec fn total(&self) -> nat {
        self.total_frames as nat
    }

    /// Word at which the next search for a free frame starts.
    pub closed spec fn hint(&self) -> nat {
        self.last_alloc as nat
    }

    pub closed spec fn wf(&self) -> bool {
        &&& self.bitmap@.len() == BITMAP_LEN
        &&& self.last_alloc < BITMAP_LEN
        &&& self.free_frames == self.free_set().len()
    }

    /// The free set is a finite set of frames below `MAX_FRAMES`.
    pub proof fn lemma_free_set_bounded(&self)
        ensures
            self.free_set().finite(),
            self.free_set().len() <= MAX_FRAMES,
            self.free_set().subset_of(frame_range()),
    {
        lemma_int_range(0, MAX_FRAMES as int);
        lemma_len_subset(self.free_set(), frame_range());
    }

    /// An allocator with every frame marked in use.
    pub fn new() -> (p: Self)
        ensures
            p.wf(),
            p.free_set() == Set::<int>::empty(),
            p.total() == 0,
            p.hint() == 0,
    {
        let mut bitmap: Vec<u64> = Vec::new();
        while bitmap.len() < BITMAP_LEN
            invariant
                bitmap.len() <= BITMAP_LEN,
                forall|i: int| 0 <= i < bitmap.len() ==> bitmap@[i] == u64::MAX,
            decreases BITMAP_LEN - bitmap.len(),
        {
            bitmap.push(u64::MAX);
        }
        let p = Pmm { bitmap, total_frames: 0, free_frames: 0, last_alloc: 0 };
        assert(p.free_set() =~= Set::<int>::empty()) by {
            assert forall|f: int| 0 <= f < MAX_FRAMES implies #[trigger] bit_of(p.bitmap@[f / 64], f % 64) by {
                lemma_all_ones((f % 64) as u64);
            }
        }
        p
    }

    /// Changing the bit of `frame` to `set` changes only that frame's membership.
    proof fn lemma_flip(a: &Pmm, b: &Pmm, frame: int, set: bool)
        requires
            a.bitmap@.len() == BITMAP_LEN,
            0 <= frame < MAX_FRAMES,
            b.bitmap@ == a.bitmap@.update(
                frame / 64,
                if set {
                    a.bitmap@[frame / 64] | (1u64 << ((frame % 64) as u64))
                } else {
                    a.bitmap@[frame / 64] & !(1u64 << ((frame % 64) as u64))
                },
            ),
        ensures
            b.free_set() == (if set {
                a.free_set().remove(frame)
            } else {
                a.free_set().insert(frame)
            }),
    {
        let w = a.bitmap@[frame / 64];
        let bit = (frame % 64) as u64;
        assert forall|g: int| 0 <= g < MAX_FRAMES implies #[trigger] bit_of(b.bitmap@[g / 64], g % 64) == (
        if g == frame {
            set
        } else {
            bit_of(a.bitmap@[g / 64], g % 64)
        }) by {
            if g / 64 == frame / 64 {
                let c = (g % 64) as u64;
                if set {
                    lemma_set_bit(w, bit, c);
                } else {
                    lemma_clear_bit(w, bit, c);
                }
            }
        }
        if set {
            assert(b.free_set() =~= a.free_set().remove(frame));
        } else {
            assert(b.free_set() =~= a.free_set().insert(frame));
        }
    }

    /// Marks `frame` free; frames past the end of the bitmap are ignored.
    pub fn mark_free(&mut self, frame: usize)
        requires
            old(self).wf(),
        ensures
            final(self).wf(),
            final(self).free_set() == (if frame < MAX_FRAMES {
                old(self).free_set().insert(frame as int)
            } else {
                old(self).free_set()
            }),
            final(self).total() == old(self).total(),
            final(self).hint() == old(self).hint(),
    {
        if frame >= MAX_FRAMES {
            return;
        }
        let word = frame / 64;
        let bit = frame % 64;
        let w = self.bitmap[word];
        proof {
            lemma_test_bit(w, bit as u64);
        }
        if w & (1u64 << (bit as u64)) != 0 {
            self.bitmap[word] = w & !(1u64 << (bit as u64));
            proof {
                old(self).lemma_free_set_bounded();
                assert(!old(self).free_set().contains(frame as int));
                Pmm::lemma_flip(old(self), self, frame as int, false);
                self.lemma_free_set_bounded();
            }
            self.free_frames = self.free_frames + 1;

        } else {
            assert(old(self).free_set().insert(frame as int) =~= old(self).free_set());
        }
    }

    /// Marks `frame` in use; frames past the end of the bitmap are ignored.
    pub fn mark_used(&mut self, frame: usize)
        requires
            old(self).wf(),
        ensures
            final(self).wf(),
            final(self).free_set() == (if frame < MAX_FRAMES {
                old(self).free_set().remove(frame as int)
            } else {
                old(self).free_set()
            }),
            final(self).total() == old(self).total(),
            final(self).hint() == old(self).hint(),
    {
        if frame >= MAX_FRAMES {
            return;
        }
        let word = frame / 64;
        let bit = frame % 64;
        let w = self.bitmap[word];
        proof {
            lemma_test_bit(w, bit as u64);
        }
        if w & (1u64 << (bit as u64)) == 0 {
            proof {
                old(self).lemma_free_set_bounded();
                assert(old(self).free_set().contains(frame as int));
            }
            self.bitmap[word] = w | (1u64 << (bit as u64));
            proof {
                Pmm::lemma_flip(old(self), self, frame as int, true);
            }
            self.free_frames = self.free_frames - 1;
        } else {
            assert(old(self).free_set().remove(frame as int) =~= old(self).free_set());
        }
    }

    /// Allocates one frame: the next-fit choice starting at the hint word.
    pub fn alloc_next(&mut self) -> (r: Option<u64>)
        requires
            old(self).wf(),
        ensures
            final(self).wf(),
            final(self).total() == old(self).total(),
            r is None <==> old(self).free_set() == Set::<int>::empty(),
            r is None ==> final(self).free_set() == old(self).free_set() && final(self).hint()
                == old(self).hint(),
            r matches Some(a) ==> {
                &&& a % (PAGE_SIZE as u64) == 0
                &&& next_fit(old(self).free_set(), old(self).hint() as int, frame_of(a))
                &&& final(self).free_set() == old(self).free_set().remove(frame_of(a))
                &&& final(self).hint() == frame_of(a) / 64
            },
    {
        let start = self.last_alloc;
        let len = self.bitmap.len();
        let ghost free = old(self).free_set();
        let mut i: usize = 0;
        while i < len
            invariant
                *self == *old(self),
                self.wf(),
                free == self.free_set(),
                len == BITMAP_LEN,
                start == self.last_alloc,
                i <= len,
                forall|j: int|
                    0 <= j < i ==> #[trigger] word_full(free, (start + j) % (BITMAP_LEN as int)),
            decreases len - i,
        {
            let idx = (start + i) % len;
            let word = self.bitmap[idx];
            if word != u64::MAX {
                let bit = word.trailing_ones() as usize;
                proof {
                    lemma_trailing_ones(word);
                }
                let frame = idx * 64 + bit;
                proof {
                    assert(frame as int / 64 == idx as int);
                    assert(frame as int % 64 == bit as int);
                    assert(free.contains(frame as int));
                    assert(((idx as int) - start) % (BITMAP_LEN as int) == i as int);
                    assert forall|b: int| 0 <= b < bit implies !#[trigger] free.contains(
                        idx * 64 + b,
                    ) by {
                        assert((idx * 64 + b) / 64 == idx as int);
                        assert((idx * 64 + b) % 64 == b);
                    }
                    self.lemma_free_set_bounded();
                }
                self.bitmap[idx] = word | (1u64 << (bit as u64));
                proof {
                    Pmm::lemma_flip(old(self), self, frame as int, true);
                }
                self.free_frames = self.free_frames - 1;
                self.last_alloc = idx;
                let a = (frame * PAGE_SIZE) as u64;
                assert(frame_of(a) == frame as int);
                return Some(a);
            }
            proof {
                assert forall|b: int| 0 <= b < 64 implies !#[trigger] free.contains(idx * 64 + b) by {
                    assert((idx * 64 + b) / 64 == idx as int);
                    assert((idx * 64 + b) % 64 == b);
                    lemma_all_ones(b as u64);
                }
                assert(word_full(free, (start + i) % (BITMAP_LEN as int)));
            }
            i = i + 1;
        }
        proof {
            assert forall|f: int| !free.contains(f) by {
                if free.contains(f) {
                    let w = f / 64;
                    let j = (w - start) % (BITMAP_LEN as int);
                    assert((start + j) % (BITMAP_LEN as int) == w);
                    assert(word_full(free, (start + j) % (BITMAP_LEN as int)));
                    assert(w * 64 + f % 64 == f);
                    assert(!free.contains(w * 64 + f % 64));
                }
            }
            assert(free =~= Set::<int>::empty());
        }
        None
    }

    /// Returns the frame holding physical address `phys` to the pool.
    pub fn free(&mut self, phys: u64)
        requires
            old(self).wf(),
        ensures
            final(self).wf(),
            final(self).free_set() == (if frame_of(phys) < MAX_FRAMES {
                old(self).free_set().insert(frame_of(phys))
            } else {
                old(self).free_set()
            }),
            final(self).total() == old(self).total(),
            final(self).hint() == old(self).hint(),
    {
        let frame = phys / (PAGE_SIZE as u64);
        if frame < MAX_FRAMES as u64 {
            self.mark_free(frame as usize);
        }
    }

    /// Allocates `n` contiguous frames: the lowest run of `n` free frames.
    pub fn alloc_contig(&mut self, n: usize) -> (r: Option<u64>)
        requires
            old(self).wf(),
        ensures
            final(self).wf(),
            final(self).total() == old(self).total(),
            final(self).hint() == old(self).hint(),
            r is None <==> !has_run(old(self).free_set(), n as int),
            r is None ==> final(self).free_set() == old(self).free_set(),
            r matches Some(a) ==> {
                &&& a % (PAGE_SIZE as u64) == 0
                &&& first_run(old(self).free_set(), n as int, frame_of(a))
                &&& final(self).free_set() == old(self).free_set().difference(
                    set_int_range(frame_of(a), frame_of(a) + n),
                )
            },
    {
        let ghost free = old(self).free_set();
        let mut run: usize = 0;
        let mut start_frame: usize = 0;
        let mut i: usize = 0;
        while i < MAX_FRAMES
            invariant
                *self == *old(self),
                self.wf(),
                free == self.free_set(),
                run <= i <= MAX_FRAMES,
                run > 0 ==> start_frame == i - run,
                run_free(free, i - run, run as int),
                i - run == 0 || !free.contains(i - run - 1),
                n > 0 ==> run < n,
                n > 0 ==> forall|t: int| 0 <= t && t + n <= i ==> !#[trigger] run_free(free, t, n as int),
            decreases MAX_FRAMES - i,
        {
            let word = self.bitmap[i / 64];
            let bit = i % 64;
            proof {
                lemma_test_bit(word, bit as u64);
            }
            if word & (1u64 << (bit as u64)) == 0 {
                assert(free.contains(i as int));
                if run == 0 {
                    start_frame = i;
                }
                run = run + 1;
                if run == n {
                    let ghost s = start_frame as int;
                    proof {
                        assert(run_free(free, s, n as int));
                        assert forall|t: int| 0 <= t < s implies !#[trigger] run_free(free, t, n as int) by {
                            assert(t + n <= i);
                        }
                        assert(first_run(free, n as int, s));
                    }
                    let mut f = start_frame;
                    while f < start_frame + n
                        invariant
                            self.wf(),
                            s + n <= MAX_FRAMES,
                            start_frame == s,
                            s <= f <= s + n,
                            run_free(free, s, n as int),
                            self.free_set() == free.difference(set_int_range(s, f as int)),
                            self.total() == old(self).total(),
                            self.hint() == old(self).hint(),
                        decreases s + n - f,
                    {
                        self.mark_used(f);
                        assert(self.free_set() =~= free.difference(set_int_range(s, f + 1)));
                        f = f + 1;
                    }
                    let a = (start_frame * PAGE_SIZE) as u64;
                    assert(frame_of(a) == s);
                    return Some(a);
                }
                proof {
                    if n > 0 {
                        assert forall|t: int| 0 <= t && t + n <= i + 1 implies !#[trigger] run_free(
                            free,
                            t,
                            n as int,
                        ) by {
                            if t + n == i + 1 {
                                assert(t <= i - (run - 1) - 1);
                                assert(!free.contains(i - (run - 1) - 1));
                            }
                        }
                    }
                }
            } else {
                proof {
                    assert(!free.contains(i as int));
                    if n > 0 {
                        assert forall|t: int| 0 <= t && t + n <= i + 1 implies !#[trigger] run_free(
                            free,
                            t,
                            n as int,
                        ) by {
                            if t + n == i + 1 {
                                assert(!free.contains(i as int));
                            }
                        }
                    }
                }
                run = 0;
            }
            i = i + 1;
        }
        proof {
            if has_run(free, n as int) {
                let s = choose|s: int| 0 <= s && #[trigger] run_free(free, s, n as int);
                assert(free.contains(s + n - 1));
                assert(s + n <= MAX_FRAMES);
            }
        }
        None
    }
}

/// Builds the free set from the memory map: every whole frame of available RAM
/// is marked free, and frame 0 and the kernel frames are marked used again.
pub fn init(pmm: &mut Pmm, entries: &[MmapEntry])
    requires
        old(pmm).wf(),
        forall|i: int|
            0 <= i < entries.len() ==> entries[i].base as int + entries[i].len as int <= u64::MAX,
        frames_upto(entries@, entries.len() as int) <= usize::MAX,
    ensures
        final(pmm).wf(),
        final(pmm).free_set() == free_after_init(old(pmm).free_set(), entries@),
        final(pmm).total() == frames_upto(entries@, entries.len() as int),
        final(pmm).hint() == old(pmm).hint(),
{
    let ghost before = old(pmm).free_set();
    pmm.total_frames = 0;
    let mut k: usize = 0;
    while k < entries.len()
        invariant
            pmm.wf(),
            k <= entries.len(),
            forall|i: int|
                0 <= i < entries.len() ==> entries[i].base as int + entries[i].len as int
                    <= u64::MAX,
            frames_upto(entries@, entries.len() as int) <= usize::MAX,
            pmm.total() == frames_upto(entries@, k as int),
            pmm.hint() == old(pmm).hint(),
            forall|f: int|
                #![trigger pmm.free_set().contains(f)]
                pmm.free_set().contains(f) <==> (before.contains(f) || (0 <= f < MAX_FRAMES
                    && available_upto(entries@, k as int, f))),
        decreases entries.len() - k,
    {
        let e = entries[k];
        proof {
            lemma_frames_upto_mono(entries@, k as int + 1, entries.len() as int);
        }
        if e.typ == MMAP_AVAILABLE {
            let start = e.base / (PAGE_SIZE as u64) + if e.base % (PAGE_SIZE as u64) != 0 {
                1u64
            } else {
                0u64
            };
            let end = (e.base + e.len) / (PAGE_SIZE as u64);
            assert(start == entry_start(e));
            let ghost total0 = pmm.total() as int;
            let ghost free0 = pmm.free_set();
            let mut frame = start;
            while frame < end
                invariant
                    pmm.wf(),
                    start <= end ==> start <= frame <= end,
                    start > end ==> frame == start,
                    start == entry_start(e),
                    end == entry_end(e),
                    e.typ == MMAP_AVAILABLE,
                    total0 + entry_frames(e) <= usize::MAX,
                    pmm.total() == total0 + frame - start,
                    pmm.hint() == old(pmm).hint(),
                    forall|f: int|
                        #![trigger pmm.free_set().contains(f)]
                        pmm.free_set().contains(f) <==> (free0.contains(f) || (0 <= f < MAX_FRAMES
                            && start <= f < frame)),
                decreases end - frame,
            {
                if frame < MAX_FRAMES as u64 {
                    pmm.mark_free(frame as usize);
                }
                pmm.total_frames = pmm.total_frames + 1;
                frame = frame + 1;
            }
            proof {
                assert forall|f: int| #![trigger pmm.free_set().contains(f)]
                    pmm.free_set().contains(f) <==> (before.contains(f) || (0 <= f < MAX_FRAMES
                        && available_upto(entries@, k + 1, f))) by {
                    if 0 <= f < MAX_FRAMES && start <= f < end {
                        assert(entries@[k as int].typ == MMAP_AVAILABLE);
                        assert(available_upto(entries@, k + 1, f));
                    }
                    if available_upto(entries@, k + 1, f) && !available_upto(entries@, k as int, f) {
                        let i = choose|i: int|
                            0 <= i < k + 1 && #[trigger] entries@[i].typ == MMAP_AVAILABLE
                                && entry_start(entries@[i]) <= f < entry_end(entries@[i]);
                        assert(i == k);
                    }
                }
            }
        } else {
            proof {
                assert forall|f: int| #![trigger pmm.free_set().contains(f)]
                    pmm.free_set().contains(f) <==> (before.contains(f) || (0 <= f < MAX_FRAMES
                        && available_upto(entries@, k + 1, f))) by {
                    if available_upto(entries@, k + 1, f) && !available_upto(entries@, k as int, f) {
                        let i = choose|i: int|
                            0 <= i < k + 1 && #[trigger] entries@[i].typ == MMAP_AVAILABLE
                                && entry_start(entries@[i]) <= f < entry_end(entries@[i]);
                        assert(i == k);
                    }
                }
            }
        }
        k = k + 1;
    }
    pmm.mark_used(0);
    let mut frame: usize = 0x100;
    while frame < 0x400
        invariant
            pmm.wf(),
            0x100 <= frame <= 0x400,
            pmm.total() == frames_upto(entries@, entries.len() as int),
            pmm.hint() == old(pmm).hint(),
            forall|f: int|
                #![trigger pmm.free_set().contains(f)]
                pmm.free_set().contains(f) <==> (before.contains(f) || (0 <= f < MAX_FRAMES
                    && available_upto(entries@, entries.len() as int, f))) && f != 0 && !(0x100
                    <= f < frame),
        decreases 0x400 - frame,
    {
        pmm.mark_used(frame);
        frame = frame + 1;
    }
    assert(pmm.free_set() =~= free_after_init(before, entries@));
}

/// Frame counts only grow along the memory map.
proof fn lemma_frames_upto_mono(entries: Seq<MmapEntry>, j: int, k: int)
    requires
        0 <= j <= k,
    ensures
        frames_upto(entries, j) <= frames_upto(entries, k),
    decreases k - j,
{
    if j < k {
        lemma_frames_upto_mono(entries, j, k - 1);
    }
}

/// Allocates one 4 KiB frame and returns its physical address.
pub fn alloc_frame(pmm: &mut Pmm) -> (r: Option<u64>)
    requires
        old(pmm).wf(),
    ensures
        final(pmm).wf(),
        final(pmm).total() == old(pmm).total(),
        r is None <==> old(pmm).free_set() == Set::<int>::empty(),
        r is None ==> final(pmm).free_set() == old(pmm).free_set() && final(pmm).hint()
            == old(pmm).hint(),
        r matches Some(a) ==> {
            &&& a % (PAGE_SIZE as u64) == 0
            &&& next_fit(old(pmm).free_set(), old(pmm).hint() as int, frame_of(a))
            &&& final(pmm).free_set() == old(pmm).free_set().remove(frame_of(a))
            &&& final(pmm).hint() == frame_of(a) / 64
        },
{
    pmm.alloc_next()
}

/// Gives the frame holding `phys` back to the pool.
pub fn free_frame(pmm: &mut Pmm, phys: u64)
    requires
        old(pmm).wf(),
    ensures
        final(pmm).wf(),
        final(pmm).total() == old(pmm).total(),
        final(pmm).free_set() == (if frame_of(phys) < MAX_FRAMES {
            old(pmm).free_set().insert(frame_of(phys))
        } else {
            old(pmm).free_set()
        }),
{
    pmm.free(phys)
}

/// Allocates `n` physically contiguous frames and returns the address of the first.
pub fn alloc_frames(pmm: &mut Pmm, n: usize) -> (r: Option<u64>)
    requires
        old(pmm).wf(),
    ensures
        final(pmm).wf(),
        final(pmm).total() == old(pmm).total(),
        final(pmm).hint() == old(pmm).hint(),
        r is None <==> !has_run(old(pmm).free_set(), n as int),
        r is None ==> final(pmm).free_set() == old(pmm).free_set(),
        r matches Some(a) ==> {
            &&& a % (PAGE_SIZE as u64) == 0
            &&& first_run(old(pmm).free_set(), n as int, frame_of(a))
            &&& final(pmm).free_set() == old(pmm).free_set().difference(
                set_int_range(frame_of(a), frame_of(a) + n),
            )
        },
{
    pmm.alloc_contig(n)
}

/// Free physical memory in KiB.
pub fn free_kib(pmm: &Pmm) -> (r: usize)
    requires
        pmm.wf(),
    ensures
        r == pmm.free_set().len() * 4,
{
    proof {
        pmm.lemma_free_set_bounded();
    }
    pmm.free_frames * 4
}

impl Pmm {
    /// Number of free frames.
    pub fn free_frames(&self) -> (r: usize)
        requires
            self.wf(),
        ensures
            r == self.free_set().len(),
    {
        self.free_frames
    }

    /// Number of frames of available RAM counted by `init`.
    pub fn total_frames(&self) -> (r: usize)
        ensures
            r == self.total(),
    {
        self.total_frames
    }
}

/// Freeing the frame that an allocation took gives back the free set from before it.
pub proof fn law_free_undoes_alloc(before: Set<int>, a: u64)
    requires
        before.contains(frame_of(a)),
        frame_of(a) < MAX_FRAMES,
    ensures
        before.remove(frame_of(a)).insert(frame_of(a)) == before,
{
    assert(before.remove(frame_of(a)).insert(frame_of(a)) =~= before);
}

/// A frame that an allocation hands out is no longer free, so no later allocation
/// hands it out again before it is freed.
pub proof fn law_allocated_frame_not_free(before: Set<int>, f: int)
    ensures
        !before.remove(f).contains(f),
{
}

/// Frame 0 and the kernel frames are never free after `init`, whatever the memory map.
pub proof fn law_init_keeps_reserved(before: Set<int>, entries: Seq<MmapEntry>, f: int)
    requires
        reserved_frame(f),
    ensures
        !free_after_init(before, entries).contains(f),
{
}

/// Every frame of a contiguous allocation was free before it and is in use after it.
pub proof fn law_contig_frames_taken(before: Set<int>, s: int, n: int, k: int)
    requires
        first_run(before, n, s),
        s <= k < s + n,
    ensures
        before.contains(k),
        !before.difference(set_int_range(s, s + n)).contains(k),
{
}

/// Whether `init` can take the memory map `entries`: no entry's end passes the top
/// of the address space, and the frame total fits in a `usize`.
pub fn map_sound(entries: &[MmapEntry]) -> (r: bool)
    ensures
        r == ((forall|i: int|
            0 <= i < entries.len() ==> entries[i].base as int + entries[i].len as int <= u64::MAX)
            && frames_upto(entries@, entries.len() as int) <= usize::MAX),
{
    let mut k: usize = 0;
    let mut total: usize = 0;
    while k < entries.len()
        invariant
            k <= entries.len(),
            forall|i: int|
                0 <= i < k ==> entries[i].base as int + entries[i].len as int <= u64::MAX,
            total == frames_upto(entries@, k as int),
        decreases entries.len() - k,
    {
        let e = entries[k];
        if e.base as u128 + e.len as u128 > u64::MAX as u128 {
            proof {
                assert(!(entries[k as int].base as int + entries[k as int].len as int <= u64::MAX));
            }
            return false;
        }
        if e.typ == MMAP_AVAILABLE {
            let start = e.base / (PAGE_SIZE as u64) + if e.base % (PAGE_SIZE as u64) != 0 {
                1u64
            } else {
                0u64
            };
            let end = (e.base + e.len) / (PAGE_SIZE as u64);
            if start < end {
                let n = end - start;
                if n as u128 + total as u128 > usize::MAX as u128 {
                    proof {
                        lemma_frames_upto_mono(entries@, k as int + 1, entries.len() as int);
                    }
                    return false;
                }
                total = total + n as usize;
            }
        }
        k = k + 1;
    }
    true
}

/// Whether a run of `n` free frames exists, as `alloc_frames` would find one.
pub fn has_free_run(pmm: &Pmm, n: usize) -> (r: bool)
    requires
        pmm.wf(),
    ensures
        r == has_run(pmm.free_set(), n as int),
{
    if n == 0 {
        return false;
    }
    let ghost free = pmm.free_set();
    let mut run: usize = 0;
    let mut i: usize = 0;
    while i < MAX_FRAMES
        invariant
            pmm.wf(),
            free == pmm.free_set(),
            n > 0,
            run <= i <= MAX_FRAMES,
            run_free(free, i - run, run as int),
            i - run == 0 || !free.contains(i - run - 1),
            run < n,
            forall|t: int| 0 <= t && t + n <= i ==> !#[trigger] run_free(free, t, n as int),
        decreases MAX_FRAMES - i,
    {
        let word = pmm.bitmap[i / 64];
        let bit = i % 64;
        proof {
            lemma_test_bit(word, bit as u64);
        }
        if word & (1u64 << (bit as u64)) == 0 {
            assert(free.contains(i as int));
            run = run + 1;
            if run == n {
                assert(run_free(free, i + 1 - n, n as int));
                return true;
            }
            proof {
                assert forall|t: int| 0 <= t && t + n <= i + 1 implies !#[trigger] run_free(
                    free,
                    t,
                    n as int,
                ) by {
                    if t + n == i + 1 {
                        assert(!free.contains(i - (run - 1) - 1));
                    }
                }
            }
        } else {
            proof {
                assert forall|t: int| 0 <= t && t + n <= i + 1 implies !#[trigger] run_free(
                    free,
                    t,
                    n as int,
                ) by {
                    if t + n == i + 1 {
                        assert(!free.contains(i as int));
                    }
                }
            }
            run = 0;
        }
        i = i + 1;
    }
    proof {
        if has_run(free, n as int) {
            let s = choose|s: int| 0 <= s && #[trigger] run_free(free, s, n as int);
            assert(free.contains(s + n - 1));
        }
    }
    false
}

} // verus!
