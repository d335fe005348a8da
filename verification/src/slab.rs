//! Slab allocator for small kernel objects: nine size classes, 8 to 2048 bytes.
//! Each slab is one 4 KiB page that starts with a header; the rest is cut into
//! objects of the class size. Free objects are kept per class, most recently
//! freed first.
use vstd::prelude::*;
use std::collections::VecDeque;
use crate::pmm::{Pmm, PAGE_SIZE, alloc_frame, next_fit, frame_of};
use crate::heap::{HEAP_START, HEAP_SIZE};

verus! {

pub const N_CLASSES: usize = 9;

/// Size of a slab page header: next slab, object size, objects in use, capacity.
pub const SLAB_HEADER_SIZE: usize = 32;

/// Virtual address of the first slab page: the end of the linked-list heap, so that
/// slab pages never share memory with it.
pub const SLAB_BASE: u64 = 0xFFFF_C000_0080_0000;

/// Object size of class `i`.
pub open spec fn class_size(i: int) -> int {
    if i == 0 { 8 } else if i == 1 { 16 } else if i == 2 { 32 } else if i == 3 { 64 } else if i == 4 { 128 }
    else if i == 5 { 256 } else if i == 6 { 512 } else if i == 7 { 1024 } else { 2048 }
}

/// The smallest class whose objects hold `size` bytes, if any.
pub open spec fn class_for_spec(size: int) -> Option<int> {
    if size <= 8 { Some(0) } else if size <= 16 { Some(1) } else if size <= 32 { Some(2) }
    else if size <= 64 { Some(3) } else if size <= 128 { Some(4) } else if size <= 256 { Some(5) }
    else if size <= 512 { Some(6) } else if size <= 1024 { Some(7) } else if size <= 2048 { Some(8) }
    else { None }
}

/// The class chosen for `size` holds it.
pub proof fn lemma_class_for(size: int, i: int)
    requires
        class_for_spec(size) == Some(i),
    ensures
        0 <= i < N_CLASSES,
        size <= class_size(i),
{
}

/// Bytes a slab page reserves at its start: the header, rounded up to the object size.
pub open spec fn header_bytes(o: int) -> int {
    (SLAB_HEADER_SIZE + o - 1) / o * o
}

/// Number of objects a slab page of object size `o` holds.
pub open spec fn slab_capacity(o: int) -> int {
    (PAGE_SIZE - header_bytes(o)) / o
}

/// Address of object `k` of the slab page at `va` with object size `o`.
pub open spec fn slot(va: u64, o: int, k: int) -> int {
    va + header_bytes(o) + k * o
}

/// A fresh slab page: the caller maps `va` to frame `phys`, zeroes it and writes the
/// header (`next`, `obj_size`, no object in use, `cap`) at its start.
pub struct SlabPage {
    pub va: u64,
    pub phys: u64,
    pub next: u64,
    pub obj_size: usize,
    pub cap: usize,
}

pub struct SlabClass {
    obj_size: usize,
    free_list: VecDeque<u64>,
    slab_head: u64,
}

impl SlabClass {
    /// An empty class of objects of `obj_size` bytes.
    pub fn new(obj_size: usize) -> (c: Self)
        ensures
            c.obj_size() == obj_size,
            c.free_objects() == Seq::<u64>::empty(),
            c.slab_head() == 0,
    {
        SlabClass { obj_size, free_list: VecDeque::new(), slab_head: 0 }
    }

    pub closed spec fn obj_size(&self) -> int {
        self.obj_size as int
    }

    /// Free objects, the next to be handed out first.
    pub closed spec fn free_objects(&self) -> Seq<u64> {
        self.free_list@
    }

    /// Address of the newest slab page of the class (0 before the first).
    pub closed spec fn slab_head(&self) -> u64 {
        self.slab_head
    }
}

/// Facts about the nine slab geometries.
pub proof fn lemma_geometry(i: int)
    requires
        0 <= i < N_CLASSES,
    ensures
        8 <= class_size(i) <= 2048,
        SLAB_HEADER_SIZE <= header_bytes(class_size(i)) <= 2048,
        header_bytes(class_size(i)) % class_size(i) == 0,
        1 <= slab_capacity(class_size(i)),
        header_bytes(class_size(i)) + slab_capacity(class_size(i)) * class_size(i) <= PAGE_SIZE,
{
    let o = class_size(i);
    if i == 0 {
        assert(header_bytes(8) == 32 && slab_capacity(8) == 508);
    } else if i == 1 {
        assert(header_bytes(16) == 32 && slab_capacity(16) == 254);
    } else if i == 2 {
        assert(header_bytes(32) == 32 && slab_capacity(32) == 127);
    } else if i == 3 {
        assert(header_bytes(64) == 64 && slab_capacity(64) == 63);
    } else if i == 4 {
        assert(header_bytes(128) == 128 && slab_capacity(128) == 31);
    } else if i == 5 {
        assert(header_bytes(256) == 256 && slab_capacity(256) == 15);
    } else if i == 6 {
        assert(header_bytes(512) == 512 && slab_capacity(512) == 7);
    } else if i == 7 {
        assert(header_bytes(1024) == 1024 && slab_capacity(1024) == 3);
    } else {
        assert((SLAB_HEADER_SIZE + 2048 - 1) / 2048 == 1);
        assert(header_bytes(2048) == 2048);
        assert((PAGE_SIZE - 2048) / 2048 == 1);
        assert(slab_capacity(2048) == 1);
    }
}

impl SlabClass {
    /// Adds a fresh slab page at `*slab_va`, whose objects all become free, the
    /// lowest first. Fails when no frame is left.
    fn grow(&mut self, pmm: &mut Pmm, slab_va: &mut u64, Ghost(i): Ghost<int>) -> (r: Option<SlabPage>)
        requires
            0 <= i < N_CLASSES,
            old(self).obj_size() == class_size(i),
            old(pmm).wf(),
            *old(slab_va) + PAGE_SIZE <= u64::MAX,
        ensures
            final(pmm).wf(),
            final(pmm).total() == old(pmm).total(),
            final(self).obj_size() == old(self).obj_size(),
            r is None <==> old(pmm).free_set() == Set::<int>::empty(),
            r is None ==> *final(self) == *old(self) && *final(slab_va) == *old(slab_va)
                && final(pmm).free_set() == old(pmm).free_set(),
            r matches Some(pg) ==> {
                let o = class_size(i);
                &&& pg.va == *old(slab_va)
                &&& pg.next == old(self).slab_head()
                &&& pg.obj_size == o
                &&& pg.cap == slab_capacity(o)
                &&& pg.phys % (PAGE_SIZE as u64) == 0
                &&& next_fit(old(pmm).free_set(), old(pmm).hint() as int, frame_of(pg.phys))
                &&& final(pmm).free_set() == old(pmm).free_set().remove(frame_of(pg.phys))
                &&& *final(slab_va) == *old(slab_va) + PAGE_SIZE
                &&& final(self).slab_head() == pg.va
                &&& final(self).free_objects() == Seq::new(
                    slab_capacity(o) as nat,
                    |k: int| slot(pg.va, o, k) as u64,
                ) + old(self).free_objects()
            },
    {
        let phys = match alloc_frame(pmm) {
            Some(p) => p,
            None => return None,
        };
        let va = *slab_va;
        *slab_va = *slab_va + PAGE_SIZE as u64;
        proof {
            lemma_geometry(i);
        }
        let o = self.obj_size;
        let header_size = (SLAB_HEADER_SIZE + o - 1) / o * o;
        let cap = (PAGE_SIZE - header_size) / o;
        let pg = SlabPage { va, phys, next: self.slab_head, obj_size: o, cap };
        self.slab_head = va;
        let data = va + header_size as u64;
        let ghost rest = self.free_list@;
        let mut k = cap;
        while k > 0
            invariant
                0 <= k <= cap,
                cap == slab_capacity(o as int),
                header_size == header_bytes(o as int),
                o == class_size(i),
                0 <= i < N_CLASSES,
                data == va + header_size,
                va + PAGE_SIZE <= u64::MAX,
                self.obj_size == o,
                self.slab_head == va,
                self.free_list@ == Seq::new((cap - k) as nat, |j: int| slot(va, o as int, k + j) as u64)
                    + rest,
            decreases k,
        {
            proof {
                lemma_geometry(i);
                assert((k - 1) * o <= (cap - 1) * o) by (nonlinear_arith)
                    requires
                        k <= cap,
                        o >= 0,
                ;
            }
            let addr = data + ((k - 1) * o) as u64;
            let ghost before = self.free_list@;
            self.free_list.push_front(addr);
            proof {
                assert(self.free_list@ =~= Seq::new((cap - (k - 1)) as nat, |j: int| slot(va, o as int, (k - 1) + j) as u64) + rest);
            }
            k = k - 1;
        }
        Some(pg)
    }
}

/// The page that address `a` lies in.
pub open spec fn page_of(a: int) -> int {
    a - a % (PAGE_SIZE as int)
}

/// Offset `off` within a page of object size `o` is the start of an object.
pub open spec fn slot_offset(o: int, off: int) -> bool {
    &&& header_bytes(o) <= off
    &&& (off - header_bytes(o)) % o == 0
    &&& (off - header_bytes(o)) / o < slab_capacity(o)
}

/// `a` is the start of an object in one of the slab pages of `pages`, which maps
/// each slab page to its class.
pub open spec fn is_object(pages: Map<int, int>, a: int) -> bool {
    &&& pages.contains_key(page_of(a))
    &&& 0 <= pages[page_of(a)] < N_CLASSES
    &&& slot_offset(class_size(pages[page_of(a)]), a % (PAGE_SIZE as int))
}

/// Class of the slab page that holds `a`.
pub open spec fn class_of(pages: Map<int, int>, a: int) -> int {
    pages[page_of(a)]
}

/// `al` is a power of two no larger than the largest class.
pub open spec fn small_pow2(al: int) -> bool {
    al == 1 || al == 2 || al == 4 || al == 8 || al == 16 || al == 32 || al == 64 || al == 128
        || al == 256 || al == 512 || al == 1024 || al == 2048
}

/// Where object `k` of a page-aligned slab page lies.
pub proof fn lemma_slot(i: int, va: int, k: int)
    requires
        0 <= i < N_CLASSES,
        va % (PAGE_SIZE as int) == 0,
        0 <= k < slab_capacity(class_size(i)),
    ensures
        (va + header_bytes(class_size(i)) + k * class_size(i)) % (PAGE_SIZE as int) == header_bytes(
            class_size(i),
        ) + k * class_size(i),
        page_of(va + header_bytes(class_size(i)) + k * class_size(i)) == va,
        slot_offset(class_size(i), header_bytes(class_size(i)) + k * class_size(i)),
        (va + header_bytes(class_size(i)) + k * class_size(i)) % class_size(i) == 0,
        header_bytes(class_size(i)) + (k + 1) * class_size(i) <= PAGE_SIZE,
{
    lemma_geometry(i);
    let o = class_size(i);
    let h = header_bytes(o);
    assert(k * o + o <= slab_capacity(o) * o) by (nonlinear_arith)
        requires
            k + 1 <= slab_capacity(o),
            o >= 0,
    ;
    assert(k * o >= 0) by (nonlinear_arith)
        requires
            k >= 0,
            o >= 0,
    ;
    assert((k + 1) * o == k * o + o) by (nonlinear_arith);
    let off = h + k * o;
    assert(0 <= off < 4096);
    assert((va + off) % 4096 == off) by {
        vstd::arithmetic::div_mod::lemma_add_mod_noop(va, off, 4096);
        vstd::arithmetic::div_mod::lemma_small_mod(off as nat, 4096);
    }
    assert((off - h) / o == k && (off - h) % o == 0) by {
        vstd::arithmetic::div_mod::lemma_div_multiples_vanish(k, o);
        vstd::arithmetic::div_mod::lemma_mod_multiples_basic(k, o);
        assert(k * o == o * k) by (nonlinear_arith);
    }
    assert(va % o == 0 && h % o == 0) by {
        vstd::arithmetic::div_mod::lemma_mod_mod(va, o, 4096int / o);
        assert(o * (4096int / o) == 4096) by {
            if i == 0 {} else if i == 1 {} else if i == 2 {} else if i == 3 {} else if i == 4 {}
            else if i == 5 {} else if i == 6 {} else if i == 7 {} else {}
        }
    }
    assert((va + off) % o == 0) by {
        vstd::arithmetic::div_mod::lemma_add_mod_noop(va, off, o);
        vstd::arithmetic::div_mod::lemma_add_mod_noop(h, k * o, o);
        vstd::arithmetic::div_mod::lemma_mod_multiples_basic(k, o);
        assert(k * o == o * k) by (nonlinear_arith);
    }
}

/// An object is the `k`-th slot of its page.
pub proof fn lemma_object_slot(pages: Map<int, int>, a: int)
    requires
        is_object(pages, a),
    ensures
        ({
            let o = class_size(class_of(pages, a));
            let k = (a % (PAGE_SIZE as int) - header_bytes(o)) / o;
            &&& 0 <= k < slab_capacity(o)
            &&& a == page_of(a) + header_bytes(o) + k * o
        }),
{
    let i = class_of(pages, a);
    lemma_geometry(i);
    let o = class_size(i);
    let off = a % 4096;
    let k = (off - header_bytes(o)) / o;
    vstd::arithmetic::div_mod::lemma_fundamental_div_mod(off - header_bytes(o), o);
    assert(o * k == k * o) by (nonlinear_arith);
}

/// Distinct objects do not overlap.
pub proof fn lemma_disjoint(pages: Map<int, int>, a: int, b: int)
    requires
        is_object(pages, a),
        is_object(pages, b),
        a != b,
        forall|p: int| pages.contains_key(p) ==> p % (PAGE_SIZE as int) == 0,
    ensures
        a + class_size(class_of(pages, a)) <= b || b + class_size(class_of(pages, b)) <= a,
{
    lemma_object_slot(pages, a);
    lemma_object_slot(pages, b);
    let pa = page_of(a);
    let pb = page_of(b);
    let ia = class_of(pages, a);
    let ib = class_of(pages, b);
    let oa = class_size(ia);
    let ob = class_size(ib);
    let ka = (a % 4096 - header_bytes(oa)) / oa;
    let kb = (b % 4096 - header_bytes(ob)) / ob;
    lemma_slot(ia, pa, ka);
    lemma_slot(ib, pb, kb);
    if pa != pb {
        assert(pa + 4096 <= pb || pb + 4096 <= pa) by {
            assert(pa % 4096 == 0 && pb % 4096 == 0);
            vstd::arithmetic::div_mod::lemma_fundamental_div_mod(pa, 4096);
            vstd::arithmetic::div_mod::lemma_fundamental_div_mod(pb, 4096);
            assert(pa == 4096 * (pa / 4096) && pb == 4096 * (pb / 4096));
            if pa / 4096 < pb / 4096 {
                assert(4096 * (pa / 4096) + 4096 <= 4096 * (pb / 4096)) by (nonlinear_arith)
                    requires
                        pa / 4096 < pb / 4096,
                ;
            } else {
                assert(pa / 4096 != pb / 4096);
                assert(4096 * (pb / 4096) + 4096 <= 4096 * (pa / 4096)) by (nonlinear_arith)
                    requires
                        pb / 4096 < pa / 4096,
                ;
            }
        }
    } else {
        assert(ka != kb);
        if ka < kb {
            assert(ka * oa + oa <= kb * oa) by (nonlinear_arith)
                requires
                    ka + 1 <= kb,
                    oa >= 0,
            ;
        } else {
            assert(kb * oa + oa <= ka * oa) by (nonlinear_arith)
                requires
                    kb + 1 <= ka,
                    oa >= 0,
            ;
        }
    }
}

/// Bytes a request of `size` bytes aligned to `align` needs.
pub open spec fn request_bytes(size: usize, align: usize) -> int {
    if size >= align { size as int } else { align as int }
}

/// `fl` lists distinct objects of class `i` of the slab pages `pages`.
pub open spec fn holds_objects(pages: Map<int, int>, fl: Seq<u64>, i: int) -> bool {
    &&& fl.no_duplicates()
    &&& forall|k: int| #![trigger fl[k]] 0 <= k < fl.len() ==> is_object(pages, fl[k] as int) && class_of(pages, fl[k] as int) == i
}

/// Where an object lies within its slab page, and its alignment.
pub proof fn lemma_object_facts(pages: Map<int, int>, a: int)
    requires
        is_object(pages, a),
    ensures
        ({
            let o = class_size(class_of(pages, a));
            &&& a % o == 0
            &&& page_of(a) % (PAGE_SIZE as int) == 0
            &&& page_of(a) + header_bytes(o) <= a
            &&& a + o <= page_of(a) + PAGE_SIZE
        }),
{
    let i = class_of(pages, a);
    let o = class_size(i);
    let pa = page_of(a);
    lemma_object_slot(pages, a);
    let k = (a % 4096 - header_bytes(o)) / o;
    assert(pa % 4096 == 0) by {
        vstd::arithmetic::div_mod::lemma_fundamental_div_mod(a, 4096);
        vstd::arithmetic::div_mod::lemma_mod_multiples_basic(a / 4096, 4096);
        assert(4096 * (a / 4096) == (a / 4096) * 4096) by (nonlinear_arith);
    }
    lemma_slot(i, pa, k);
    assert((k + 1) * o == k * o + o) by (nonlinear_arith);
}

/// A power-of-two alignment no larger than a class size divides it.
pub proof fn lemma_align_divides(i: int, al: int)
    requires
        0 <= i < N_CLASSES,
        small_pow2(al),
        al <= class_size(i),
    ensures
        class_size(i) % al == 0,
        class_size(i) / al >= 1,
        al * (class_size(i) / al) == class_size(i),
{
    if i == 0 {} else if i == 1 {} else if i == 2 {} else if i == 3 {} else if i == 4 {}
    else if i == 5 {} else if i == 6 {} else if i == 7 {} else {}
}

/// The objects of a fresh slab page of class `i` at `va`, after the first one.
pub open spec fn fresh_rest(va: u64, i: int) -> Seq<u64> {
    Seq::new((slab_capacity(class_size(i)) - 1) as nat, |k: int| slot(va, class_size(i), k + 1) as u64)
}

/// A fresh slab page adds objects that lie in it and nowhere else.
proof fn lemma_fresh_page(pages: Map<int, int>, va: u64, i: int)
    requires
        0 <= i < N_CLASSES,
        va % (PAGE_SIZE as u64) == 0,
        va + PAGE_SIZE <= u64::MAX,
    ensures
        ({
            let p2 = pages.insert(va as int, i);
            let o = class_size(i);
            &&& holds_objects(p2, fresh_rest(va, i), i)
            &&& forall|k: int| #![trigger fresh_rest(va, i)[k]] 0 <= k < fresh_rest(va, i).len()
                ==> page_of(fresh_rest(va, i)[k] as int) == va
            &&& is_object(p2, slot(va, o, 0))
            &&& class_of(p2, slot(va, o, 0)) == i
            &&& page_of(slot(va, o, 0)) == va
            &&& 0 <= slot(va, o, 0) <= u64::MAX
            &&& !fresh_rest(va, i).contains(slot(va, o, 0) as u64)
        }),
{
    lemma_geometry(i);
    let o = class_size(i);
    let p2 = pages.insert(va as int, i);
    let fl = fresh_rest(va, i);
    assert forall|k: int| 0 <= k < slab_capacity(o) implies {
        &&& is_object(p2, slot(va, o, k))
        &&& class_of(p2, slot(va, o, k)) == i
        &&& page_of(slot(va, o, k)) == va
        &&& 0 <= slot(va, o, k) <= u64::MAX
    } by {
        lemma_slot(i, va as int, k);
    }
    assert forall|k1: int, k2: int| 0 <= k1 < k2 < slab_capacity(o) implies slot(va, o, k1) < slot(va, o, k2) by {
        assert(k1 * o < k2 * o) by (nonlinear_arith)
            requires
                k1 < k2,
                o > 0,
        ;
    }
    assert forall|k: int| #![trigger fl[k]] 0 <= k < fl.len() implies is_object(p2, fl[k] as int) && class_of(
        p2,
        fl[k] as int,
    ) == i && page_of(fl[k] as int) == va by {
        assert(fl[k] as int == slot(va, o, k + 1));
    }
    assert(fl.no_duplicates()) by {
        assert forall|a: int, b: int| 0 <= a < fl.len() && 0 <= b < fl.len() && a != b implies fl[a] != fl[b] by {
            if a < b {
                assert(slot(va, o, a + 1) < slot(va, o, b + 1));
            } else {
                assert(slot(va, o, b + 1) < slot(va, o, a + 1));
            }
        }
    }
    assert(!fl.contains(slot(va, o, 0) as u64)) by {
        if fl.contains(slot(va, o, 0) as u64) {
            let k = choose|k: int| 0 <= k < fl.len() && fl[k] == slot(va, o, 0) as u64;
            assert(slot(va, o, 0) < slot(va, o, k + 1));
        }
    }
}

/// Objects of pages below `va` are unaffected when a page is added at `va`.
proof fn lemma_pages_grow(pages: Map<int, int>, va: int, i: int, fl: Seq<u64>, j: int)
    requires
        holds_objects(pages, fl, j),
        forall|p: int| #[trigger] pages.contains_key(p) ==> p < va,
    ensures
        holds_objects(pages.insert(va, i), fl, j),
        forall|k: int| #![trigger fl[k]] 0 <= k < fl.len() ==> page_of(fl[k] as int) != va,
{
    assert forall|k: int| #![trigger fl[k]] 0 <= k < fl.len() implies is_object(pages.insert(va, i), fl[k] as int)
        && class_of(pages.insert(va, i), fl[k] as int) == j && page_of(fl[k] as int) != va by {
        assert(pages.contains_key(page_of(fl[k] as int)));
    }
}

/// Two page-aligned addresses: the lower page ends at or before the higher one.
proof fn lemma_page_below(p: int, v: int)
    requires
        p % (PAGE_SIZE as int) == 0,
        v % (PAGE_SIZE as int) == 0,
        p < v,
    ensures
        p + PAGE_SIZE <= v,
{
    vstd::arithmetic::div_mod::lemma_fundamental_div_mod(p, 4096);
    vstd::arithmetic::div_mod::lemma_fundamental_div_mod(v, 4096);
    assert(p / 4096 < v / 4096) by (nonlinear_arith)
        requires
            p == 4096 * (p / 4096),
            v == 4096 * (v / 4096),
            p < v,
    ;
    assert(4096 * (p / 4096) + 4096 <= 4096 * (v / 4096)) by (nonlinear_arith)
        requires
            p / 4096 < v / 4096,
    ;
}

pub struct SlabAllocator {
    classes: Vec<SlabClass>,
    slab_va: u64,
    pages: Ghost<Map<int, int>>,
}

impl SlabAllocator {
    pub closed spec fn wf(&self) -> bool {
        &&& self.classes@.len() == N_CLASSES
        &&& forall|i: int| 0 <= i < N_CLASSES ==> (#[trigger] self.classes@[i]).obj_size() == class_size(i)
        &&& SLAB_BASE <= self.slab_va
        &&& self.slab_va % (PAGE_SIZE as u64) == 0
        &&& forall|p: int| #[trigger] self.pages@.contains_key(p) ==> SLAB_BASE <= p < self.slab_va && p % (
        PAGE_SIZE as int) == 0 && 0 <= self.pages@[p] < N_CLASSES
        &&& forall|i: int| 0 <= i < N_CLASSES ==> holds_objects(self.pages@, (#[trigger] self.classes@[i]).free_objects(), i)
    }

    /// Free objects of each class, the next to be handed out first.
    pub closed spec fn free_lists(&self) -> Seq<Seq<u64>> {
        Seq::new(self.classes@.len(), |i: int| self.classes@[i].free_objects())
    }

    /// Newest slab page of each class.
    pub closed spec fn heads(&self) -> Seq<u64> {
        Seq::new(self.classes@.len(), |i: int| self.classes@[i].slab_head())
    }

    /// Where the next slab page goes.
    pub closed spec fn next_slab_va(&self) -> u64 {
        self.slab_va
    }

    /// The slab pages handed out so far, each with its class.
    pub closed spec fn pages(&self) -> Map<int, int> {
        self.pages@
    }

    /// `a` is an object of a slab page that is not on its class's free list.
    pub open spec fn live(&self, a: u64) -> bool {
        &&& is_object(self.pages(), a as int)
        &&& !self.free_lists()[class_of(self.pages(), a as int)].contains(a)
    }

    /// Nine empty classes; slab pages start at `SLAB_BASE`.
    pub fn new() -> (s: Self)
        ensures
            s.wf(),
            s.free_lists() == Seq::new(N_CLASSES as nat, |i: int| Seq::<u64>::empty()),
            s.heads() == Seq::new(N_CLASSES as nat, |i: int| 0u64),
            s.next_slab_va() == SLAB_BASE,
            s.pages() == Map::<int, int>::empty(),
    {
        let mut classes: Vec<SlabClass> = Vec::new();
        let mut size: usize = 8;
        while classes.len() < N_CLASSES
            invariant
                classes@.len() <= N_CLASSES,
                size == class_size(classes@.len() as int) || classes@.len() == N_CLASSES,
                forall|i: int| 0 <= i < classes@.len() ==> (#[trigger] classes@[i]).obj_size() == class_size(i)
                    && classes@[i].free_objects() == Seq::<u64>::empty() && classes@[i].slab_head() == 0,
            decreases N_CLASSES - classes@.len(),
        {
            classes.push(SlabClass::new(size));
            if classes.len() < N_CLASSES {
                size = size * 2;
            }
        }
        let s = SlabAllocator { classes, slab_va: SLAB_BASE, pages: Ghost(Map::empty()) };
        assert(SLAB_BASE % 4096 == 0);
        assert(s.free_lists() =~= Seq::new(N_CLASSES as nat, |i: int| Seq::<u64>::empty()));
        assert(s.heads() =~= Seq::new(N_CLASSES as nat, |i: int| 0u64));
        assert forall|i: int| 0 <= i < N_CLASSES implies holds_objects(s.pages@, (#[trigger] s.classes@[i]).free_objects(), i) by {
            assert(s.classes@[i].free_objects() == Seq::<u64>::empty());
        }
        s
    }

    /// Whether a request of `size` bytes aligned to `align` finds its class's free
    /// list empty, so that serving it takes a new slab page.
    pub fn takes_page(&self, size: usize, align: usize) -> (r: bool)
        requires
            self.wf(),
        ensures
            r == needs_page(*self, size, align),
    {
        let need = if size >= align { size } else { align };
        match self.class_for(need) {
            Some(i) => self.classes[i].free_list.len() == 0,
            None => false,
        }
    }

    /// There is address space left for one more slab page.
    pub fn can_grow(&self) -> (r: bool)
        ensures
            r == (self.next_slab_va() + PAGE_SIZE <= u64::MAX),
    {
        self.slab_va <= u64::MAX - PAGE_SIZE as u64
    }

    /// The smallest class whose objects hold `size` bytes.
    pub fn class_for(&self, size: usize) -> (r: Option<usize>)
        ensures
            r matches Some(i) ==> class_for_spec(size as int) == Some(i as int),
            r is None ==> class_for_spec(size as int) is None,
    {
        let mut i: usize = 0;
        let mut s: usize = 8;
        assert(class_size(0) == 8 && class_size(1) == 16 && class_size(2) == 32 && class_size(3) == 64
            && class_size(4) == 128 && class_size(5) == 256 && class_size(6) == 512 && class_size(7)
            == 1024 && class_size(8) == 2048);
        while i < N_CLASSES
            invariant
                i <= N_CLASSES,
                i < N_CLASSES ==> s == class_size(i as int),
                class_size(0) == 8 && class_size(1) == 16 && class_size(2) == 32 && class_size(3) == 64
                    && class_size(4) == 128 && class_size(5) == 256 && class_size(6) == 512 && class_size(7)
                    == 1024 && class_size(8) == 2048,
                forall|j: int| 0 <= j < i ==> size > #[trigger] class_size(j),
            decreases N_CLASSES - i,
        {
            if size <= s {
                return Some(i);
            }
            i = i + 1;
            if i < N_CLASSES {
                s = s * 2;
            }
        }
        None
    }

    /// Hands out an object of at least `max(size, align)` bytes from its class,
    /// growing the class by a slab page when its free list is empty. When a page
    /// was added, the caller maps and prepares it before using the object.
    #[verifier::rlimit(50)]
    pub fn allocate(&mut self, size: usize, align: usize, pmm: &mut Pmm) -> (r: (Option<u64>, Option<SlabPage>))
        requires
            old(self).wf(),
            old(pmm).wf(),
            needs_page(*old(self), size, align) ==> old(self).next_slab_va() + PAGE_SIZE <= u64::MAX,
        ensures
            final(self).wf(),
            final(pmm).wf(),
            final(pmm).total() == old(pmm).total(),
            allocated(*old(self), *old(pmm), size, align, r, *final(self), *final(pmm)),
            forall|b: u64| #[trigger] old(self).live(b) ==> final(self).live(b),
            r.0 matches Some(a) ==> fresh_object(*old(self), *final(self), a, size, align),
    {
        let need = if size >= align { size } else { align };
        let i = match self.class_for(need) {
            Some(i) => i,
            None => return (None, None),
        };
        proof {
            lemma_geometry(i as int);
        }
        let ghost s0 = *self;
        let ghost lists0 = self.free_lists();
        let ghost heads0 = self.heads();
        let mut grown: Option<SlabPage> = None;
        let ghost mut after_grow = lists0[i as int];
        if self.classes[i].free_list.len() == 0 {
            let g = self.classes[i].grow(pmm, &mut self.slab_va, Ghost(i as int));
            match g {
                Some(pg) => {
                    self.pages = Ghost(self.pages@.insert(pg.va as int, i as int));
                    grown = Some(pg);
                    proof {
                        after_grow = self.classes@[i as int].free_objects();
                    }
                },
                None => {
                    proof {
                        assert(self.free_lists() =~= lists0);
                        assert(self.heads() =~= heads0);
                        assert forall|j: int| 0 <= j < N_CLASSES implies (#[trigger] self.classes@[j]).obj_size()
                            == class_size(j) && holds_objects(self.pages@, self.classes@[j].free_objects(), j) by {
                            if j != i {
                                assert(self.classes@[j] == s0.classes@[j]);
                            }
                        }
                        assert forall|b: u64| #[trigger] s0.live(b) implies self.live(b) by {
                            assert(self.free_lists() == s0.free_lists());
                        }
                    }
                    return (None, None);
                },
            }
        }
        let obj = self.classes[i].free_list.pop_front();
        proof {
            let o = class_size(i as int);
            let ii = i as int;
            assert forall|j: int| 0 <= j < N_CLASSES && j != ii implies self.classes@[j] == s0.classes@[j] by {}
            if lists0[ii].len() == 0 {
                let pg = grown.unwrap();
                let fresh = Seq::new(slab_capacity(o) as nat, |k: int| slot(pg.va, o, k) as u64);
                assert(lists0[ii] =~= Seq::<u64>::empty());
                assert(after_grow =~= fresh);
                assert(self.classes@[ii].free_objects() =~= fresh_rest(pg.va, ii));
                assert(self.free_lists() =~= lists0.update(ii, fresh_rest(pg.va, ii)));
                assert(self.heads() =~= heads0.update(ii, pg.va));
                assert(obj == Some(slot(pg.va, o, 0) as u64));
                lemma_grow_keeps(s0, *self, ii, obj.unwrap());
            } else {
                let fl0 = lists0[ii];
                assert(self.classes@[ii].free_objects() =~= fl0.drop_first());
                assert(self.free_lists() =~= lists0.update(ii, fl0.drop_first()));
                assert(self.heads() =~= heads0);
                lemma_pop_keeps(s0, *self, ii, obj.unwrap());
            }
            let a = obj.unwrap();
            lemma_class_for(need as int, ii);
            lemma_object_facts(self.pages@, a as int);
            if small_pow2(align as int) {
                lemma_align_divides(ii, align as int);
                vstd::arithmetic::div_mod::lemma_mod_mod(a as int, align as int, o / (align as int));
            }
        }
        (obj, grown)
    }

    /// Puts `ptr` back at the front of its class's free list; objects too large for
    /// any class are not kept.
    pub fn dealloc(&mut self, ptr: u64, size: usize, align: usize)
        requires
            old(self).wf(),
            class_for_spec(request_bytes(size, align)) matches Some(i) ==> old(self).live(ptr) && class_of(
                old(self).pages(),
                ptr as int,
            ) == i,
        ensures
            final(self).wf(),
            freed(*old(self), ptr, size, align, *final(self)),
            class_for_spec(request_bytes(size, align)) is Some ==> !final(self).live(ptr),
            forall|b: u64| b != ptr ==> (old(self).live(b) == #[trigger] final(self).live(b)),
    {
        let need = if size >= align { size } else { align };
        match self.class_for(need) {
            Some(i) => {
                let ghost s0 = *self;
                self.classes[i].free_list.push_front(ptr);
                proof {
                    let ii = i as int;
                    let fl0 = s0.free_lists()[ii];
                    let fl = fl0.insert(0, ptr);
                    assert forall|j: int| 0 <= j < N_CLASSES && j != ii implies self.classes@[j] == s0.classes@[j] by {}
                    assert(self.free_lists()[ii] =~= fl);
                    assert(self.free_lists() =~= s0.free_lists().update(ii, fl));
                    assert(self.heads() =~= s0.heads());
                    assert(holds_objects(s0.pages@, fl0, ii));
                    assert(holds_objects(self.pages@, fl, ii)) by {
                        assert forall|k: int| #![trigger fl[k]] 0 <= k < fl.len() implies is_object(
                            self.pages@,
                            fl[k] as int,
                        ) && class_of(self.pages@, fl[k] as int) == ii by {
                            if k > 0 {
                                assert(fl[k] == fl0[k - 1]);
                            }
                        }
                        assert forall|a: int, b: int| 0 <= a < fl.len() && 0 <= b < fl.len() && a != b implies fl[a]
                            != fl[b] by {
                            if a == 0 && b > 0 {
                                assert(fl[b] == fl0[b - 1]);
                            } else if b == 0 && a > 0 {
                                assert(fl[a] == fl0[a - 1]);
                            } else if a > 0 && b > 0 {
                                assert(fl[a] == fl0[a - 1] && fl[b] == fl0[b - 1]);
                            }
                        }
                    }
                    assert forall|j: int| 0 <= j < N_CLASSES implies (#[trigger] self.classes@[j]).obj_size()
                        == class_size(j) && holds_objects(self.pages@, self.classes@[j].free_objects(), j) by {}
                    assert(fl.contains(ptr)) by {
                        assert(fl[0] == ptr);
                    }
                    assert forall|b: u64| b != ptr implies (s0.live(b) == #[trigger] self.live(b)) by {
                        let cb = class_of(s0.pages@, b as int);
                        if cb == ii {
                            if fl.contains(b) {
                                let k = choose|k: int| 0 <= k < fl.len() && fl[k] == b;
                                assert(k > 0);
                                assert(fl0[k - 1] == b);
                            }
                            if fl0.contains(b) {
                                let k = choose|k: int| 0 <= k < fl0.len() && fl0[k] == b;
                                assert(fl[k + 1] == b);
                            }
                        }
                    }
                }
            },
            None => {},
        }
    }
}

/// Taking the head of class `ii`'s free list keeps the allocator well formed,
/// keeps every live object live, and makes the head live.
proof fn lemma_pop_keeps(s0: SlabAllocator, s: SlabAllocator, ii: int, a: u64)
    requires
        s0.wf(),
        0 <= ii < N_CLASSES,
        s.classes@.len() == N_CLASSES,
        forall|j: int| 0 <= j < N_CLASSES && j != ii ==> s.classes@[j] == s0.classes@[j],
        s.classes@[ii].obj_size() == class_size(ii),
        s0.classes@[ii].free_objects().len() > 0,
        s.classes@[ii].free_objects() == s0.classes@[ii].free_objects().drop_first(),
        a == s0.classes@[ii].free_objects()[0],
        s.pages@ == s0.pages@,
        s.slab_va == s0.slab_va,
    ensures
        s.wf(),
        forall|b: u64| #[trigger] s0.live(b) ==> s.live(b),
        is_object(s.pages(), a as int),
        class_of(s.pages(), a as int) == ii,
        !s0.live(a),
        s.live(a),
{
    let fl0 = s0.classes@[ii].free_objects();
    let fl = fl0.drop_first();
    assert(holds_objects(s0.pages@, fl0, ii));
    assert(holds_objects(s.pages@, fl, ii)) by {
        assert forall|k: int| #![trigger fl[k]] 0 <= k < fl.len() implies is_object(s.pages@, fl[k] as int)
            && class_of(s.pages@, fl[k] as int) == ii by {
            assert(fl[k] == fl0[k + 1]);
        }
    }
    assert forall|j: int| 0 <= j < N_CLASSES implies (#[trigger] s.classes@[j]).obj_size() == class_size(j)
        && holds_objects(s.pages@, s.classes@[j].free_objects(), j) by {}
    assert(!fl.contains(a)) by {
        if fl.contains(a) {
            let k = choose|k: int| 0 <= k < fl.len() && fl[k] == a;
            assert(fl0[k + 1] == fl0[0]);
        }
    }
    assert(s0.free_lists()[ii] == fl0);
    assert(s.free_lists()[ii] == fl);
    assert(fl0.contains(a)) by {
        assert(fl0[0] == a);
    }
    assert forall|b: u64| #[trigger] s0.live(b) implies s.live(b) by {
        let cb = class_of(s0.pages@, b as int);
        if cb != ii {
            assert(s.free_lists()[cb] == s0.free_lists()[cb]);
        } else if fl.contains(b) {
            let k = choose|k: int| 0 <= k < fl.len() && fl[k] == b;
            assert(fl0[k + 1] == b);
        }
    }
}

/// Adding a fresh slab page for class `ii` (whose free list was empty) and taking
/// its first object keeps the allocator well formed, keeps every live object live,
/// and makes that object live.
proof fn lemma_grow_keeps(s0: SlabAllocator, s: SlabAllocator, ii: int, a: u64)
    requires
        s0.wf(),
        0 <= ii < N_CLASSES,
        s0.slab_va + PAGE_SIZE <= u64::MAX,
        s.classes@.len() == N_CLASSES,
        forall|j: int| 0 <= j < N_CLASSES && j != ii ==> s.classes@[j] == s0.classes@[j],
        s.classes@[ii].obj_size() == class_size(ii),
        s0.classes@[ii].free_objects().len() == 0,
        s.classes@[ii].free_objects() == fresh_rest(s0.slab_va, ii),
        a == slot(s0.slab_va, class_size(ii), 0) as u64,
        s.pages@ == s0.pages@.insert(s0.slab_va as int, ii),
        s.slab_va == s0.slab_va + PAGE_SIZE,
    ensures
        s.wf(),
        forall|b: u64| #[trigger] s0.live(b) ==> s.live(b),
        is_object(s.pages(), a as int),
        class_of(s.pages(), a as int) == ii,
        !s0.live(a),
        s.live(a),
{
    let va = s0.slab_va;
    lemma_fresh_page(s0.pages@, va, ii);
    assert(s.slab_va % 4096 == 0) by {
        vstd::arithmetic::div_mod::lemma_add_mod_noop(va as int, 4096, 4096);
    }
    assert forall|j: int| 0 <= j < N_CLASSES implies (#[trigger] s.classes@[j]).obj_size() == class_size(j)
        && holds_objects(s.pages@, s.classes@[j].free_objects(), j) by {
        if j != ii {
            lemma_pages_grow(s0.pages@, va as int, ii, s0.classes@[j].free_objects(), j);
        }
    }
    assert(s.free_lists()[ii] == fresh_rest(va, ii));
    assert forall|b: u64| #[trigger] s0.live(b) implies s.live(b) by {
        let cb = class_of(s0.pages@, b as int);
        assert(s0.pages@.contains_key(page_of(b as int)));
        if cb != ii {
            assert(s.free_lists()[cb] == s0.free_lists()[cb]);
        } else if fresh_rest(va, ii).contains(b) {
            let k = choose|k: int| 0 <= k < fresh_rest(va, ii).len() && fresh_rest(va, ii)[k] == b;
            assert(page_of(fresh_rest(va, ii)[k] as int) == va);
        }
    }
    assert(!s0.pages@.contains_key(page_of(a as int)));
}

/// A request of `size` bytes aligned to `align` has a class whose free list is empty.
pub open spec fn needs_page(s: SlabAllocator, size: usize, align: usize) -> bool {
    &&& class_for_spec(request_bytes(size, align)) is Some
    &&& s.free_lists()[class_for_spec(request_bytes(size, align)).unwrap()].len() == 0
}

/// Effect of `SlabAllocator::allocate` on the allocator, the frame allocator and
/// the result.
pub open spec fn allocated(
    s: SlabAllocator,
    pmm: Pmm,
    size: usize,
    align: usize,
    r: (Option<u64>, Option<SlabPage>),
    s2: SlabAllocator,
    pmm2: Pmm,
) -> bool {
    match class_for_spec(request_bytes(size, align)) {
        None => r.0 is None && r.1 is None && s2 == s && pmm2 == pmm,
        Some(i) => {
            let fl = s.free_lists()[i];
            let o = class_size(i);
            if fl.len() > 0 {
                &&& r.0 == Some(fl[0])
                &&& r.1 is None
                &&& s2.free_lists() == s.free_lists().update(i, fl.drop_first())
                &&& s2.heads() == s.heads()
                &&& s2.next_slab_va() == s.next_slab_va()
                &&& s2.pages() == s.pages()
                &&& pmm2 == pmm
            } else if pmm.free_set() == Set::<int>::empty() {
                &&& r.0 is None
                &&& r.1 is None
                &&& s2.free_lists() == s.free_lists()
                &&& s2.heads() == s.heads()
                &&& s2.next_slab_va() == s.next_slab_va()
                &&& s2.pages() == s.pages()
                &&& pmm2.free_set() == pmm.free_set()
            } else {
                r.1 matches Some(pg) && {
                    &&& pg.va == s.next_slab_va()
                    &&& pg.next == s.heads()[i]
                    &&& pg.obj_size == o
                    &&& pg.cap == slab_capacity(o)
                    &&& pg.phys % (PAGE_SIZE as u64) == 0
                    &&& next_fit(pmm.free_set(), pmm.hint() as int, frame_of(pg.phys))
                    &&& pmm2.free_set() == pmm.free_set().remove(frame_of(pg.phys))
                    &&& r.0 == Some(slot(pg.va, o, 0) as u64)
                    &&& s2.free_lists() == s.free_lists().update(i, fresh_rest(pg.va, i))
                    &&& s2.heads() == s.heads().update(i, pg.va)
                    &&& s2.next_slab_va() == s.next_slab_va() + PAGE_SIZE
                    &&& s2.pages() == s.pages().insert(pg.va as int, i)
                }
            }
        },
    }
}

/// `a`, handed out for a request of `size` bytes aligned to `align`, is an object
/// of the request's class that was not live before and is now, aligned to its
/// class size (and to `align`), and it lies after the header of its slab page.
pub open spec fn fresh_object(s: SlabAllocator, s2: SlabAllocator, a: u64, size: usize, align: usize) -> bool {
    let o = class_size(class_of(s2.pages(), a as int));
    &&& class_for_spec(request_bytes(size, align)) == Some(class_of(s2.pages(), a as int))
    &&& !s.live(a)
    &&& s2.live(a)
    &&& a as int % o == 0
    &&& small_pow2(align as int) ==> a as int % align as int == 0
    &&& page_of(a as int) + header_bytes(o) <= a
    &&& a + o <= page_of(a as int) + PAGE_SIZE
    &&& size <= o
}

/// Effect of `SlabAllocator::dealloc`.
pub open spec fn freed(s: SlabAllocator, ptr: u64, size: usize, align: usize, s2: SlabAllocator) -> bool {
    &&& s2.heads() == s.heads()
    &&& s2.next_slab_va() == s.next_slab_va()
    &&& s2.pages() == s.pages()
    &&& match class_for_spec(request_bytes(size, align)) {
        None => s2.free_lists() == s.free_lists(),
        Some(i) => s2.free_lists() == s.free_lists().update(i, s.free_lists()[i].insert(0, ptr)),
    }
}

/// A well-formed slab allocator keeps one free list and one slab chain per class;
/// each free list holds distinct objects of its own class, and every slab page
/// lies between `SLAB_BASE` and the next slab address.
pub proof fn law_class_count(s: &SlabAllocator)
    requires
        s.wf(),
    ensures
        s.free_lists().len() == N_CLASSES,
        s.heads().len() == N_CLASSES,
        forall|i: int| 0 <= i < N_CLASSES ==> holds_objects(s.pages(), #[trigger] s.free_lists()[i], i),
        forall|p: int| #[trigger] s.pages().contains_key(p) ==> SLAB_BASE <= p && p + PAGE_SIZE <= s.next_slab_va(),
{
    assert forall|i: int| 0 <= i < N_CLASSES implies holds_objects(s.pages(), #[trigger] s.free_lists()[i], i) by {
        assert(s.free_lists()[i] == s.classes@[i].free_objects());
    }
    assert forall|p: int| #[trigger] s.pages().contains_key(p) implies SLAB_BASE <= p && p + PAGE_SIZE
        <= s.next_slab_va() by {
        lemma_page_below(p, s.slab_va as int);
    }
}

/// Two distinct slab objects never overlap.
pub proof fn law_objects_disjoint(s: &SlabAllocator, a: u64, b: u64)
    requires
        s.wf(),
        is_object(s.pages(), a as int),
        is_object(s.pages(), b as int),
        a != b,
    ensures
        a + class_size(class_of(s.pages(), a as int)) <= b || b + class_size(class_of(s.pages(), b as int)) <= a,
{
    lemma_disjoint(s.pages(), a as int, b as int);
}

/// Slab objects lie past the end of the linked-list heap and below the next slab
/// page, so the two allocators never hand out the same memory.
pub proof fn law_objects_outside_heap(s: &SlabAllocator, a: u64)
    requires
        s.wf(),
        is_object(s.pages(), a as int),
    ensures
        HEAP_START + HEAP_SIZE <= a,
        a + class_size(class_of(s.pages(), a as int)) <= s.next_slab_va(),
{
    lemma_object_facts(s.pages(), a as int);
    let p = page_of(a as int);
    assert(s.pages().contains_key(p));
    lemma_page_below(p, s.slab_va as int);
}

/// An object freed and then requested again in its class is handed straight back,
/// and the free lists are as they were before the free.
pub proof fn law_free_then_alloc(
    s0: SlabAllocator,
    s1: SlabAllocator,
    s2: SlabAllocator,
    pmm: Pmm,
    pmm2: Pmm,
    ptr: u64,
    size: usize,
    align: usize,
    size2: usize,
    align2: usize,
    r: (Option<u64>, Option<SlabPage>),
)
    requires
        s0.wf(),
        class_for_spec(request_bytes(size, align)) is Some,
        class_for_spec(request_bytes(size2, align2)) == class_for_spec(request_bytes(size, align)),
        freed(s0, ptr, size, align, s1),
        allocated(s1, pmm, size2, align2, r, s2, pmm2),
    ensures
        r.0 == Some(ptr),
        r.1 is None,
        s2.free_lists() == s0.free_lists(),
        s2.pages() == s0.pages(),
        pmm2 == pmm,
{
    let i = class_for_spec(request_bytes(size, align)).unwrap();
    let fl = s0.free_lists()[i];
    assert(s1.free_lists()[i] == fl.insert(0, ptr));
    assert(fl.insert(0, ptr).drop_first() =~= fl);
    assert(s2.free_lists() =~= s0.free_lists());
}

/// Every object of a slab page lies inside the page, after its header, and objects
/// of one page do not overlap.
pub proof fn law_slots_inside_page(i: int, va: u64, k: int)
    requires
        0 <= i < N_CLASSES,
        0 <= k < slab_capacity(class_size(i)),
    ensures
        va + SLAB_HEADER_SIZE <= slot(va, class_size(i), k),
        slot(va, class_size(i), k) + class_size(i) <= va + PAGE_SIZE,
        slot(va, class_size(i), k) + class_size(i) <= slot(va, class_size(i), k + 1),
{
    lemma_geometry(i);
    let o = class_size(i);
    assert(k * o + o <= slab_capacity(o) * o) by (nonlinear_arith)
        requires
            k + 1 <= slab_capacity(o),
            o >= 0,
    ;
    assert(k * o >= 0) by (nonlinear_arith)
        requires
            k >= 0,
            o >= 0,
    ;
    assert((k + 1) * o == k * o + o) by (nonlinear_arith);
}

} // verus!
