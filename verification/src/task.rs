//! Task control blocks and kernel-thread creation.
use vstd::prelude::*;
use vstd::set_lib::*;
use crate::pmm::{Pmm, PAGE_SIZE, alloc_frames, has_run, first_run, frame_of};

verus! {

#[derive(Clone, Copy, Debug, PartialEq, Eq, Structural)]
pub enum TaskState {
    Running,
    Ready,
    Blocked,
    Zombie,
}

/// Registers saved across a context switch.
#[derive(Clone, Copy, Debug)]
pub struct CpuContext {
    pub r15: u64,
    pub r14: u64,
    pub r13: u64,
    pub r12: u64,
    pub rbx: u64,
    pub rbp: u64,
    pub rsp: u64,
    pub rip: u64,
    pub rflags: u64,
}

impl Default for CpuContext {
    fn default() -> (c: Self)
        ensures
            c == CpuContext::zeroed(),
    {
        CpuContext { r15: 0, r14: 0, r13: 0, r12: 0, rbx: 0, rbp: 0, rsp: 0, rip: 0, rflags: 0 }
    }
}

impl CpuContext {
    /// The context with every register zero.
    pub open spec fn zeroed() -> CpuContext {
        CpuContext { r15: 0, r14: 0, r13: 0, r12: 0, rbx: 0, rbp: 0, rsp: 0, rip: 0, rflags: 0 }
    }
}

pub const KSTACK_PAGES: usize = 4;

pub const KSTACK_SIZE: usize = 16384;

/// Virtual address of the first kernel stack.
pub const KSTACK_BASE: u64 = 0xFFFF_E000_0000_0000;

/// Flags value with only the interrupt flag (and the always-one bit) set.
pub const INITIAL_RFLAGS: u64 = 0x202;

pub struct Task {
    pub pid: u64,
    pub ppid: u64,
    pub state: TaskState,
    pub ctx: CpuContext,
    /// Top of the kernel stack: one past its highest byte.
    pub kstack: u64,
    pub name: &'static str,
    pub ticks: u64,
    pub priority: i8,
}

/// The counters behind task creation: the next process id and the virtual address
/// of the next kernel stack. Stacks are spaced with an unmapped guard page between them.
pub struct TaskFactory {
    pub next_pid: u64,
    pub next_stack_va: u64,
}

impl TaskFactory {
    /// Process ids start at 1; stacks start at `KSTACK_BASE`.
    pub fn new() -> (f: Self)
        ensures
            f.next_pid == 1,
            f.next_stack_va == KSTACK_BASE,
    {
        TaskFactory { next_pid: 1, next_stack_va: KSTACK_BASE }
    }
}

/// A page of a kernel stack to map: virtual address, physical address.
pub struct StackPage {
    pub va: u64,
    pub pa: u64,
}

/// `pages` is a kernel stack at `va`: `KSTACK_PAGES` consecutive pages backed by the
/// lowest run of as many free frames of `before`, which `after` no longer holds.
pub open spec fn stack_taken(pages: Seq<StackPage>, va: u64, before: Set<int>, after: Set<int>) -> bool {
    let phys = pages[0].pa;
    &&& pages.len() == KSTACK_PAGES
    &&& phys % (PAGE_SIZE as u64) == 0
    &&& first_run(before, KSTACK_PAGES as int, frame_of(phys))
    &&& after == before.difference(set_int_range(frame_of(phys), frame_of(phys) + KSTACK_PAGES))
    &&& forall|i: int|
        0 <= i < KSTACK_PAGES ==> (#[trigger] pages[i]).va == va + i * PAGE_SIZE && pages[i].pa
            == phys + i * PAGE_SIZE
}

/// The task factory after one more task: the next pid (wrapping) and the next stack
/// address, one guard page past the stack just handed out.
pub open spec fn factory_after(f: TaskFactory) -> TaskFactory {
    TaskFactory {
        next_pid: if f.next_pid == u64::MAX {
            0
        } else {
            (f.next_pid + 1) as u64
        },
        next_stack_va: (f.next_stack_va + KSTACK_SIZE + PAGE_SIZE) as u64,
    }
}

/// Takes `KSTACK_PAGES` contiguous frames and the next stack address; returns the
/// stack's base address and the pages the caller must map.
fn alloc_kstack(f: &mut TaskFactory, pmm: &mut Pmm) -> (r: (u64, Vec<StackPage>))
    requires
        old(pmm).wf(),
        has_run(old(pmm).free_set(), KSTACK_PAGES as int),
        old(f).next_stack_va + KSTACK_SIZE + PAGE_SIZE <= u64::MAX,
    ensures
        final(pmm).wf(),
        final(pmm).total() == old(pmm).total(),
        r.0 == old(f).next_stack_va,
        final(f).next_stack_va == old(f).next_stack_va + KSTACK_SIZE + PAGE_SIZE,
        final(f).next_pid == old(f).next_pid,
        stack_taken(r.1@, r.0, old(pmm).free_set(), final(pmm).free_set()),
{
    let phys = match alloc_frames(pmm, KSTACK_PAGES) {
        Some(p) => p,
        None => {
            assert(false);
            0
        },
    };
    let va = f.next_stack_va;
    f.next_stack_va = f.next_stack_va + KSTACK_SIZE as u64 + PAGE_SIZE as u64;
    proof {
        assert(pmm.free_set().finite()) by {
            pmm.lemma_free_set_bounded();
        }
        assert(frame_of(phys) + KSTACK_PAGES <= 1048576) by {
            assert(old(pmm).free_set().contains(frame_of(phys) + KSTACK_PAGES - 1));
            old(pmm).lemma_free_set_bounded();
        }
    }
    let mut pages: Vec<StackPage> = Vec::new();
    let mut i: usize = 0;
    while i < KSTACK_PAGES
        invariant
            i <= KSTACK_PAGES,
            pages@.len() == i,
            va + KSTACK_SIZE <= u64::MAX,
            phys as int + KSTACK_SIZE <= u64::MAX,
            forall|j: int|
                0 <= j < i ==> (#[trigger] pages@[j]).va == va + j * PAGE_SIZE && pages@[j].pa
                    == phys + j * PAGE_SIZE,
        decreases KSTACK_PAGES - i,
    {
        pages.push(
            StackPage {
                va: va + (i * PAGE_SIZE) as u64,
                pa: phys + (i * PAGE_SIZE) as u64,
            },
        );
        i = i + 1;
    }
    (va, pages)
}

impl Task {
    /// A kernel thread that starts at `entry` on a fresh kernel stack, ready to run,
    /// and the stack pages the caller must map.
    pub fn new_kernel(
        entry: u64,
        name: &'static str,
        priority: i8,
        f: &mut TaskFactory,
        pmm: &mut Pmm,
    ) -> (r: (Box<Task>, Vec<StackPage>))
        requires
            old(pmm).wf(),
            has_run(old(pmm).free_set(), KSTACK_PAGES as int),
            old(f).next_stack_va + KSTACK_SIZE + PAGE_SIZE <= u64::MAX,
        ensures
            final(pmm).wf(),
            final(pmm).total() == old(pmm).total(),
            *final(f) == factory_after(*old(f)),
            r.0.pid == old(f).next_pid,
            r.0.ppid == 0,
            r.0.state == TaskState::Ready,
            r.0.kstack == old(f).next_stack_va + KSTACK_SIZE,
            r.0.ctx == (CpuContext {
                rip: entry,
                rsp: (old(f).next_stack_va + KSTACK_SIZE - 8) as u64,
                rflags: INITIAL_RFLAGS,
                ..CpuContext::zeroed()
            }),
            r.0.name@ == name@,
            r.0.ticks == 0,
            r.0.priority == priority,
            stack_taken(r.1@, old(f).next_stack_va, old(pmm).free_set(), final(pmm).free_set()),
    {
        let pid = f.next_pid;
        f.next_pid = f.next_pid.wrapping_add(1);
        let (stack, pages) = alloc_kstack(f, pmm);
        let top = stack + KSTACK_SIZE as u64;
        let mut ctx = CpuContext::default();
        ctx.rip = entry;
        ctx.rsp = top - 8;
        ctx.rflags = INITIAL_RFLAGS;
        (
            Box::new(
                Task {
                    pid,
                    ppid: 0,
                    state: TaskState::Ready,
                    ctx,
                    kstack: top,
                    name,
                    ticks: 0,
                    priority,
                },
            ),
            pages,
        )
    }
}

/// Two tasks made one after the other get consecutive pids (unless the counter
/// wraps) and stacks `KSTACK_SIZE + PAGE_SIZE` apart: the stacks are disjoint and an
/// unmapped guard page separates them.
pub proof fn law_tasks_in_sequence(f: TaskFactory)
    requires
        f.next_pid < u64::MAX,
        f.next_stack_va + 2 * (KSTACK_SIZE + PAGE_SIZE) <= u64::MAX,
    ensures
        factory_after(f).next_pid == f.next_pid + 1,
        factory_after(f).next_stack_va == f.next_stack_va + KSTACK_SIZE + PAGE_SIZE,
        f.next_stack_va + KSTACK_SIZE + PAGE_SIZE <= factory_after(f).next_stack_va,
        factory_after(factory_after(f)).next_stack_va == f.next_stack_va + 2 * (KSTACK_SIZE
            + PAGE_SIZE),
{
}

/// Nothing to set up: the idle task is created by the scheduler.
pub fn init() {
}

/// Adds `task` to the list of every task.
pub fn register(all: &mut Vec<Box<Task>>, task: Box<Task>)
    ensures
        final(all)@ == old(all)@.push(task),
{
    all.push(task);
}

} // verus!
