//! Round-robin scheduler with nice priorities: forty ready queues, one per nice
//! value from -20 (runs first) to 19, each served first in, first out.
use vstd::prelude::*;
use std::collections::VecDeque;
use crate::task::{Task, TaskState, TaskFactory, StackPage, CpuContext, KSTACK_PAGES, KSTACK_SIZE, INITIAL_RFLAGS, stack_taken, factory_after};
use crate::pmm::{Pmm, PAGE_SIZE, has_run};

verus! {

pub const PRIO_LEVELS: usize = 40;

pub struct RunQueue {
    buckets: Vec<VecDeque<Box<Task>>>,
    current: Option<Box<Task>>,
    idle: Option<Box<Task>>,
}

/// The ready queue that a task of nice value `p` waits in.
pub open spec fn bucket_of(p: i8) -> int {
    let x = p + 20;
    if x < 0 {
        0
    } else if x > 39 {
        39
    } else {
        x
    }
}

/// Index of the first non-empty queue, or the number of queues if all are empty.
pub open spec fn first_ready(q: Seq<Seq<Box<Task>>>) -> int
    decreases q.len(),
{
    if q.len() == 0 {
        0
    } else if q[0].len() > 0 {
        0
    } else {
        1 + first_ready(q.drop_first())
    }
}

impl RunQueue {
    /// The ready queues, highest priority first, each oldest first.
    pub closed spec fn queues(&self) -> Seq<Seq<Box<Task>>> {
        Seq::new(self.buckets@.len(), |i: int| self.buckets@[i]@)
    }

    /// The task that is running.
    pub closed spec fn running(&self) -> Option<Box<Task>> {
        self.current
    }

    /// The idle task, until the scheduler starts.
    pub closed spec fn idle_task(&self) -> Option<Box<Task>> {
        self.idle
    }

    pub closed spec fn wf(&self) -> bool {
        self.buckets@.len() == PRIO_LEVELS
    }

    /// Empty ready queues, nothing running, `idle` held back.
    pub fn new(idle: Box<Task>) -> (rq: Self)
        ensures
            rq.wf(),
            rq.queues() == Seq::new(PRIO_LEVELS as nat, |i: int| Seq::<Box<Task>>::empty()),
            rq.running() is None,
            rq.idle_task() == Some(idle),
    {
        let mut buckets: Vec<VecDeque<Box<Task>>> = Vec::new();
        while buckets.len() < PRIO_LEVELS
            invariant
                buckets@.len() <= PRIO_LEVELS,
                forall|i: int| 0 <= i < buckets@.len() ==> (#[trigger] buckets@[i])@.len() == 0,
            decreases PRIO_LEVELS - buckets@.len(),
        {
            buckets.push(VecDeque::new());
        }
        let rq = RunQueue { buckets, current: None, idle: Some(idle) };
        assert forall|i: int| 0 <= i < PRIO_LEVELS implies #[trigger] rq.queues()[i] == Seq::<
            Box<Task>,
        >::empty() by {
            assert(rq.queues()[i] =~= Seq::<Box<Task>>::empty());
        }
        assert(rq.queues() =~= Seq::new(PRIO_LEVELS as nat, |i: int| Seq::<Box<Task>>::empty()));
        rq
    }

    /// The running task.
    pub fn current(&self) -> (r: Option<&Box<Task>>)
        ensures
            r is None <==> self.running() is None,
            r matches Some(t) ==> self.running() == Some(*t),
    {
        self.current.as_ref()
    }

    /// The idle task is still held back (the scheduler has not started).
    pub fn has_idle(&self) -> (r: bool)
        ensures
            r == self.idle_task() is Some,
    {
        self.idle.is_some()
    }

    /// Number of tasks waiting in queue `i`.
    pub fn queue_len(&self, i: usize) -> (n: usize)
        requires
            self.wf(),
            i < PRIO_LEVELS,
        ensures
            n == self.queues()[i as int].len(),
    {
        self.buckets[i].len()
    }

    /// The newest task of queue `i`.
    pub fn last_in(&self, i: usize) -> (r: Option<&Box<Task>>)
        requires
            self.wf(),
            i < PRIO_LEVELS,
        ensures
            r is None <==> self.queues()[i as int].len() == 0,
            r matches Some(t) ==> *t == self.queues()[i as int].last(),
    {
        let n = self.buckets[i].len();
        if n == 0 {
            None
        } else {
            Some(&self.buckets[i][n - 1])
        }
    }

    /// Queues `task` at the back of the queue for its nice value.
    pub fn push(&mut self, task: Box<Task>)
        requires
            old(self).wf(),
            task.priority <= 107,
        ensures
            final(self).wf(),
            final(self).queues() == old(self).queues().update(
                bucket_of(task.priority),
                old(self).queues()[bucket_of(task.priority)].push(task),
            ),
            final(self).running() == old(self).running(),
            final(self).idle_task() == old(self).idle_task(),
    {
        let x = task.priority + 20;
        let idx: usize = if x < 0 {
            0
        } else if x > 39 {
            39
        } else {
            x as usize
        };
        self.buckets[idx].push_back(task);
        assert(self.queues() =~= old(self).queues().update(
            bucket_of(task.priority),
            old(self).queues()[bucket_of(task.priority)].push(task),
        ));
    }

    /// Takes the oldest task of the highest-priority non-empty queue.
    pub fn pop_highest(&mut self) -> (r: Option<Box<Task>>)
        requires
            old(self).wf(),
        ensures
            final(self).wf(),
            final(self).running() == old(self).running(),
            final(self).idle_task() == old(self).idle_task(),
            r is None <==> first_ready(old(self).queues()) == PRIO_LEVELS,
            r is None ==> final(self).queues() == old(self).queues(),
            r matches Some(t) ==> {
                let q = old(self).queues();
                let b = first_ready(q);
                &&& b < PRIO_LEVELS
                &&& t == q[b][0]
                &&& final(self).queues() == q.update(b, q[b].drop_first())
            },
    {
        proof {
            lemma_first_ready(self.queues());
        }
        let mut i: usize = 0;
        while i < PRIO_LEVELS
            invariant
                self.queues() == old(self).queues(),
                self.current == old(self).current,
                self.idle == old(self).idle,
                self.wf(),
                i <= PRIO_LEVELS,
                forall|j: int| 0 <= j < i ==> (#[trigger] self.queues()[j]).len() == 0,
                first_ready(self.queues()) < PRIO_LEVELS ==> first_ready(self.queues()) >= i,
                0 <= first_ready(self.queues()) <= PRIO_LEVELS,
                first_ready(self.queues()) < PRIO_LEVELS ==> self.queues()[first_ready(
                    self.queues(),
                )].len() > 0,
                forall|j: int|
                    0 <= j < first_ready(self.queues()) ==> (#[trigger] self.queues()[j]).len() == 0,
            decreases PRIO_LEVELS - i,
        {
            let ghost q = self.queues();
            let t = self.buckets[i].pop_front();
            match t {
                Some(task) => {
                    proof {
                        assert(q[i as int].len() > 0);
                        assert(q == old(self).queues());
                        assert(first_ready(old(self).queues()) == i);
                        assert(self.queues() =~= old(self).queues().update(
                            i as int,
                            old(self).queues()[i as int].drop_first(),
                        ));
                    }
                    return Some(task);
                },
                None => {
                    assert(self.queues() =~= old(self).queues());
                },
            }
            i = i + 1;
        }
        None
    }
}

/// `first_ready` names the first non-empty queue, or the number of queues.
pub proof fn lemma_first_ready(q: Seq<Seq<Box<Task>>>)
    ensures
        0 <= first_ready(q) <= q.len(),
        first_ready(q) < q.len() ==> q[first_ready(q)].len() > 0,
        forall|j: int| 0 <= j < first_ready(q) ==> (#[trigger] q[j]).len() == 0,
    decreases q.len(),
{
    if q.len() > 0 && q[0].len() == 0 {
        lemma_first_ready(q.drop_first());
        assert forall|j: int| 0 <= j < first_ready(q) implies (#[trigger] q[j]).len() == 0 by {
            if j > 0 {
                assert(q[j] == q.drop_first()[j - 1]);
            }
        }
    }
}

/// The run queue and the tick counter.
pub struct Scheduler {
    rq: Option<RunQueue>,
    ticks: u64,
}

/// `t` with a new state.
pub open spec fn with_state(t: Box<Task>, s: TaskState) -> Box<Task> {
    Box::new(Task { state: s, ..*t })
}

/// `t` running, charged one more time slice.
pub open spec fn dispatched(t: Box<Task>) -> Box<Task> {
    Box::new(Task { state: TaskState::Running, ticks: (t.ticks + 1) as u64, ..*t })
}

/// A scheduling decision can be made without overflow: when a switch is due (a
/// task runs and another is ready), the running task can be queued again and the
/// next task's slice count can grow.
pub open spec fn switch_sound(rq: Option<RunQueue>) -> bool {
    rq matches Some(q) ==> {
        &&& q.wf()
        &&& (q.running() is Some && first_ready(q.queues()) < PRIO_LEVELS) ==> q.running().unwrap().priority
            <= 107 && q.queues()[first_ready(q.queues())][0].ticks < u64::MAX
    }
}

/// What one scheduling decision does to the run queue, and which queue the
/// preempted task went to when a context switch is due.
pub open spec fn scheduled(before: Option<RunQueue>, after: Option<RunQueue>, r: Option<usize>) -> bool {
    match before {
        None => after is None && r is None,
        Some(q0) => {
            let qs = q0.queues();
            let b = first_ready(qs);
            &&& after matches Some(q1) && {
                &&& q1.wf()
                &&& q1.idle_task() == q0.idle_task()
                &&& if b == PRIO_LEVELS {
                    &&& r is None
                    &&& q1.queues() == qs
                    &&& q1.running() == q0.running()
                } else {
                    let next = qs[b][0];
                    let mid = qs.update(b, qs[b].drop_first());
                    match q0.running() {
                        None => {
                            &&& r is None
                            &&& q1.queues() == qs
                            &&& q1.running() is None
                        },
                        Some(prev) => {
                            let pb = bucket_of(prev.priority);
                            &&& r == Some(pb as usize)
                            &&& q1.queues() == mid.update(
                                pb,
                                mid[pb].push(with_state(prev, TaskState::Ready)),
                            )
                            &&& q1.running() == Some(dispatched(next))
                        },
                    }
                }
            }
        },
    }
}

impl Scheduler {
    pub closed spec fn run_queue(&self) -> Option<RunQueue> {
        self.rq
    }

    pub closed spec fn tick_count(&self) -> u64 {
        self.ticks
    }

    pub closed spec fn wf(&self) -> bool {
        self.rq matches Some(q) ==> q.wf()
    }

    /// The run queue, once initialised.
    pub fn run_queue_ref(&self) -> (r: Option<&RunQueue>)
        ensures
            r is None <==> self.run_queue() is None,
            r matches Some(q) ==> self.run_queue() == Some(*q),
    {
        self.rq.as_ref()
    }

    /// No run queue yet, no ticks counted.
    pub fn new() -> (s: Self)
        ensures
            s.wf(),
            s.run_queue() is None,
            s.tick_count() == 0,
    {
        Scheduler { rq: None, ticks: 0 }
    }
}

/// Creates the idle task (nice 19, entry `idle_entry`) and an empty run queue
/// holding it back. Returns the idle task's stack pages, which the caller maps.
pub fn init(sched: &mut Scheduler, tasks: &mut TaskFactory, pmm: &mut Pmm, idle_entry: u64) -> (pages:
    Vec<StackPage>)
    requires
        old(pmm).wf(),
        has_run(old(pmm).free_set(), KSTACK_PAGES as int),
        old(tasks).next_stack_va + KSTACK_SIZE + PAGE_SIZE <= u64::MAX,
    ensures
        final(pmm).wf(),
        final(pmm).total() == old(pmm).total(),
        final(sched).wf(),
        final(sched).tick_count() == old(sched).tick_count(),
        *final(tasks) == factory_after(*old(tasks)),
        stack_taken(pages@, old(tasks).next_stack_va, old(pmm).free_set(), final(pmm).free_set()),
        final(sched).run_queue() matches Some(q) && {
            &&& q.queues() == Seq::new(PRIO_LEVELS as nat, |i: int| Seq::<Box<Task>>::empty())
            &&& q.running() is None
            &&& q.idle_task() == Some(
                Box::new(
                    Task {
                        pid: old(tasks).next_pid,
                        ppid: 0,
                        state: TaskState::Ready,
                        ctx: CpuContext {
                            rip: idle_entry,
                            rsp: (old(tasks).next_stack_va + KSTACK_SIZE - 8) as u64,
                            rflags: INITIAL_RFLAGS,
                            ..CpuContext::zeroed()
                        },
                        kstack: (old(tasks).next_stack_va + KSTACK_SIZE) as u64,
                        name: q.idle_task().unwrap().name,
                        ticks: 0,
                        priority: 19,
                    },
                ),
            )
            &&& q.idle_task().unwrap().name@ == "idle"@
        },
{
    let (idle, pages) = Task::new_kernel(idle_entry, "idle", 19, tasks, pmm);
    sched.rq = Some(RunQueue::new(idle));
    pages
}

/// Queues `task` once the scheduler is initialised; before that it is dropped.
pub fn spawn(sched: &mut Scheduler, task: Box<Task>)
    requires
        old(sched).wf(),
        task.priority <= 107,
    ensures
        final(sched).wf(),
        final(sched).tick_count() == old(sched).tick_count(),
        old(sched).run_queue() is None ==> final(sched).run_queue() is None,
        old(sched).run_queue() matches Some(q0) ==> final(sched).run_queue() matches Some(q1) && {
            &&& q1.queues() == q0.queues().update(
                bucket_of(task.priority),
                q0.queues()[bucket_of(task.priority)].push(task),
            )
            &&& q1.running() == q0.running()
            &&& q1.idle_task() == q0.idle_task()
        },
{
    match &mut sched.rq {
        Some(rq) => rq.push(task),
        None => {},
    }
}

/// One scheduling decision: the oldest task of the highest-priority queue takes
/// over from the running task, which goes to the back of its own queue. Before the
/// scheduler has started (nothing running) no task leaves its queue. Returns
/// that queue's index when a context switch is due; the switch itself is the
/// caller's.
pub fn schedule(sched: &mut Scheduler) -> (r: Option<usize>)
    requires
        old(sched).wf(),
        switch_sound(old(sched).run_queue()),
    ensures
        final(sched).wf(),
        final(sched).tick_count() == old(sched).tick_count(),
        scheduled(old(sched).run_queue(), final(sched).run_queue(), r),
{
    let rq = match &mut sched.rq {
        Some(r) => r,
        None => return None,
    };
    if rq.current.is_none() {
        return None;
    }
    let mut next = match rq.pop_highest() {
        Some(t) => t,
        None => return None,
    };
    let mut prev = match rq.current.take() {
        Some(p) => p,
        None => return None,
    };
    prev.state = TaskState::Ready;
    next.state = TaskState::Running;
    next.ticks = next.ticks + 1;
    let x = prev.priority + 20;
    let pb: usize = if x < 0 {
        0
    } else if x > 39 {
        39
    } else {
        x as usize
    };
    rq.push(prev);
    rq.current = Some(next);
    Some(pb)
}

/// Whether a scheduling decision can be made now without overflow.
pub fn switch_ok(sched: &Scheduler) -> (r: bool)
    requires
        sched.wf(),
    ensures
        r == switch_sound(sched.run_queue()),
{
    match &sched.rq {
        None => true,
        Some(q) => {
            let p = match &q.current {
                Some(p) => p,
                None => return true,
            };
            proof {
                lemma_first_ready(q.queues());
            }
            let mut i: usize = 0;
            while i < PRIO_LEVELS
                invariant
                    q.wf(),
                    sched.run_queue() == Some(*q),
                    q.running() == Some(*p),
                    i <= PRIO_LEVELS,
                    forall|j: int| 0 <= j < i ==> (#[trigger] q.queues()[j]).len() == 0,
                    0 <= first_ready(q.queues()) <= PRIO_LEVELS,
                    first_ready(q.queues()) < PRIO_LEVELS ==> q.queues()[first_ready(q.queues())].len() > 0,
                    forall|j: int| 0 <= j < first_ready(q.queues()) ==> (#[trigger] q.queues()[j]).len() == 0,
                decreases PRIO_LEVELS - i,
            {
                if q.buckets[i].len() > 0 {
                    assert(q.queues()[i as int].len() > 0);
                    assert(first_ready(q.queues()) == i);
                    return p.priority <= 107 && q.buckets[i][0].ticks < u64::MAX;
                }
                assert(q.queues()[i as int].len() == 0);
                i = i + 1;
            }
            true
        },
    }
}

/// Whether the next timer tick can be taken without overflow.
pub fn tick_ok(sched: &Scheduler) -> (r: bool)
    requires
        sched.wf(),
    ensures
        r == switch_sound(sched.run_queue()),
{
    switch_ok(sched)
}

/// One timer tick (10 ms at 100 Hz): counts it and pre-empts the running task if
/// another task is ready.
pub fn tick(sched: &mut Scheduler) -> (r: Option<usize>)
    requires
        old(sched).wf(),
        switch_sound(old(sched).run_queue()),
    ensures
        final(sched).wf(),
        final(sched).tick_count() == next_tick(old(sched).tick_count()),
        scheduled(old(sched).run_queue(), final(sched).run_queue(), r),
{
    sched.ticks = sched.ticks.wrapping_add(1);
    schedule(sched)
}

/// The tick counter after one more tick; it wraps around.
pub open spec fn next_tick(t: u64) -> u64 {
    if t == u64::MAX {
        0
    } else {
        (t + 1) as u64
    }
}

/// Number of timer ticks counted.
pub fn total_ticks(sched: &Scheduler) -> (r: u64)
    ensures
        r == sched.tick_count(),
{
    sched.ticks
}

/// Makes the idle task the running one, as the scheduler starts.
pub fn install_idle(sched: &mut Scheduler)
    requires
        old(sched).wf(),
        old(sched).run_queue() matches Some(q) && q.idle_task() is Some,
    ensures
        final(sched).wf(),
        final(sched).tick_count() == old(sched).tick_count(),
        old(sched).run_queue() matches Some(q0) && final(sched).run_queue() matches Some(q1) && {
            &&& q1.queues() == q0.queues()
            &&& q1.idle_task() is None
            &&& q1.running() == Some(with_state(q0.idle_task().unwrap(), TaskState::Running))
        },
{
    let rq = match &mut sched.rq {
        Some(r) => r,
        None => return,
    };
    let mut idle = match rq.idle.take() {
        Some(t) => t,
        None => return,
    };
    idle.state = TaskState::Running;
    rq.current = Some(idle);
}

/// Number of tasks waiting in the ready queues.
pub open spec fn task_count(q: Seq<Seq<Box<Task>>>) -> int
    decreases q.len(),
{
    if q.len() == 0 {
        0
    } else {
        task_count(q.drop_last()) + q.last().len()
    }
}

/// Replacing one queue changes the count by the difference in its length.
pub proof fn lemma_task_count_update(q: Seq<Seq<Box<Task>>>, i: int, s: Seq<Box<Task>>)
    requires
        0 <= i < q.len(),
    ensures
        task_count(q.update(i, s)) == task_count(q) - q[i].len() + s.len(),
    decreases q.len(),
{
    if i < q.len() - 1 {
        lemma_task_count_update(q.drop_last(), i, s);
        assert(q.update(i, s).drop_last() =~= q.drop_last().update(i, s));
    } else {
        assert(q.update(i, s).drop_last() =~= q.drop_last());
    }
}

/// A context switch neither loses nor duplicates a task: the ready queues hold as
/// many tasks after it as before, one having left and the preempted one having come
/// back, and the preempted task is last in its queue.
pub proof fn law_switch_keeps_tasks(q0: RunQueue, q1: RunQueue, r: Option<usize>)
    requires
        q0.wf(),
        scheduled(Some(q0), Some(q1), r),
        r is Some,
    ensures
        task_count(q1.queues()) == task_count(q0.queues()),
        q1.queues()[r.unwrap() as int].last() == with_state(q0.running().unwrap(), TaskState::Ready),
        q1.running() == Some(dispatched(q0.queues()[first_ready(q0.queues())][0])),
{
    let qs = q0.queues();
    let b = first_ready(qs);
    lemma_first_ready(qs);
    let mid = qs.update(b, qs[b].drop_first());
    let prev = q0.running().unwrap();
    let pb = bucket_of(prev.priority);
    lemma_task_count_update(qs, b, qs[b].drop_first());
    lemma_task_count_update(mid, pb, mid[pb].push(with_state(prev, TaskState::Ready)));
}

/// A task in a higher-priority queue always runs before any task in a lower one:
/// the task dispatched comes from the first non-empty queue.
pub proof fn law_highest_priority_first(q0: RunQueue, q1: RunQueue, r: Option<usize>)
    requires
        q0.wf(),
        scheduled(Some(q0), Some(q1), r),
        r is Some,
    ensures
        forall|j: int| 0 <= j < first_ready(q0.queues()) ==> (#[trigger] q0.queues()[j]).len() == 0,
        first_ready(q0.queues()) < PRIO_LEVELS,
{
    lemma_first_ready(q0.queues());
}

/// A well-formed run queue has one ready queue per nice value.
pub proof fn law_queue_levels(q: &RunQueue)
    requires
        q.wf(),
    ensures
        q.queues().len() == PRIO_LEVELS,
{
}

/// Within one nice value, tasks run in the order they were queued: after queueing
/// `t1` and then `t2` in queue `b`, with every higher-priority queue empty, the first
/// task taken is `t1` and the next is `t2`.
pub proof fn law_fifo_within_level(q: Seq<Seq<Box<Task>>>, b: int, t1: Box<Task>, t2: Box<Task>)
    requires
        q.len() == PRIO_LEVELS,
        0 <= b < PRIO_LEVELS,
        forall|j: int| 0 <= j <= b ==> (#[trigger] q[j]).len() == 0,
    ensures
        ({
            let q1 = q.update(b, q[b].push(t1));
            let q2 = q1.update(b, q1[b].push(t2));
            let q3 = q2.update(first_ready(q2), q2[first_ready(q2)].drop_first());
            &&& first_ready(q2) == b
            &&& q2[b][0] == t1
            &&& first_ready(q3) == b
            &&& q3[b][0] == t2
        }),
{
    let q1 = q.update(b, q[b].push(t1));
    let q2 = q1.update(b, q1[b].push(t2));
    lemma_first_ready(q2);
    assert(q2[b].len() == 2);
    if first_ready(q2) < b {
        assert(q2[first_ready(q2)] == q[first_ready(q2)]);
    }
    let q3 = q2.update(b, q2[b].drop_first());
    lemma_first_ready(q3);
    assert(q3[b].len() == 1);
    if first_ready(q3) < b {
        assert(q3[first_ready(q3)] == q[first_ready(q3)]);
    }
}

/// The tasks of `ts` that wait in queue `b`, in the order of `ts`.
pub open spec fn in_level(ts: Seq<Box<Task>>, b: int) -> Seq<Box<Task>>
    decreases ts.len(),
{
    if ts.len() == 0 {
        Seq::empty()
    } else if bucket_of(ts.last().priority) == b {
        in_level(ts.drop_last(), b).push(ts.last())
    } else {
        in_level(ts.drop_last(), b)
    }
}

/// The ready queues after `push` has queued each task of `ts`, in order.
pub open spec fn pushed(q: Seq<Seq<Box<Task>>>, ts: Seq<Box<Task>>) -> Seq<Seq<Box<Task>>>
    decreases ts.len(),
{
    if ts.len() == 0 {
        q
    } else {
        let q1 = pushed(q, ts.drop_last());
        let b = bucket_of(ts.last().priority);
        q1.update(b, q1[b].push(ts.last()))
    }
}

/// Queue `b` after pushing `ts` onto empty queues holds the tasks of `ts` for `b`.
proof fn lemma_pushed_levels(q: Seq<Seq<Box<Task>>>, ts: Seq<Box<Task>>)
    requires
        q.len() == PRIO_LEVELS,
        forall|b: int| 0 <= b < PRIO_LEVELS ==> (#[trigger] q[b]).len() == 0,
    ensures
        pushed(q, ts).len() == PRIO_LEVELS,
        forall|b: int| 0 <= b < PRIO_LEVELS ==> #[trigger] pushed(q, ts)[b] == in_level(ts, b),
    decreases ts.len(),
{
    if ts.len() > 0 {
        lemma_pushed_levels(q, ts.drop_last());
    } else {
        assert forall|b: int| 0 <= b < PRIO_LEVELS implies #[trigger] pushed(q, ts)[b] == in_level(ts, b) by {
            assert(q[b] =~= Seq::<Box<Task>>::empty());
        }
    }
}

/// The level of task `t`'s queue.
pub open spec fn level(t: Box<Task>) -> int {
    bucket_of(t.priority)
}

/// Which tasks of `ts` wait in queue `b`: none if no task of `ts` has level `b`,
/// and otherwise the first of them, at index `k`, heads the queue.
proof fn lemma_in_level(ts: Seq<Box<Task>>, b: int) -> (k: int)
    ensures
        forall|i: int| 0 <= i < ts.len() && level(#[trigger] ts[i]) == b ==> in_level(ts, b).len() > 0,
        in_level(ts, b).len() > 0 ==> {
            &&& 0 <= k < ts.len()
            &&& level(ts[k]) == b
            &&& in_level(ts, b)[0] == ts[k]
            &&& forall|j: int| 0 <= j < k ==> level(#[trigger] ts[j]) != b
        },
    decreases ts.len(),
{
    if ts.len() == 0 {
        0
    } else {
        let ts0 = ts.drop_last();
        let k0 = lemma_in_level(ts0, b);
        let n = ts.len() - 1;
        if in_level(ts0, b).len() > 0 {
            assert(ts[k0] == ts0[k0]);
            assert forall|j: int| 0 <= j < k0 implies level(#[trigger] ts[j]) != b by {
                assert(ts[j] == ts0[j]);
            }
            assert forall|i: int| 0 <= i < ts.len() && level(#[trigger] ts[i]) == b implies in_level(ts, b).len() > 0 by {}
            k0
        } else {
            assert forall|j: int| 0 <= j < n implies level(#[trigger] ts[j]) != b by {
                assert(ts[j] == ts0[j]);
                if level(ts0[j]) == b {
                    assert(in_level(ts0, b).len() > 0);
                }
            }
            assert forall|i: int| 0 <= i < ts.len() && level(#[trigger] ts[i]) == b implies in_level(ts, b).len() > 0 by {
                if i < n {
                    assert(level(ts[i]) != b);
                }
            }
            n
        }
    }
}

/// The order in which tasks leave the run queue: after tasks `ts` are queued, in
/// order, on empty queues, queue `b` holds exactly the tasks of `ts` with level `b`
/// in the order they came, no queue holds a task only if `ts` is empty, and the
/// task that `pop_highest` takes (the head of the first non-empty queue) is the
/// first task of `ts` among those of the highest priority.
pub proof fn law_pop_order(q: Seq<Seq<Box<Task>>>, ts: Seq<Box<Task>>)
    requires
        q.len() == PRIO_LEVELS,
        forall|b: int| 0 <= b < PRIO_LEVELS ==> (#[trigger] q[b]).len() == 0,
    ensures
        forall|b: int| 0 <= b < PRIO_LEVELS ==> #[trigger] pushed(q, ts)[b] == in_level(ts, b),
        first_ready(pushed(q, ts)) == PRIO_LEVELS <==> ts.len() == 0,
        ts.len() > 0 ==> exists|k: int|
            0 <= k < ts.len() && pushed(q, ts)[first_ready(pushed(q, ts))][0] == #[trigger] ts[k]
                && level(ts[k]) == first_ready(pushed(q, ts))
                && (forall|j: int| 0 <= j < ts.len() ==> level(ts[k]) <= level(#[trigger] ts[j]))
                && (forall|j: int| 0 <= j < k ==> level(ts[k]) < level(#[trigger] ts[j])),
{
    lemma_pushed_levels(q, ts);
    let qs = pushed(q, ts);
    lemma_first_ready(qs);
    let b = first_ready(qs);
    if ts.len() > 0 {
        let b0 = level(ts[0]);
        lemma_in_level(ts, b0);
        assert(qs[b0].len() > 0);
        assert(b <= b0);
        let k = lemma_in_level(ts, b);
        assert(qs[b] == in_level(ts, b));
        assert forall|j: int| 0 <= j < ts.len() implies b <= level(#[trigger] ts[j]) by {
            let bj = level(ts[j]);
            if bj < b {
                assert(qs[bj].len() == 0);
                lemma_in_level(ts, bj);
            }
        }
        assert(pushed(q, ts)[first_ready(pushed(q, ts))][0] == ts[k]);
    } else {
        assert forall|j: int| 0 <= j < PRIO_LEVELS implies (#[trigger] qs[j]).len() == 0 by {}
        if b < PRIO_LEVELS {
            assert(qs[b].len() > 0);
        }
    }
}

/// The tick counter after `k` more ticks.
pub open spec fn ticks_after(t: u64, k: nat) -> u64
    decreases k,
{
    if k == 0 {
        t
    } else {
        next_tick(ticks_after(t, (k - 1) as nat))
    }
}

/// After `k` ticks the counter has advanced by `k`, wrapping at 2^64.
pub proof fn law_tick_count(t: u64, k: nat)
    ensures
        ticks_after(t, k) == (t + k) % 0x1_0000_0000_0000_0000,
    decreases k,
{
    if k > 0 {
        law_tick_count(t, (k - 1) as nat);
        let p = ticks_after(t, (k - 1) as nat);
        assert(p == (t + k - 1) % 0x1_0000_0000_0000_0000);
        if p == u64::MAX {
            assert((t + k) % 0x1_0000_0000_0000_0000 == 0) by {
                vstd::arithmetic::div_mod::lemma_add_mod_noop(t + k - 1, 1, 0x1_0000_0000_0000_0000);
            }
        } else {
            assert((t + k) % 0x1_0000_0000_0000_0000 == p + 1) by {
                vstd::arithmetic::div_mod::lemma_add_mod_noop(t + k - 1, 1, 0x1_0000_0000_0000_0000);
            }
        }
    }
}

/// Where a task waits by its nice value: a nice value `p` in -20..=19 has queue
/// `p + 20`, values beyond that range share the end queues, and so a task with a
/// lower nice value always waits in an earlier queue than one with a higher.
pub proof fn law_nice_levels(p: i8, p2: i8)
    ensures
        -20 <= p <= 19 ==> bucket_of(p) == p + 20,
        p < -20 ==> bucket_of(p) == 0,
        p > 19 ==> bucket_of(p) == PRIO_LEVELS - 1,
        0 <= bucket_of(p) < PRIO_LEVELS,
        -20 <= p < p2 <= 19 ==> bucket_of(p) < bucket_of(p2),
        p <= p2 ==> bucket_of(p) <= bucket_of(p2),
{
}

} // verus!
