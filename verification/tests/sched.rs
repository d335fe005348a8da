use kernel_engineering::pmm::{has_free_run, init as pmm_init, MmapEntry, Pmm};
use kernel_engineering::scheduler::{
    init, install_idle, schedule, spawn, tick, total_ticks, RunQueue, Scheduler,
};
use kernel_engineering::task::{register, CpuContext, Task, TaskFactory, TaskState, KSTACK_BASE};

fn task(pid: u64, priority: i8) -> Box<Task> {
    Box::new(Task {
        pid,
        ppid: 0,
        state: TaskState::Ready,
        ctx: CpuContext::default(),
        kstack: 0,
        name: "t",
        ticks: 0,
        priority,
    })
}

fn booted() -> Pmm {
    let mut pmm = Pmm::new();
    pmm_init(&mut pmm, &[MmapEntry { base: 0, len: 0x80_0000, typ: 1, attr: 0 }]);
    pmm
}

#[test]
fn new_kernel_task() {
    let mut pmm = booted();
    let mut f = TaskFactory::new();
    let (t, pages) = Task::new_kernel(0xdead_beef, "worker", -5, &mut f, &mut pmm);
    assert_eq!(t.pid, 1);
    assert_eq!(t.ppid, 0);
    assert_eq!(t.state, TaskState::Ready);
    assert_eq!(t.name, "worker");
    assert_eq!(t.priority, -5);
    // kstack is the top of the stack
    assert_eq!(t.kstack, KSTACK_BASE + 4 * 4096);
    assert_eq!(t.ctx.rip, 0xdead_beef);
    assert_eq!(t.ctx.rsp, KSTACK_BASE + 4 * 4096 - 8);
    assert_eq!(t.ctx.rflags, 0x202);
    assert_eq!(t.ctx.rbx, 0);
    assert_eq!(pages.len(), 4);
    for (i, p) in pages.iter().enumerate() {
        assert_eq!(p.va, KSTACK_BASE + 4096 * i as u64);
        assert_eq!(p.pa, 0x1000 + 4096 * i as u64);
    }
    // the next stack leaves a guard page
    assert_eq!(f.next_stack_va, KSTACK_BASE + 5 * 4096);
    let (t2, _) = Task::new_kernel(0, "b", 0, &mut f, &mut pmm);
    assert_eq!(t2.pid, 2);
    assert_eq!(t2.kstack, KSTACK_BASE + 9 * 4096);
    let mut all = Vec::new();
    register(&mut all, t);
    register(&mut all, t2);
    assert_eq!(all.len(), 2);
}

#[test]
fn run_queue_order() {
    let mut rq = RunQueue::new(task(0, 19));
    rq.push(task(1, 0));
    rq.push(task(2, -20));
    rq.push(task(3, 0));
    rq.push(task(4, 100));
    rq.push(task(5, -128));
    assert_eq!(rq.queue_len(20), 2);
    assert_eq!(rq.queue_len(39), 1);
    assert_eq!(rq.queue_len(0), 2);
    let order: Vec<u64> = std::iter::from_fn(|| rq.pop_highest()).map(|t| t.pid).collect();
    assert_eq!(order, vec![2, 5, 1, 3, 4]);
    assert!(rq.current().is_none());
}

fn started() -> (Scheduler, Pmm) {
    let mut pmm = booted();
    let mut f = TaskFactory::new();
    let mut s = Scheduler::new();
    let pages = init(&mut s, &mut f, &mut pmm, 0x1234);
    assert_eq!(pages.len(), 4);
    (s, pmm)
}

#[test]
fn spawn_before_init_is_dropped() {
    let mut s = Scheduler::new();
    spawn(&mut s, task(1, 0));
    assert!(s.run_queue_ref().is_none());
}

#[test]
fn switch_keeps_every_task() {
    let (mut s, _pmm) = started();
    install_idle(&mut s);
    spawn(&mut s, task(7, 0));
    spawn(&mut s, task(8, 0));
    assert_eq!(schedule(&mut s), Some(39));
    let rq = s.run_queue_ref().unwrap();
    let cur = rq.current().unwrap();
    assert_eq!(cur.pid, 7);
    assert_eq!(cur.state, TaskState::Running);
    assert_eq!(cur.ticks, 1);
    let idle = rq.last_in(39).unwrap();
    assert_eq!(idle.name, "idle");
    assert_eq!(idle.state, TaskState::Ready);
    assert_eq!(rq.queue_len(20), 1);
    // round robin: 7 goes behind 8
    assert_eq!(schedule(&mut s), Some(20));
    let rq = s.run_queue_ref().unwrap();
    assert_eq!(rq.current().unwrap().pid, 8);
    assert_eq!(rq.last_in(20).unwrap().pid, 7);
}

#[test]
fn nothing_ready_means_no_switch() {
    let (mut s, _pmm) = started();
    install_idle(&mut s);
    assert_eq!(schedule(&mut s), None);
    assert_eq!(s.run_queue_ref().unwrap().current().unwrap().name, "idle");
}

#[test]
fn switch_before_start_keeps_the_task() {
    let (mut s, _pmm) = started();
    assert!(s.run_queue_ref().unwrap().has_idle());
    spawn(&mut s, task(7, 0));
    assert_eq!(schedule(&mut s), None);
    let rq = s.run_queue_ref().unwrap();
    assert!(rq.current().is_none());
    assert_eq!(rq.queue_len(20), 1);
    install_idle(&mut s);
    assert!(!s.run_queue_ref().unwrap().has_idle());
    // the idle task goes back to its own queue, 39
    assert_eq!(schedule(&mut s), Some(39));
    assert_eq!(s.run_queue_ref().unwrap().current().unwrap().pid, 7);
}

#[test]
fn idle_task_from_init() {
    let mut pmm = booted();
    let free = pmm.free_frames();
    let mut f = TaskFactory::new();
    let mut s = Scheduler::new();
    let pages = init(&mut s, &mut f, &mut pmm, 0x1234);
    assert_eq!(pages[0].va, KSTACK_BASE);
    assert_eq!(pages[3].va, KSTACK_BASE + 3 * 4096);
    assert_eq!(pages[3].pa, pages[0].pa + 3 * 4096);
    let rq = s.run_queue_ref().unwrap();
    assert!(rq.has_idle());
    for i in 0..40 {
        assert_eq!(rq.queue_len(i), 0);
    }
    // the idle stack took four frames
    assert_eq!(pmm.free_frames(), free - 4);
}

#[test]
fn ticks_add_up() {
    let (mut s, _pmm) = started();
    install_idle(&mut s);
    for _ in 0..25 {
        tick(&mut s);
    }
    assert_eq!(total_ticks(&s), 25);
}

#[test]
fn every_tick_preempts_when_a_task_is_ready() {
    let (mut s, _pmm) = started();
    install_idle(&mut s);
    assert_eq!(tick(&mut s), None);
    assert_eq!(total_ticks(&s), 1);
    spawn(&mut s, task(7, 3));
    assert_eq!(tick(&mut s), Some(39));
    assert_eq!(total_ticks(&s), 2);
    assert_eq!(s.run_queue_ref().unwrap().current().unwrap().pid, 7);
    // the next tick hands the CPU back: 7 waits in queue 23
    assert_eq!(tick(&mut s), Some(23));
    assert_eq!(s.run_queue_ref().unwrap().current().unwrap().name, "idle");
    assert_eq!(total_ticks(&s), 3);
}

#[test]
fn no_stack_no_task() {
    let mut pmm = Pmm::new();
    pmm.mark_free(1);
    pmm.mark_free(2);
    pmm.mark_free(4);
    pmm.mark_free(5);
    // four free frames, but no four in a row: no kernel stack can be made
    assert!(!has_free_run(&pmm, 4));
    assert!(has_free_run(&pmm, 2));
    pmm.mark_free(3);
    assert!(has_free_run(&pmm, 4));
    let mut f = TaskFactory::new();
    let (t, pages) = Task::new_kernel(0, "t", 0, &mut f, &mut pmm);
    assert_eq!(t.pid, 1);
    assert_eq!(pages[0].pa, 0x1000);
    assert_eq!(pmm.free_frames(), 1);
}

#[test]
fn overflow_checks() {
    let (mut s, _pmm) = started();
    assert!(kernel_engineering::scheduler::switch_ok(&s));
    assert!(kernel_engineering::scheduler::tick_ok(&s));
    install_idle(&mut s);
    let mut t = task(9, 0);
    t.ticks = u64::MAX;
    spawn(&mut s, t);
    assert!(!kernel_engineering::scheduler::switch_ok(&s));
    assert!(!kernel_engineering::scheduler::tick_ok(&s));
}

#[test]
fn no_switch_needs_no_overflow_check() {
    // nothing runs yet, so a waiting task with an exhausted slice count is fine
    let (mut s, _pmm) = started();
    let mut t = task(9, 0);
    t.ticks = u64::MAX;
    spawn(&mut s, t);
    assert!(kernel_engineering::scheduler::switch_ok(&s));
    assert_eq!(schedule(&mut s), None);
}
