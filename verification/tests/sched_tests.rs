use rtos_kernel::list::ListPtr;
use rtos_kernel::sched::{PreptivePriorityScheduler, RoundRobinScheduler, Scheduler, PRIORITY_NUMBER};
use rtos_kernel::thread::{Thread, ThreadStatus};

fn threads_with_prios(prios: &[u8]) -> Vec<Thread> {
    let mut v = Vec::new();
    for (i, p) in prios.iter().enumerate() {
        let mut t = Thread::new(ListPtr(i), ListPtr(i));
        t.prio = *p;
        v.push(t);
    }
    v
}

fn priority_scheduler(n: usize) -> (PreptivePriorityScheduler, Vec<ListPtr>) {
    let mut s = PreptivePriorityScheduler::new();
    let mut ptrs = Vec::new();
    for _ in 0..n {
        ptrs.push(s.register());
    }
    (s, ptrs)
}

#[test]
fn new_scheduler_has_all_levels_empty() {
    let (s, _) = priority_scheduler(0);
    let q = s.queues();
    assert_eq!(q.len(), PRIORITY_NUMBER);
    assert!(q.iter().all(|l| l.is_empty()));
}

#[test]
fn add_queues_by_priority_before_running() {
    let threads = threads_with_prios(&[3, 1, 1]);
    let (mut s, p) = priority_scheduler(3);
    assert_eq!(p, vec![ListPtr(0), ListPtr(1), ListPtr(2)]);
    assert_eq!(s.add(&threads, p[0]), None);
    assert_eq!(s.add(&threads, p[1]), None);
    assert_eq!(s.add(&threads, p[2]), None);
    let q = s.queues();
    assert_eq!(q[1], vec![ListPtr(1), ListPtr(2)]);
    assert_eq!(q[3], vec![ListPtr(0)]);
    assert!(q[0].is_empty());
}

#[test]
fn run_picks_the_first_thread_of_the_most_urgent_level() {
    let threads = threads_with_prios(&[3, 1, 1]);
    let (mut s, p) = priority_scheduler(3);
    for x in &p {
        s.add(&threads, *x);
    }
    assert_eq!(s.run(), ListPtr(1));
}

#[test]
fn schedule_rotates_the_most_urgent_level() {
    let threads = threads_with_prios(&[3, 1, 1]);
    let (mut s, p) = priority_scheduler(3);
    for x in &p {
        s.add(&threads, *x);
    }
    s.run();
    // The running thread is first, so it is picked again and goes last.
    assert_eq!(s.schedule(), None);
    assert_eq!(s.queues()[1], vec![ListPtr(2), ListPtr(1)]);
    assert_eq!(s.schedule(), Some((ListPtr(1), ListPtr(2))));
    assert_eq!(s.queues()[1], vec![ListPtr(1), ListPtr(2)]);
    assert_eq!(s.queues()[3], vec![ListPtr(0)]);
}

#[test]
fn adding_a_more_urgent_thread_while_running_preempts() {
    let threads = threads_with_prios(&[3, 0]);
    let (mut s, p) = priority_scheduler(2);
    s.add(&threads, p[0]);
    assert_eq!(s.run(), ListPtr(0));
    assert_eq!(s.add(&threads, p[1]), Some((ListPtr(0), ListPtr(1))));
    assert_eq!(s.queues()[0], vec![ListPtr(1)]);
}

#[test]
fn detach_empties_a_level_and_the_next_level_runs() {
    let threads = threads_with_prios(&[3, 1, 1]);
    let (mut s, p) = priority_scheduler(3);
    for x in &p {
        s.add(&threads, *x);
    }
    s.detach(&threads, p[1]);
    assert_eq!(s.queues()[1], vec![ListPtr(2)]);
    s.detach(&threads, p[2]);
    assert!(s.queues()[1].is_empty());
    assert_eq!(s.run(), ListPtr(0));
}

#[test]
fn registered_nodes_start_unlinked() {
    let (s, p) = priority_scheduler(2);
    let n = s.node(p[1]);
    assert_eq!(n.prev, None);
    assert_eq!(n.next, None);
}

#[test]
fn round_robin_skips_threads_that_are_not_ready() {
    let mut threads = threads_with_prios(&[0, 0, 0]);
    threads[1].status = ThreadStatus::Sleep;
    let mut s = RoundRobinScheduler::new();
    for _ in 0..3 {
        s.register();
    }
    s.push(ListPtr(0));
    s.push(ListPtr(1));
    s.push(ListPtr(2));
    assert_eq!(s.run(), ListPtr(0));
    // 0 goes last; 1 sleeps and goes last too; 2 is ready.
    assert_eq!(s.schedule(&threads), Some((ListPtr(0), ListPtr(2))));
    let (ready, count) = s.listing(&threads);
    assert_eq!(ready, vec![ListPtr(2), ListPtr(0)]);
    assert_eq!(count, 3);
}

#[test]
fn round_robin_keeps_the_only_ready_thread() {
    let mut threads = threads_with_prios(&[0, 0]);
    threads[1].status = ThreadStatus::Terminal;
    let mut s = RoundRobinScheduler::new();
    s.register();
    s.register();
    s.push(ListPtr(0));
    s.push(ListPtr(1));
    assert_eq!(s.schedule(&threads), None);
    assert_eq!(s.run(), ListPtr(0));
}

#[test]
fn round_robin_pop_and_detach() {
    let mut s = RoundRobinScheduler::new();
    for _ in 0..3 {
        s.register();
    }
    s.push(ListPtr(0));
    s.push(ListPtr(1));
    s.push(ListPtr(2));
    s.detach(ListPtr(1));
    assert_eq!(s.pop(), Some(ListPtr(0)));
    s.detach(ListPtr(2));
    assert_eq!(s.pop(), None);
}

#[test]
fn detaching_a_thread_just_added_undoes_the_add() {
    let threads = threads_with_prios(&[4, 4, 9]);
    let (mut s, p) = priority_scheduler(3);
    s.add(&threads, p[0]);
    let before = s.queues();
    s.add(&threads, p[1]);
    s.detach(&threads, p[1]);
    assert_eq!(s.queues(), before);
    s.add(&threads, p[2]);
    s.detach(&threads, p[2]);
    assert_eq!(s.queues(), before);
    assert_eq!(s.run(), ListPtr(0));
    assert_eq!(s.prio_mask(), 1 << 4);
}

#[test]
fn scheduler_reports_its_state() {
    let threads = threads_with_prios(&[2]);
    let (mut s, p) = priority_scheduler(1);
    assert!(!s.status());
    assert_eq!(s.current_thread(), None);
    assert_eq!(s.len(), 1);
    s.add(&threads, p[0]);
    assert_eq!(s.prio_mask(), 1 << 2);
    s.run();
    assert!(s.status());
    assert_eq!(s.current_thread(), Some(ListPtr(0)));
}

#[test]
fn round_robin_counts_its_nodes() {
    let mut s = RoundRobinScheduler::new();
    assert_eq!(s.len(), 0);
    s.register();
    s.register();
    assert_eq!(s.len(), 2);
}

#[test]
fn spawn_sets_up_and_queues_a_thread() {
    let mut threads = threads_with_prios(&[0, 0]);
    let (mut s, _p) = priority_scheduler(2);
    let (sp, frame, switch) = s.spawn(&mut threads, 1, "worker", 5, 0x0800_0101, 0x2000_0000, 0x200);
    assert_eq!(switch, None);
    assert_eq!(sp, 0x2000_0200 - core::mem::size_of::<rtos_kernel::thread::StackFrame>());
    assert_eq!(threads[1].sp, sp);
    assert_eq!(threads[1].prio, 5);
    assert_eq!(&threads[1].name[..6], b"worker");
    assert_eq!(frame.regs_auto[0], 1);
    assert_eq!(frame.regs_auto[6], 0x0800_0101);
    assert_eq!(s.queues()[5], vec![ListPtr(1)]);
    assert_eq!(s.prio_mask(), 1 << 5);
    assert_eq!(threads[0].prio, 0);
}

#[test]
fn detaching_a_thread_that_is_not_queued_changes_nothing() {
    let threads = threads_with_prios(&[2, 2]);
    let (mut s, p) = priority_scheduler(2);
    s.add(&threads, p[0]);
    s.detach(&threads, p[1]);
    assert_eq!(s.queues()[2], vec![ListPtr(0)]);
    assert_eq!(s.prio_mask(), 1 << 2);
    let mut rr = RoundRobinScheduler::new();
    rr.register();
    rr.register();
    rr.push(ListPtr(0));
    rr.detach(ListPtr(1));
    assert_eq!(rr.run(), ListPtr(0));
    assert_eq!(rr.pop(), Some(ListPtr(0)));
    assert_eq!(rr.pop(), None);
}
