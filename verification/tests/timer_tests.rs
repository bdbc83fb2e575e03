use rtos_kernel::drivers::{DeviceType, Driver};
use rtos_kernel::list::ListPtr;
use rtos_kernel::timer::{SoftWareTimer, SoftwareTimerDriver, Timer, TimerMode, TimerStatus};

fn driver_with_timers(n: usize) -> (SoftWareTimer, Vec<ListPtr>) {
    let mut st = SoftWareTimer::new();
    assert_eq!(st.init(), Ok(()));
    let mut ptrs = Vec::new();
    for _ in 0..n {
        ptrs.push(st.register());
    }
    (st, ptrs)
}

#[test]
fn init_queues_only_the_head() {
    let (st, p) = driver_with_timers(2);
    assert_eq!(p, vec![ListPtr(1), ListPtr(2)]);
    assert!(st.pending().is_empty());
    assert_eq!(st.timer(ListPtr(0)).status, TimerStatus::Leisure);
    assert_eq!(st.head(), Some(ListPtr(0)));
    assert_eq!(st.len(), 3);
    assert_eq!(SoftWareTimer::new().head(), None);
}

#[test]
fn armed_timers_are_kept_in_expiry_order() {
    let (mut st, p) = driver_with_timers(3);
    assert!(st.timeout(p[0], 50, TimerMode::Block, 0));
    assert!(st.timeout(p[1], 20, TimerMode::NonBlock(7), 0));
    assert!(st.timeout(p[2], 20, TimerMode::Block, 10));
    assert_eq!(st.pending(), vec![p[1], p[2], p[0]]);
    assert_eq!(st.timer(p[2]).timeout, 30);
    assert_eq!(st.timer(p[2]).status, TimerStatus::Running);
}

#[test]
fn a_timer_that_expires_at_the_same_tick_goes_after_the_others() {
    let (mut st, p) = driver_with_timers(2);
    assert!(st.timeout(p[0], 40, TimerMode::Block, 0));
    assert!(st.timeout(p[1], 30, TimerMode::Block, 10));
    assert_eq!(st.pending(), vec![p[0], p[1]]);
}

#[test]
fn arming_a_running_timer_changes_nothing() {
    let (mut st, p) = driver_with_timers(1);
    assert!(st.timeout(p[0], 50, TimerMode::Block, 0));
    assert!(!st.timeout(p[0], 5, TimerMode::NonBlock(1), 0));
    assert_eq!(st.timer(p[0]).timeout, 50);
    assert_eq!(st.timer(p[0]).mode, TimerMode::Block);
    assert_eq!(st.pending(), vec![p[0]]);
}

#[test]
fn check_expires_one_due_timer_per_call() {
    let (mut st, p) = driver_with_timers(3);
    st.timeout(p[0], 50, TimerMode::Block, 0);
    st.timeout(p[1], 20, TimerMode::NonBlock(7), 0);
    st.timeout(p[2], 30, TimerMode::Block, 0);
    assert_eq!(st.check(10), None);
    assert_eq!(st.pending(), vec![p[1], p[2], p[0]]);
    assert_eq!(st.check(40), Some((p[1], TimerMode::NonBlock(7))));
    assert_eq!(st.timer(p[1]).status, TimerStatus::Leisure);
    assert_eq!(st.pending(), vec![p[2], p[0]]);
    assert_eq!(st.check(40), Some((p[2], TimerMode::Block)));
    assert_eq!(st.check(40), None);
    assert_eq!(st.pending(), vec![p[0]]);
}

#[test]
fn an_expired_timer_can_be_armed_again() {
    let (mut st, p) = driver_with_timers(1);
    st.timeout(p[0], 5, TimerMode::Block, 0);
    assert_eq!(st.check(5), Some((p[0], TimerMode::Block)));
    assert!(st.timeout(p[0], 5, TimerMode::Block, 5));
    assert_eq!(st.timer(p[0]).timeout, 10);
}

#[test]
fn timer_record_arms_and_stops() {
    let mut t = Timer::new(ListPtr(4));
    assert_eq!(t.node_ptr(), Some(ListPtr(4)));
    assert_eq!(t.status, TimerStatus::Leisure);
    assert!(t.timeout(10, TimerMode::NonBlock(2), 5));
    assert_eq!(t.timeout, 15);
    assert_eq!(t.status, TimerStatus::Running);
    assert!(!t.timeout(1, TimerMode::Block, 0));
    assert_eq!(t.timeout, 15);
    t.stop();
    assert_eq!(t.status, TimerStatus::Stop);
    assert!(!t.timeout(1, TimerMode::Block, 0));
}

#[test]
fn software_timer_is_a_driver() {
    let mut st = SoftWareTimer::new();
    assert_eq!(st.compatible(), "Software Timer");
    assert_eq!(st.device_type(), DeviceType::SoftwareTimer);
    assert_eq!(Driver::init(&mut st), Ok(()));
}

#[test]
fn add_queues_an_idle_timer_that_is_in_no_list() {
    let (mut st, p) = driver_with_timers(2);
    assert!(st.timeout(p[0], 10, TimerMode::Block, 0));
    assert!(!st.is_queued(p[1]));
    // An idle timer (expiry 0) goes before every timer due later.
    st.add(p[1]);
    assert_eq!(st.pending(), vec![p[1], p[0]]);
    assert!(st.is_queued(p[1]));
    assert_eq!(st.timer(p[1]).status, TimerStatus::Leisure);
    assert_eq!(st.check(0), Some((p[1], TimerMode::Block)));
    assert_eq!(st.pending(), vec![p[0]]);
}
