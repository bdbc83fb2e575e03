use rtos_kernel::list::ListPtr;
use rtos_kernel::thread::{StackFrame, Thread, ThreadStatus, THREAD_NAME_LEN, XPSR_THUMB};
use rtos_kernel::timer::{SoftWareTimer, SoftwareTimerDriver, TimerMode, TimerStatus};

#[test]
fn new_thread_is_ready_with_no_stack() {
    let t = Thread::new(ListPtr(3), ListPtr(5));
    assert_eq!(t.node, ListPtr(3));
    assert_eq!(t.timer, ListPtr(5));
    assert_eq!(t.status, ThreadStatus::Ready);
    assert_eq!(t.name, [0u8; THREAD_NAME_LEN]);
    assert_eq!(t.sp(), 0);
}

#[test]
fn init_names_the_thread_and_builds_its_start_frame() {
    let mut t = Thread::new(ListPtr(2), ListPtr(0));
    let frame_size = core::mem::size_of::<StackFrame>();
    let (sp, frame) = t.init("idle", 31, 0x0800_1235, 0x2000_0000, 0x400);
    assert_eq!(sp, 0x2000_0400 - frame_size);
    assert_eq!(t.sp(), sp);
    assert_eq!(&t.name[..4], b"idle");
    assert_eq!(&t.name[4..], &[0u8; 6]);
    assert_eq!(t.prio, 31);
    assert_eq!(t.stack_start, 0x2000_0000);
    assert_eq!(t.stack_size, 0x400);
    assert_eq!(t.stack_used(), frame_size);
    assert_eq!(frame.regs_4_11, [0; 8]);
    assert_eq!(frame.regs_auto, [2, 0, 0, 0, 0, 0, 0x0800_1235, XPSR_THUMB]);
}

#[test]
fn a_name_of_full_length_fills_the_name() {
    let mut t = Thread::new(ListPtr(0), ListPtr(0));
    t.init("0123456789", 1, 0, 0x1000, 0x1000);
    assert_eq!(&t.name, b"0123456789");
}

#[test]
fn start_frame_holds_node_entry_and_thumb_bit() {
    let f = StackFrame::new(ListPtr(9), 0x1234);
    assert_eq!(f.regs_auto[0], 9);
    assert_eq!(f.regs_auto[6], 0x1234);
    assert_eq!(f.regs_auto[7], 0x0100_0000);
}

#[test]
fn sleep_arms_the_thread_timer_to_wake_it() {
    let mut st = SoftWareTimer::new();
    st.init().unwrap();
    let timer = st.register();
    let mut t = Thread::new(ListPtr(0), timer);
    t.sleep(&mut st, 100, 5);
    assert_eq!(t.status, ThreadStatus::Sleep);
    let rec = st.timer(timer);
    assert_eq!(rec.timeout, 105);
    assert_eq!(rec.mode, TimerMode::Block);
    assert_eq!(rec.status, TimerStatus::Running);
    assert_eq!(st.pending(), vec![timer]);
}

#[test]
fn timer_arms_a_handler_and_keeps_the_thread_ready() {
    let mut st = SoftWareTimer::new();
    st.init().unwrap();
    let timer = st.register();
    let mut t = Thread::new(ListPtr(0), timer);
    t.timer(&mut st, 10, 3, 0);
    assert_eq!(t.status, ThreadStatus::Ready);
    assert_eq!(st.timer(timer).mode, TimerMode::NonBlock(3));
    // Already armed: a second request keeps the first expiry.
    t.timer(&mut st, 99, 4, 0);
    assert_eq!(st.timer(timer).timeout, 10);
    assert_eq!(st.timer(timer).mode, TimerMode::NonBlock(3));
}

#[test]
fn thread_status_names() {
    assert_eq!(ThreadStatus::Ready.as_str(), "Ready");
    assert_eq!(ThreadStatus::Sleep.as_str(), "Sleep");
    assert_eq!(ThreadStatus::Terminal.as_str(), "Terminal");
}

#[test]
fn an_expired_timer_leads_back_to_its_thread() {
    let mut st = SoftWareTimer::new();
    st.init().unwrap();
    let t0 = st.register();
    let t1 = st.register();
    let mut threads = vec![Thread::new(ListPtr(0), t0), Thread::new(ListPtr(1), t1)];
    threads[1].sleep(&mut st, 10, 0);
    let (p, mode) = st.check(10).unwrap();
    assert_eq!(mode, TimerMode::Block);
    let i = Thread::from_timer(&threads, p).unwrap();
    assert_eq!(i, 1);
    threads[i].wakup();
    assert_eq!(threads[1].status, ThreadStatus::Ready);
    assert_eq!(Thread::from_timer(&threads, ListPtr(9)), None);
}
