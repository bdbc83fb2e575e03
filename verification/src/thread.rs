//! Threads and the register frame a new thread starts from.
use vstd::prelude::*;
use vstd::string::StringSliceAdditionalSpecFns;
use crate::list::{Intrusive, ListPtr};
use crate::timer::{SoftWareTimer, SoftwareTimerDriver, TimerMode, TimerStatus};

verus! {

/// The length of a thread's name.
pub const THREAD_NAME_LEN: usize = 10;

/// The registers saved on a thread's stack when it is switched out: r4-r11
/// by hand, then r0-r3, r12, lr, pc and xpsr by the hardware.
#[derive(Clone, Copy, Debug)]
pub struct StackFrame {
    pub regs_4_11: [usize; 8],
    pub regs_auto: [usize; 8],
}

/// The xpsr of a new thread: only the Thumb bit set.
pub const XPSR_THUMB: usize = 0x0100_0000;

/// `f` is the frame a thread whose node is `ptr` starts from at `entry`: r0
/// holds the node, pc the entry and xpsr the Thumb bit; every other register
/// is zero.
pub open spec fn is_start_frame(f: StackFrame, ptr: ListPtr, entry: usize) -> bool {
    &&& forall|i: int| 0 <= i < 8 ==> f.regs_4_11[i] == 0
    &&& f.regs_auto[0] == ptr.0
    &&& forall|i: int| 1 <= i < 6 ==> f.regs_auto[i] == 0
    &&& f.regs_auto[6] == entry
    &&& f.regs_auto[7] == XPSR_THUMB
}

impl StackFrame {
    /// The frame a thread starts from: r0 holds its node, pc its entry and
    /// xpsr the Thumb bit; every other register is zero.
    pub fn new(ptr: ListPtr, entry: usize) -> (f: StackFrame)
        ensures
            is_start_frame(f, ptr, entry),
    {
        let mut stackframe = StackFrame { regs_4_11: [0; 8], regs_auto: [0; 8] };
        stackframe.regs_auto[0] = ptr.0;
        stackframe.regs_auto[6] = entry;
        stackframe.regs_auto[7] = XPSR_THUMB;
        stackframe
    }
}

/// Whether a thread can run, waits for its timer, or has ended.
#[derive(Clone, Copy, PartialEq, Eq, Structural, Debug)]
pub enum ThreadStatus {
    Ready,
    Sleep,
    Terminal,
}

impl ThreadStatus {
    /// The status as text.
    pub fn as_str(&self) -> (s: &'static str)
        ensures
            *self == ThreadStatus::Ready ==> s@ == "Ready"@,
            *self == ThreadStatus::Sleep ==> s@ == "Sleep"@,
            *self == ThreadStatus::Terminal ==> s@ == "Terminal"@,
    {
        match self {
            ThreadStatus::Ready => "Ready",
            ThreadStatus::Sleep => "Sleep",
            ThreadStatus::Terminal => "Terminal",
        }
    }
}

/// A thread: its scheduler node, name, state, priority, stack, and timer.
#[derive(Clone, Copy, Debug)]
pub struct Thread {
    pub node: ListPtr,
    pub name: [u8; 10],
    pub status: ThreadStatus,
    pub prio: u8,
    pub sp: usize,
    pub stack_start: usize,
    pub stack_size: usize,
    pub timer: ListPtr,
}

impl Thread {
    /// A ready thread with an empty name and no stack, whose scheduler node is
    /// `node` and whose timer is `timer`.
    pub fn new(node: ListPtr, timer: ListPtr) -> (t: Thread)
        ensures
            t.node == node,
            t.timer == timer,
            forall|i: int| 0 <= i < 10 ==> t.name[i] == 0,
            t.status == ThreadStatus::Ready,
            t.prio == 0,
            t.sp == 0,
            t.stack_start == 0,
            t.stack_size == 0,
    {
        Thread {
            node,
            name: [0; 10],
            status: ThreadStatus::Ready,
            prio: 0,
            sp: 0,
            stack_start: 0,
            stack_size: 0,
            timer,
        }
    }

    /// Names the thread, gives it a priority and a stack, and builds the frame
    /// it starts from; the frame belongs at the returned stack pointer, the
    /// top of the stack less one frame. The thread is not queued: a thread
    /// knows no scheduler, so queueing it is left to the caller, and
    /// `PreptivePriorityScheduler::spawn` sets a thread up and queues it.
    pub fn init(&mut self, name: &str, prio: u8, entry: usize, stack_start: usize, stack_size: usize) -> (r: (usize, StackFrame))
        requires
            name.spec_bytes().len() <= THREAD_NAME_LEN,
            stack_start + stack_size <= usize::MAX,
            stack_start + stack_size >= vstd::layout::size_of::<StackFrame>(),
        ensures
            forall|i: int| 0 <= i < name.spec_bytes().len() ==> final(self).name[i] == name.spec_bytes()[i],
            forall|i: int| name.spec_bytes().len() <= i < 10 ==> final(self).name[i] == old(self).name[i],
            final(self).prio == prio,
            final(self).stack_start == stack_start,
            final(self).stack_size == stack_size,
            final(self).sp == stack_start + stack_size - vstd::layout::size_of::<StackFrame>(),
            final(self).node == old(self).node,
            final(self).timer == old(self).timer,
            final(self).status == old(self).status,
            r.0 == final(self).sp,
            is_start_frame(r.1, old(self).node, entry),
    {
        let bytes = name.as_bytes();
        let mut i: usize = 0;
        while i < bytes.len()
            invariant
                bytes@ == name.spec_bytes(),
                bytes@.len() <= 10,
                i <= bytes@.len(),
                forall|j: int| 0 <= j < i ==> self.name[j] == bytes@[j],
                forall|j: int| i <= j < 10 ==> self.name[j] == old(self).name[j],
                self.node == old(self).node,
                self.timer == old(self).timer,
                self.status == old(self).status,
            decreases bytes@.len() - i,
        {
            self.name[i] = bytes[i];
            i = i + 1;
        }
        self.prio = prio;
        self.stack_start = stack_start;
        self.stack_size = stack_size;
        self.sp = stack_start + stack_size - core::mem::size_of::<StackFrame>();
        (self.sp, StackFrame::new(self.node, entry))
    }
    /// Puts the thread to sleep and arms its timer to wake it `tick` ticks
    /// after `now` (an armed timer keeps its expiry).
    pub fn sleep(&mut self, timers: &mut SoftWareTimer, tick: u128, now: u128)
        requires
            old(timers).ready(),
            old(self).timer.0 < old(timers).timers().len(),
            old(self).timer != old(timers).queue()[0],
            old(timers).timers()[old(self).timer.0 as int].status == TimerStatus::Leisure ==> tick
                + now <= u128::MAX,
            old(timers).timers()[old(self).timer.0 as int].status == TimerStatus::Leisure ==> !old(
                timers,
            ).queue().contains(old(self).timer),
        ensures
            *final(self) == (Thread { status: ThreadStatus::Sleep, ..*old(self) }),
            final(timers).ready(),
            final(timers).timers()[old(self).timer.0 as int].status != TimerStatus::Leisure,
            old(timers).timers()[old(self).timer.0 as int].status == TimerStatus::Leisure ==> {
                &&& final(timers).timers()[old(self).timer.0 as int].timeout == tick + now
                &&& final(timers).timers()[old(self).timer.0 as int].status == TimerStatus::Running
                &&& final(timers).timers()[old(self).timer.0 as int].mode == TimerMode::Block
                &&& final(timers).queue().contains(old(self).timer)
                &&& exists|j: int|
                    crate::timer::placement(final(timers).timers(), old(timers).queue(), (tick + now) as u128, j)
                        && final(timers).queue() == old(timers).queue().insert(j, old(self).timer)
            },
            old(timers).timers()[old(self).timer.0 as int].status != TimerStatus::Leisure ==> {
                &&& final(timers).timers() == old(timers).timers()
                &&& final(timers).queue() == old(timers).queue()
            },
    {
        self.status = ThreadStatus::Sleep;
        let armed = timers.timeout(self.timer, tick, TimerMode::Block, now);
        proof {
            if armed {
                let j = choose|j: int| crate::timer::placement(timers.timers(), old(timers).queue(), (tick + now) as u128, j)
                    && timers.queue() == old(timers).queue().insert(j, self.timer);
                old(timers).queue().insert_ensures(j, self.timer);
                assert(timers.queue()[j] == self.timer);
            }
        }
    }

    /// Arms the thread's timer to run handler `handler` `tick` ticks after
    /// `now` (an armed timer keeps its expiry).
    pub fn timer(&mut self, timers: &mut SoftWareTimer, tick: u128, handler: usize, now: u128)
        requires
            old(timers).ready(),
            old(self).timer.0 < old(timers).timers().len(),
            old(self).timer != old(timers).queue()[0],
            old(timers).timers()[old(self).timer.0 as int].status == TimerStatus::Leisure ==> tick
                + now <= u128::MAX,
            old(timers).timers()[old(self).timer.0 as int].status == TimerStatus::Leisure ==> !old(
                timers,
            ).queue().contains(old(self).timer),
        ensures
            *final(self) == *old(self),
            final(timers).ready(),
            final(timers).timers()[old(self).timer.0 as int].status != TimerStatus::Leisure,
            old(timers).timers()[old(self).timer.0 as int].status == TimerStatus::Leisure ==> {
                &&& final(timers).timers()[old(self).timer.0 as int].timeout == tick + now
                &&& final(timers).timers()[old(self).timer.0 as int].status == TimerStatus::Running
                &&& final(timers).timers()[old(self).timer.0 as int].mode == TimerMode::NonBlock(handler)
                &&& final(timers).queue().contains(old(self).timer)
                &&& exists|j: int|
                    crate::timer::placement(final(timers).timers(), old(timers).queue(), (tick + now) as u128, j)
                        && final(timers).queue() == old(timers).queue().insert(j, old(self).timer)
            },
            old(timers).timers()[old(self).timer.0 as int].status != TimerStatus::Leisure ==> {
                &&& final(timers).timers() == old(timers).timers()
                &&& final(timers).queue() == old(timers).queue()
            },
    {
        let armed = timers.timeout(self.timer, tick, TimerMode::NonBlock(handler), now);
        proof {
            if armed {
                let j = choose|j: int| crate::timer::placement(timers.timers(), old(timers).queue(), (tick + now) as u128, j)
                    && timers.queue() == old(timers).queue().insert(j, self.timer);
                old(timers).queue().insert_ensures(j, self.timer);
                assert(timers.queue()[j] == self.timer);
            }
        }
    }

    /// Shows the name; the board prints nothing.
    pub fn show_name(&self) {
    }

    /// Wakes the thread: it is ready to run again.
    pub fn wakup(&mut self)
        ensures
            *final(self) == (Thread { status: ThreadStatus::Ready, ..*old(self) }),
    {
        self.status = ThreadStatus::Ready;
    }

    /// The thread that owns `timer`: the first in `threads` whose timer it is.
    pub fn from_timer(threads: &Vec<Thread>, timer: ListPtr) -> (r: Option<usize>)
        ensures
            match r {
                Some(i) => {
                    &&& i < threads@.len()
                    &&& threads@[i as int].timer == timer
                    &&& forall|j: int| 0 <= j < i ==> #[trigger] threads@[j].timer != timer
                },
                None => forall|j: int| 0 <= j < threads@.len() ==> #[trigger] threads@[j].timer != timer,
            },
    {
        let mut i: usize = 0;
        while i < threads.len()
            invariant
                i <= threads@.len(),
                forall|j: int| 0 <= j < i ==> #[trigger] threads@[j].timer != timer,
            decreases threads@.len() - i,
        {
            if threads[i].timer == timer {
                return Some(i);
            }
            i = i + 1;
        }
        None
    }

    /// The bytes of stack in use: from the saved stack pointer to the top of
    /// the stack (what the thread's listing shows).
    pub fn stack_used(&self) -> (r: usize)
        requires
            self.stack_start + self.stack_size <= usize::MAX,
            self.sp <= self.stack_start + self.stack_size,
        ensures
            r == self.stack_start + self.stack_size - self.sp,
    {
        self.stack_start + self.stack_size - self.sp
    }

    /// The saved stack pointer.
    pub fn sp(&self) -> (r: usize)
        ensures
            r == self.sp,
    {
        self.sp
    }
}

impl Intrusive for Thread {
    type Item = Thread;

    fn from_ptr<'a>(items: &'a Vec<Thread>, ptr: &ListPtr) -> (r: &'a Thread) {
        &items[ptr.0]
    }
}

} // verus!
