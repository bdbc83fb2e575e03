//! A small priority-scheduled kernel for Cortex-M7 boards: intrusive lists,
//! schedulers, software timers, IPC primitives and a first-fit heap, with
//! their behaviour stated and proved.
pub mod list;
pub mod timer;
pub mod thread;
pub mod sched;
pub mod syscall;
pub mod semaphore;
pub mod mailbox;
pub mod message_queue;
pub mod heap;
pub mod nulllock;
pub mod static_ref;
pub mod drivers;
pub mod collections;
pub mod mpu;
pub mod shell;
pub mod user;
