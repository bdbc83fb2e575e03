//! Devices, their common interface, and the processor modes a thread runs in.
use vstd::prelude::*;
use crate::timer::SoftWareTimer;

verus! {

/// The kinds of device the kernel drives.
#[derive(Debug, Clone, Copy, PartialEq, Eq, Structural)]
pub enum DeviceType {
    GPIO,
    Console,
    SysTimer,
    SoftwareTimer,
}

/// What every driver tells about itself.
pub trait Driver {
    /// A name that identifies the driver.
    fn compatible(&self) -> &'static str;

    /// The kind of device.
    fn device_type(&self) -> DeviceType;

    /// Brings the device up; by default there is nothing to do and the
    /// bring-up succeeds.
    fn init(&mut self) -> (r: Result<(), &'static str>)
        default_ensures
            r == Ok::<(), &'static str>(()),
    {
        Ok(())
    }
}

impl Driver for SoftWareTimer {
    fn compatible(&self) -> (s: &'static str)
        ensures
            s@ == "Software Timer"@,
    {
        "Software Timer"
    }

    fn device_type(&self) -> (d: DeviceType)
        ensures
            d == DeviceType::SoftwareTimer,
    {
        DeviceType::SoftwareTimer
    }
}

/// The system timer's count of ticks since start; the hardware counter
/// behind it is programmed by the board.
pub struct SysTimer {
    tick: u128,
}

impl SysTimer {
    /// The number of ticks counted.
    pub closed spec fn ticks(&self) -> u128 {
        self.tick
    }

    /// A timer that has counted no tick.
    pub fn new() -> (t: SysTimer)
        ensures
            t.ticks() == 0,
    {
        SysTimer { tick: 0 }
    }

    /// The ticks counted so far.
    pub fn tick(&self) -> (r: u128)
        ensures
            r == self.ticks(),
    {
        self.tick
    }

    /// Counts one tick.
    pub fn ticktack(&mut self)
        requires
            old(self).ticks() < u128::MAX,
        ensures
            final(self).ticks() == old(self).ticks() + 1,
    {
        self.tick = self.tick + 1;
    }
}

impl Driver for SysTimer {
    fn compatible(&self) -> (s: &'static str)
        ensures
            s@ == "System Timer"@,
    {
        "System Timer"
    }

    fn device_type(&self) -> (d: DeviceType)
        ensures
            d == DeviceType::SysTimer,
    {
        DeviceType::SysTimer
    }
}

/// The stack pointer in use: the main one or the process one.
#[derive(Debug, Clone, Copy, PartialEq, Eq, Structural)]
pub enum SP {
    MSP,
    PSP,
}

/// The privilege the processor runs with, and the stack pointer in use.
#[derive(Debug, Clone, Copy, PartialEq, Eq, Structural)]
pub enum CPUStatus {
    Pmode(SP),
    Umode(SP),
}

/// The mode named by the CONTROL register's SPSEL bit (set: process stack)
/// and nPRIV bit (set: unprivileged).
pub fn cpu_status(spsel_psp: bool, npriv_unprivileged: bool) -> (s: CPUStatus)
    ensures
        s == (if npriv_unprivileged {
            CPUStatus::Umode(if spsel_psp { SP::PSP } else { SP::MSP })
        } else {
            CPUStatus::Pmode(if spsel_psp { SP::PSP } else { SP::MSP })
        }),
{
    let sp = if spsel_psp {
        SP::PSP
    } else {
        SP::MSP
    };
    if npriv_unprivileged {
        CPUStatus::Umode(sp)
    } else {
        CPUStatus::Pmode(sp)
    }
}

/// Whether printing in mode `status` goes through a system call: only an
/// unprivileged thread on the process stack cannot reach the console itself.
pub fn print_via_syscall(status: &CPUStatus) -> (r: bool)
    ensures
        r == (*status == CPUStatus::Umode(SP::PSP)),
{
    match status {
        CPUStatus::Pmode(_) => false,
        CPUStatus::Umode(SP::MSP) => false,
        CPUStatus::Umode(SP::PSP) => true,
    }
}

} // verus!
