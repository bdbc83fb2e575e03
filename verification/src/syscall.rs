//! System calls: the numbers a thread puts in the `svc` immediate and in r0,
//! and their decoding into a request.
use vstd::prelude::*;
use vstd::std_specs::convert::TryFromSpecImpl;
use core::convert::TryFrom;

verus! {

/// The class of a system call, the immediate of `svc`: 1 for a kernel
/// command, 2 for a hardware access.
#[derive(Debug, Clone, Copy, PartialEq, Eq, Structural)]
pub enum SysCallClass {
    Command,
    HardwareAccess,
}

/// A kernel command, in r0 of a command call: 1 for a reschedule.
#[derive(Debug, Clone, Copy, PartialEq, Eq, Structural)]
pub enum SysCallCammand {
    Schedule,
}

/// A device, in r0 of a hardware access call: 1 sends on the UART, 2
/// receives from it.
#[derive(Debug, Clone, Copy, PartialEq, Eq, Structural)]
pub enum SysCallDevice {
    UartTx,
    UartRx,
}

/// A decoded system call.
#[derive(Debug, Clone, Copy, PartialEq, Eq, Structural)]
pub enum SysCall {
    Command { command: SysCallCammand, arg1: usize },
    HardwareAccess { dev: SysCallDevice, arg1: usize, arg2: usize },
}

/// The number of a class.
pub open spec fn class_number(c: SysCallClass) -> u8 {
    match c {
        SysCallClass::Command => 1,
        SysCallClass::HardwareAccess => 2,
    }
}

/// The number of a command.
pub open spec fn command_number(c: SysCallCammand) -> usize {
    match c {
        SysCallCammand::Schedule => 1,
    }
}

/// The number of a device.
pub open spec fn device_number(d: SysCallDevice) -> usize {
    match d {
        SysCallDevice::UartTx => 1,
        SysCallDevice::UartRx => 2,
    }
}

/// The class numbered `num`, or the number back when there is none.
pub open spec fn class_of(num: u8) -> Result<SysCallClass, u8> {
    if num == 1 {
        Ok(SysCallClass::Command)
    } else if num == 2 {
        Ok(SysCallClass::HardwareAccess)
    } else {
        Err(num)
    }
}

/// The command numbered `num`, or the number back when there is none.
pub open spec fn command_of(num: usize) -> Result<SysCallCammand, usize> {
    if num == 1 {
        Ok(SysCallCammand::Schedule)
    } else {
        Err(num)
    }
}

/// The device numbered `num`, or the number back when there is none.
pub open spec fn device_of(num: usize) -> Result<SysCallDevice, usize> {
    if num == 1 {
        Ok(SysCallDevice::UartTx)
    } else if num == 2 {
        Ok(SysCallDevice::UartRx)
    } else {
        Err(num)
    }
}

impl SysCallClass {
    /// The number of the class.
    pub fn number(&self) -> (n: u8)
        ensures
            n == class_number(*self),
    {
        match self {
            SysCallClass::Command => 1,
            SysCallClass::HardwareAccess => 2,
        }
    }
}

impl SysCallCammand {
    /// The number of the command.
    pub fn number(&self) -> (n: usize)
        ensures
            n == command_number(*self),
    {
        match self {
            SysCallCammand::Schedule => 1,
        }
    }
}

impl SysCallDevice {
    /// The number of the device.
    pub fn number(&self) -> (n: usize)
        ensures
            n == device_number(*self),
    {
        match self {
            SysCallDevice::UartTx => 1,
            SysCallDevice::UartRx => 2,
        }
    }
}

impl TryFrom<u8> for SysCallClass {
    type Error = u8;

    fn try_from(num: u8) -> (r: Result<SysCallClass, u8>) {
        match num {
            1 => Ok(SysCallClass::Command),
            2 => Ok(SysCallClass::HardwareAccess),
            other => Err(other),
        }
    }
}

impl TryFromSpecImpl<u8> for SysCallClass {
    open spec fn obeys_try_from_spec() -> bool {
        true
    }

    open spec fn try_from_spec(v: u8) -> Result<SysCallClass, u8> {
        class_of(v)
    }
}

impl TryFrom<usize> for SysCallCammand {
    type Error = usize;

    fn try_from(num: usize) -> (r: Result<SysCallCammand, usize>) {
        match num {
            1 => Ok(SysCallCammand::Schedule),
            other => Err(other),
        }
    }
}

impl TryFromSpecImpl<usize> for SysCallCammand {
    open spec fn obeys_try_from_spec() -> bool {
        true
    }

    open spec fn try_from_spec(v: usize) -> Result<SysCallCammand, usize> {
        command_of(v)
    }
}

impl TryFrom<usize> for SysCallDevice {
    type Error = usize;

    fn try_from(num: usize) -> (r: Result<SysCallDevice, usize>) {
        match num {
            1 => Ok(SysCallDevice::UartTx),
            2 => Ok(SysCallDevice::UartRx),
            other => Err(other),
        }
    }
}

impl TryFromSpecImpl<usize> for SysCallDevice {
    open spec fn obeys_try_from_spec() -> bool {
        true
    }

    open spec fn try_from_spec(v: usize) -> Result<SysCallDevice, usize> {
        device_of(v)
    }
}

/// The request that `svc` number `syscall_number` with r0, r1, r2 makes, if
/// the number names a class; r0 must then name a command or a device.
pub open spec fn request_of(syscall_number: u8, r0: usize, r1: usize, r2: usize) -> Option<SysCall> {
    match class_of(syscall_number) {
        Ok(SysCallClass::Command) => Some(
            SysCall::Command { command: command_of(r0)->Ok_0, arg1: r1 },
        ),
        Ok(SysCallClass::HardwareAccess) => Some(
            SysCall::HardwareAccess { dev: device_of(r0)->Ok_0, arg1: r1, arg2: r2 },
        ),
        Err(_) => None,
    }
}

impl SysCall {
    /// Decodes the `svc` number and the saved r0-r3 of the caller.
    pub fn from_args(syscall_number: u8, r0: usize, r1: usize, r2: usize, _r3: usize) -> (r: Option<SysCall>)
        requires
            syscall_number == 1 ==> command_of(r0) is Ok,
            syscall_number == 2 ==> device_of(r0) is Ok,
        ensures
            r == request_of(syscall_number, r0, r1, r2),
            r is Some <==> (syscall_number == 1 || syscall_number == 2),
    {
        match SysCallClass::try_from(syscall_number) {
            Ok(SysCallClass::Command) => Some(
                SysCall::Command { command: SysCallCammand::try_from(r0).unwrap(), arg1: r1 },
            ),
            Ok(SysCallClass::HardwareAccess) => Some(
                SysCall::HardwareAccess { dev: SysCallDevice::try_from(r0).unwrap(), arg1: r1, arg2: r2 },
            ),
            Err(_) => None,
        }
    }
}

impl SysCall {
    /// The value handed back in r0 once the call is served: the byte a
    /// receive read, and 0 for a receive that read nothing and for every
    /// other call.
    pub fn reply(&self, received: Option<u8>) -> (r: usize)
        ensures
            r == (match (*self, received) {
                (SysCall::HardwareAccess { dev: SysCallDevice::UartRx, .. }, Some(c)) => c as usize,
                _ => 0usize,
            }),
    {
        match self {
            SysCall::HardwareAccess { dev: SysCallDevice::UartRx, .. } => match received {
                Some(c) => c as usize,
                None => 0,
            },
            _ => 0,
        }
    }
}

/// Decoding the numbers of a command call gives the command back.
pub proof fn lemma_command_roundtrip(command: SysCallCammand, arg1: usize, r2: usize)
    ensures
        request_of(class_number(SysCallClass::Command), command_number(command), arg1, r2) == Some(
            SysCall::Command { command, arg1 },
        ),
{
}

/// Decoding the numbers of a hardware access call gives the device back.
pub proof fn lemma_device_roundtrip(dev: SysCallDevice, arg1: usize, arg2: usize)
    ensures
        request_of(class_number(SysCallClass::HardwareAccess), device_number(dev), arg1, arg2) == Some(
            SysCall::HardwareAccess { dev, arg1, arg2 },
        ),
{
}

/// The numbers of the call a thread makes to give up the processor: a
/// command call whose r0 names the reschedule command.
pub fn user_scheduler() -> (r: (SysCallClass, usize))
    ensures
        r == (SysCallClass::Command, command_number(SysCallCammand::Schedule)),
        request_of(class_number(r.0), r.1, 0, 0) == Some(
            SysCall::Command { command: SysCallCammand::Schedule, arg1: 0 },
        ),
{
    (SysCallClass::Command, SysCallCammand::Schedule.number())
}

} // verus!
