use rtos_kernel::collections::{LinkedList as ItemList, ListNode as ItemLink, ListNodeInterface};
use rtos_kernel::drivers::{cpu_status, print_via_syscall, CPUStatus, DeviceType, Driver, SysTimer, SP};
use rtos_kernel::mpu::{log2minus1, mpu_control, mpu_regions, shcsr_with_memfault, MpuRegion};
use rtos_kernel::nulllock::NullLock;
use rtos_kernel::shell::{shell_command, shell_key, shell_prase, ShellCommand, ShellKey, SHELL_NUM};
use rtos_kernel::static_ref::StaticRef;
use rtos_kernel::syscall::{user_scheduler, SysCall, SysCallCammand, SysCallClass, SysCallDevice};
use rtos_kernel::user::{sender_step, SenderAction};
use std::convert::TryFrom;

#[test]
fn syscall_numbers_decode() {
    assert_eq!(SysCallClass::try_from(1u8), Ok(SysCallClass::Command));
    assert_eq!(SysCallClass::try_from(2u8), Ok(SysCallClass::HardwareAccess));
    assert_eq!(SysCallClass::try_from(9u8), Err(9));
    assert_eq!(SysCallCammand::try_from(1usize), Ok(SysCallCammand::Schedule));
    assert_eq!(SysCallCammand::try_from(0usize), Err(0));
    assert_eq!(SysCallDevice::try_from(1usize), Ok(SysCallDevice::UartTx));
    assert_eq!(SysCallDevice::try_from(2usize), Ok(SysCallDevice::UartRx));
    assert_eq!(SysCallDevice::try_from(3usize), Err(3));
}

#[test]
fn syscall_from_args_builds_the_request() {
    assert_eq!(
        SysCall::from_args(1, 1, 42, 7, 0),
        Some(SysCall::Command { command: SysCallCammand::Schedule, arg1: 42 })
    );
    assert_eq!(
        SysCall::from_args(2, 2, 0x2000_0000, 16, 0),
        Some(SysCall::HardwareAccess { dev: SysCallDevice::UartRx, arg1: 0x2000_0000, arg2: 16 })
    );
    assert_eq!(SysCall::from_args(0, 5, 1, 2, 3), None);
}

#[test]
fn syscall_numbers_round_trip() {
    assert_eq!(SysCallClass::Command.number(), 1);
    assert_eq!(SysCallClass::HardwareAccess.number(), 2);
    assert_eq!(SysCallCammand::Schedule.number(), 1);
    assert_eq!(SysCallDevice::UartTx.number(), 1);
    assert_eq!(SysCallDevice::UartRx.number(), 2);
    let dev = SysCallDevice::UartTx;
    assert_eq!(
        SysCall::from_args(SysCallClass::HardwareAccess.number(), dev.number(), 3, 4, 0),
        Some(SysCall::HardwareAccess { dev, arg1: 3, arg2: 4 })
    );
}

#[test]
fn yielding_is_a_schedule_command() {
    let (class, r0) = user_scheduler();
    assert_eq!(class, SysCallClass::Command);
    assert_eq!(
        SysCall::from_args(class.number(), r0, 0, 0, 0),
        Some(SysCall::Command { command: SysCallCammand::Schedule, arg1: 0 })
    );
}

#[test]
fn mpu_size_field() {
    assert_eq!(log2minus1(32), 4);
    assert_eq!(log2minus1(128 * 1024), 16);
    assert_eq!(log2minus1(1024 * 1024), 19);
    assert_eq!(log2minus1(1 << 31), 30);
}

#[test]
fn mpu_regions_are_programmed_in_order() {
    let r = mpu_regions();
    assert_eq!(
        r,
        vec![
            MpuRegion { number: 0, base: 0x2000_0000, attributes: 0x0303_0021 },
            MpuRegion { number: 1, base: 0x3000_0000, attributes: 0x0303_0021 },
            MpuRegion { number: 2, base: 0x0800_0000, attributes: 0x0303_0021 },
            MpuRegion { number: 3, base: 0xE000_0000, attributes: 0x0303_0027 },
        ]
    );
    assert_eq!(mpu_control(0x10), 0x15);
    assert_eq!(shcsr_with_memfault(0x2), 0x0001_0002);
}

#[test]
fn shell_reads_keys_and_commands() {
    assert_eq!(SHELL_NUM, 3);
    assert_eq!(shell_command(0), vec!['c', 'm', 'd']);
    assert_eq!(shell_command(2), vec!['l', 's', 'o', 'f']);
    assert_eq!(shell_key(0), ShellKey::Nothing);
    assert_eq!(shell_key(13), ShellKey::Enter);
    assert_eq!(shell_key(10), ShellKey::Enter);
    assert_eq!(shell_key(b'a' as usize), ShellKey::Char(97));
    assert_eq!(shell_prase(&[]), ShellCommand::Empty);
    assert_eq!(shell_prase(&['m', 'e', 'm']), ShellCommand::Run(1));
    assert_eq!(shell_prase(&['l', 's', 'o', 'f']), ShellCommand::Run(2));
    assert_eq!(shell_prase(&['l', 's']), ShellCommand::NotFound);
    assert_eq!(shell_prase(&['c', 'm', 'd', 'x']), ShellCommand::NotFound);
}

#[test]
fn cpu_modes() {
    assert_eq!(cpu_status(false, false), CPUStatus::Pmode(SP::MSP));
    assert_eq!(cpu_status(true, false), CPUStatus::Pmode(SP::PSP));
    assert_eq!(cpu_status(false, true), CPUStatus::Umode(SP::MSP));
    assert_eq!(cpu_status(true, true), CPUStatus::Umode(SP::PSP));
    assert!(print_via_syscall(&CPUStatus::Umode(SP::PSP)));
    assert!(!print_via_syscall(&CPUStatus::Umode(SP::MSP)));
    assert!(!print_via_syscall(&CPUStatus::Pmode(SP::PSP)));
}

#[test]
fn null_lock_gives_the_data_and_keeps_writes() {
    let mut l = NullLock::new(5u32);
    {
        let mut g = l.lock();
        assert_eq!(*g.get(), 5);
        g.set(9);
        assert_eq!(*g.get(), 9);
    }
    let g = l.lock();
    assert_eq!(*g.get(), 9);
}

#[test]
fn static_ref_keeps_its_address() {
    let r: StaticRef<u32> = StaticRef::new(0x4000_1000);
    assert_eq!(r.addr(), 0x4000_1000);
    let copy = r;
    assert_eq!(r.clone().addr(), 0x4000_1000);
    assert_eq!(copy.addr(), 0x4000_1000);
}

#[test]
fn singly_linked_list_in_order() {
    let mut links = vec![ItemLink::new(); 4];
    let mut l = ItemList::new();
    assert_eq!(l.head(), None);
    l.push_back(&mut links, 2);
    l.push_back(&mut links, 0);
    l.push_front(&mut links, 3);
    assert_eq!(l.head(), Some(3));
    assert_eq!(3usize.next(&links).elem, Some(2));
    let mut it = l.iter();
    let mut seen = Vec::new();
    while let Some(x) = it.next(&links) {
        seen.push(x);
    }
    assert_eq!(seen, vec![3, 2, 0]);
    assert_eq!(l.pop_front(&links), Some(3));
    assert_eq!(l.pop_front(&links), Some(2));
    assert_eq!(l.pop_front(&links), Some(0));
    assert_eq!(l.pop_front(&links), None);
}

#[test]
fn system_timer_counts_ticks() {
    let mut t = SysTimer::new();
    assert_eq!(t.tick(), 0);
    t.ticktack();
    t.ticktack();
    assert_eq!(t.tick(), 2);
    assert_eq!(t.compatible(), "System Timer");
    assert_eq!(t.device_type(), DeviceType::SysTimer);
}

#[test]
fn syscall_reply_is_the_byte_received() {
    let rx = SysCall::HardwareAccess { dev: SysCallDevice::UartRx, arg1: 0, arg2: 0 };
    assert_eq!(rx.reply(Some(b'q')), 113);
    assert_eq!(rx.reply(None), 0);
    let tx = SysCall::HardwareAccess { dev: SysCallDevice::UartTx, arg1: 5, arg2: 0 };
    assert_eq!(tx.reply(Some(7)), 0);
    let cmd = SysCall::Command { command: SysCallCammand::Schedule, arg1: 0 };
    assert_eq!(cmd.reply(Some(7)), 0);
}

#[test]
fn sender_sends_mails_then_messages_then_stops() {
    assert!(matches!(sender_step(0), SenderAction::Mail(0)));
    assert!(matches!(sender_step(4), SenderAction::Mail(4)));
    match sender_step(5) {
        SenderAction::Message(m) => assert_eq!(m, vec![5, 6, 7]),
        _ => panic!("expected a message"),
    }
    match sender_step(8) {
        SenderAction::Message(m) => assert_eq!(m, vec![8, 9, 10, 11, 12]),
        _ => panic!("expected a message"),
    }
    assert!(matches!(sender_step(9), SenderAction::Stop));
    assert!(matches!(sender_step(255), SenderAction::Stop));
}
