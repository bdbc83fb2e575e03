use rtos_kernel::mailbox::MailBox;
use rtos_kernel::message_queue::MsgQueue;
use rtos_kernel::semaphore::Semaphore;

#[test]
fn semaphore_counts_units() {
    let mut s = Semaphore::new(1);
    assert_eq!(s.try_get(), Ok(()));
    assert_eq!(s.data(), 0);
    assert_eq!(s.try_get(), Err(()));
    assert_eq!(s.data(), 0);
    s.release();
    s.release();
    assert_eq!(s.data(), 2);
    s.get();
    assert_eq!(s.data(), 1);
}

#[test]
fn release_then_take_restores_the_count() {
    let mut s = Semaphore::new(7);
    s.release();
    assert_eq!(s.try_get(), Ok(()));
    assert_eq!(s.data(), 7);
}

#[test]
fn mailbox_is_first_in_first_out() {
    let mut m: MailBox<u32, 2> = MailBox::new();
    assert_eq!(m.receive(), None);
    assert_eq!(m.transmit(1), Ok(()));
    assert_eq!(m.transmit(2), Ok(()));
    assert_eq!(m.transmit(3), Err(()));
    assert_eq!(m.receive(), Some(1));
    assert_eq!(m.transmit(3), Ok(()));
    assert_eq!(m.receive(), Some(2));
    assert_eq!(m.receive(), Some(3));
    assert_eq!(m.receive(), None);
}

#[test]
fn mailbox_wraps_around_many_times() {
    let mut m: MailBox<u8, 3> = MailBox::new();
    for i in 0..10u8 {
        assert_eq!(m.transmit(i), Ok(()));
        assert_eq!(m.receive(), Some(i));
    }
    assert_eq!(m.receive(), None);
}

#[test]
fn message_queue_keeps_messages_whole_and_in_order() {
    let mut q: MsgQueue<8> = MsgQueue::new();
    assert_eq!(q.peek_len(), None);
    let mut a = [1u8, 2, 3];
    assert_eq!(q.transmit(&mut a, 3), Ok(()));
    assert_eq!(a, [0, 0, 0]);
    assert_eq!(q.peek_len(), Some(3));
    assert_eq!(q.stored(), 3);
    let mut b = [4u8, 5, 9];
    assert_eq!(q.transmit(&mut b, 2), Ok(()));
    assert_eq!(q.stored(), 5);
    assert_eq!(b, [0, 0, 9]);
    let mut big = [7u8; 6];
    assert_eq!(q.transmit(&mut big, 6), Err(()));
    assert_eq!(big, [7u8; 6]);
    let mut buf = [0xAAu8; 8];
    assert_eq!(q.receive(&mut buf), Some(3));
    assert_eq!(&buf[..3], &[1, 2, 3]);
    assert_eq!(&buf[3..], &[0xAA; 5]);
    assert_eq!(q.receive(&mut buf), Some(2));
    assert_eq!(&buf[..2], &[4, 5]);
    assert_eq!(q.receive(&mut buf), None);
}

#[test]
fn message_queue_wraps_around_the_end_of_the_buffer() {
    let mut q: MsgQueue<8> = MsgQueue::new();
    let mut a = [1u8; 5];
    q.transmit(&mut a, 5).unwrap();
    let mut buf = [0u8; 8];
    assert_eq!(q.receive(&mut buf), Some(5));
    assert!(!q.write_wraps());
    let mut b = [10u8, 11, 12, 13];
    assert_eq!(q.transmit(&mut b, 4), Ok(()));
    assert_eq!(q.receive(&mut buf), Some(4));
    assert_eq!(&buf[..4], &[10, 11, 12, 13]);
}

#[test]
fn message_queue_full_refuses() {
    let mut q: MsgQueue<4> = MsgQueue::new();
    let mut a = [1u8, 2, 3, 4];
    assert_eq!(q.transmit(&mut a, 4), Ok(()));
    let mut b = [5u8];
    assert_eq!(q.transmit(&mut b, 1), Err(()));
    assert_eq!(b, [5]);
}

#[test]
fn message_queue_message_across_the_wrap_comes_out_whole() {
    let mut q: MsgQueue<4> = MsgQueue::new();
    assert_eq!(q.transmit(&mut [1, 2, 3], 3), Ok(()));
    assert_eq!(q.receive(&mut [0u8; 4]), Some(3));
    assert!(!q.write_wraps());
    assert_eq!(q.transmit(&mut [4, 5, 6], 3), Ok(()));
    let mut b = [0u8; 4];
    assert_eq!(q.receive(&mut b), Some(3));
    assert_eq!(b, [4, 5, 6, 0]);
    assert_eq!(q.receive(&mut [0u8; 4]), None);
}

#[test]
fn queues_of_no_room_refuse_everything() {
    let mut m: MailBox<u32, 0> = MailBox::new();
    assert_eq!(m.transmit(1), Err(()));
    assert_eq!(m.receive(), None);
    let mut q: MsgQueue<0> = MsgQueue::new();
    assert_eq!(q.transmit(&mut [1], 1), Err(()));
    assert_eq!(q.transmit(&mut [], 0), Ok(()));
    assert_eq!(q.peek_len(), None);
    assert_eq!(q.receive(&mut []), None);
}

#[test]
fn semaphore_count_after_a_run_of_steps() {
    let mut s = Semaphore::new(3);
    s.release();
    s.release();
    assert_eq!(s.try_get(), Ok(()));
    s.get();
    s.release();
    assert_eq!(s.try_get(), Ok(()));
    // 3 + 3 releases - 3 takes
    assert_eq!(s.data(), 3);
}
