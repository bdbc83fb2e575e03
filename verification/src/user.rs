//! The steps of the user threads that exchange mail and messages.
use vstd::prelude::*;

verus! {

/// What the sending thread does after its pause: a mail holding a number,
/// a message of bytes, or stop for good.
#[derive(Debug)]
pub enum SenderAction {
    Mail(usize),
    Message(Vec<u8>),
    Stop,
}

/// The step of round `a`: five mails 0 to 4, then two messages of three
/// bytes and two of five bytes counting up from `a`, then stop.
pub fn sender_step(a: u8) -> (r: SenderAction)
    ensures
        a < 5 ==> r == SenderAction::Mail(a as usize),
        5 <= a < 7 ==> (r matches SenderAction::Message(m) && m@ == seq![a, (a + 1) as u8, (a + 2) as u8]),
        7 <= a < 9 ==> (r matches SenderAction::Message(m) && m@ == seq![
            a,
            (a + 1) as u8,
            (a + 2) as u8,
            (a + 3) as u8,
            (a + 4) as u8,
        ]),
        a >= 9 ==> r == SenderAction::Stop,
{
    if a < 5 {
        SenderAction::Mail(a as usize)
    } else if a < 7 {
        SenderAction::Message(vec![a, a + 1, a + 2])
    } else if a < 9 {
        SenderAction::Message(vec![a, a + 1, a + 2, a + 3, a + 4])
    } else {
        SenderAction::Stop
    }
}

} // verus!
