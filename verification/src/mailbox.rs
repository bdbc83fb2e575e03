//! A mailbox: a fixed-capacity FIFO of messages in a ring buffer.
use vstd::prelude::*;

verus! {

/// What a transmit gives, and the messages after it: refused when the
/// mailbox holds `n` messages already, else `data` goes last.
pub open spec fn after_transmit<T>(msgs: Seq<T>, data: T, n: nat) -> (Result<(), ()>, Seq<T>) {
    if msgs.len() >= n {
        (Err(()), msgs)
    } else {
        (Ok(()), msgs.push(data))
    }
}

/// What a receive gives, and the messages after it: the first message, or
/// nothing when the mailbox is empty.
pub open spec fn after_receive<T>(msgs: Seq<T>) -> (Option<T>, Seq<T>) {
    if msgs.len() == 0 {
        (None, msgs)
    } else {
        (Some(msgs[0]), msgs.drop_first())
    }
}

/// Remainders of numbers within one modulus of the range `[0, n)`.
proof fn lemma_mod_range(x: int, n: int)
    requires
        0 < n,
        -n <= x < 2 * n,
    ensures
        x % n == (if x < 0 {
            x + n
        } else if x < n {
            x
        } else {
            x - n
        }),
{
    if x < 0 {
        vstd::arithmetic::div_mod::lemma_mod_multiples_vanish(-1, x + n, n);
        vstd::arithmetic::div_mod::lemma_small_mod((x + n) as nat, n as nat);
    } else if x < n {
        vstd::arithmetic::div_mod::lemma_small_mod(x as nat, n as nat);
    } else {
        vstd::arithmetic::div_mod::lemma_mod_multiples_vanish(1, x - n, n);
        vstd::arithmetic::div_mod::lemma_small_mod((x - n) as nat, n as nat);
    }
}

/// A mailbox of up to `N` messages. `current` is the slot of the oldest
/// message and `stock` the number of messages.
pub struct MailBox<T, const N: usize> {
    buf: Vec<Option<T>>,
    current: u16,
    stock: u16,
}

impl<T, const N: usize> View for MailBox<T, N> {
    type V = Seq<T>;

    /// The messages, oldest first.
    closed spec fn view(&self) -> Seq<T> {
        Seq::new(self.stock as nat, |i: int| self.buf@[(self.current + i) % (N as int)]->Some_0)
    }
}

impl<T, const N: usize> MailBox<T, N> {
    /// The ring buffer has `N` slots, the messages fill the `stock` slots
    /// from `current` on, wrapping around, and the other slots are empty.
    pub closed spec fn inv(&self) -> bool {
        &&& N <= 0x8000
        &&& self.buf@.len() == N
        &&& (N > 0 ==> self.current < N)
        &&& (N == 0 ==> self.current == 0)
        &&& self.stock <= N
        &&& forall|k: int|
            0 <= k < N ==> ((#[trigger] self.buf@[k]) is Some <==> (k - self.current) % (N as int)
                < self.stock)
    }

    /// An empty mailbox.
    pub fn new() -> (m: MailBox<T, N>)
        requires
            N <= 0x8000,
        ensures
            m.inv(),
            m@ == Seq::<T>::empty(),
    {
        let mut buf: Vec<Option<T>> = Vec::new();
        let mut k: usize = 0;
        while k < N
            invariant
                k <= N,
                buf@.len() == k,
                forall|i: int| 0 <= i < k ==> (#[trigger] buf@[i]) is None,
            decreases N - k,
        {
            buf.push(None);
            k = k + 1;
        }
        let m = MailBox { buf, current: 0, stock: 0 };
        proof {
            assert(m@ =~= Seq::<T>::empty());
        }
        m
    }

    /// Puts `data` last, unless the mailbox is full.
    pub fn transmit(&mut self, data: T) -> (r: Result<(), ()>)
        requires
            old(self).inv(),
        ensures
            final(self).inv(),
            (r, final(self)@) == after_transmit(old(self)@, data, N as nat),
    {
        if self.stock >= N as u16 {
            return Err(());
        }
        let ghost old_view = self@;
        let mut loc = self.current + self.stock;
        if loc >= N as u16 {
            loc = loc - N as u16;
        }
        proof {
            lemma_mod_range(self.current + self.stock, N as int);
        }
        self.buf.set(loc as usize, Some(data));
        self.stock = self.stock + 1;
        proof {
            let n = N as int;
            let c = self.current as int;
            assert forall|k: int| 0 <= k < N implies ((#[trigger] self.buf@[k]) is Some <==> (k - self.current) % (N as int) < self.stock) by {
                lemma_mod_range(k - c, n);
                if k != loc {
                    assert(self.buf@[k] == old(self).buf@[k]);
                }
            }
            assert forall|i: int| 0 <= i < self.stock implies self@[i] == old_view.push(data)[i] by {
                lemma_mod_range(c + i, n);
                if i < self.stock - 1 {
                    let slot = (c + i) % n;
                    assert(self.buf@[slot] == old(self).buf@[slot]);
                }
            }
            assert(self@ =~= old_view.push(data));
        }
        Ok(())
    }

    /// Takes the first message off, if there is one.
    pub fn receive(&mut self) -> (r: Option<T>)
        requires
            old(self).inv(),
        ensures
            final(self).inv(),
            (r, final(self)@) == after_receive(old(self)@),
    {
        if self.stock == 0 {
            proof {
                assert(self@ =~= Seq::<T>::empty());
            }
            return None;
        }
        let ghost old_view = self@;
        let cur = self.current as usize;
        proof {
            lemma_mod_range(0, N as int);
            assert(self.buf@[cur as int] is Some);
        }
        let data = self.buf[cur].take();
        self.stock = self.stock - 1;
        self.current = self.current + 1;
        if self.current >= N as u16 {
            self.current = self.current - N as u16;
        }
        proof {
            let n = N as int;
            let c0 = old(self).current as int;
            let c = self.current as int;
            assert forall|k: int| 0 <= k < N implies ((#[trigger] self.buf@[k]) is Some <==> (k - self.current) % (N as int) < self.stock) by {
                lemma_mod_range(k - c, n);
                lemma_mod_range(k - c0, n);
                if k != cur {
                    assert(self.buf@[k] == old(self).buf@[k]);
                }
            }
            assert forall|i: int| 0 <= i < self.stock implies self@[i] == old_view.drop_first()[i] by {
                lemma_mod_range(c + i, n);
                lemma_mod_range(c0 + i + 1, n);
                let slot = (c + i) % n;
                assert(self.buf@[slot] == old(self).buf@[slot]);
            }
            assert(self@ =~= old_view.drop_first());
            lemma_mod_range(c0, n);
            assert(old_view[0] == old(self).buf@[cur as int]->Some_0);
            assert(data == Some(old_view[0]));
        }
        data
    }
}

/// Messages leave a mailbox in the order they came: receiving after a
/// transmit that was accepted gives the oldest message, which is the one just
/// sent when the mailbox was empty.
pub proof fn lemma_fifo<T>(msgs: Seq<T>, data: T, n: nat)
    requires
        msgs.len() < n,
    ensures
        after_transmit(msgs, data, n).0 is Ok,
        after_receive(after_transmit(msgs, data, n).1) == (if msgs.len() == 0 {
            (Some(data), Seq::<T>::empty())
        } else {
            (Some(msgs[0]), msgs.drop_first().push(data))
        }),
{
    let s = msgs.push(data);
    if msgs.len() == 0 {
        assert(s.drop_first() =~= Seq::<T>::empty());
    } else {
        assert(s.drop_first() =~= msgs.drop_first().push(data));
    }
}

impl<T, const N: usize> MailBox<T, N> {
    /// A mailbox never holds more than `N` messages, so a transmit is
    /// refused exactly when it holds `N`.
    pub proof fn lemma_bounded(m: &MailBox<T, N>, data: T)
        requires
            m.inv(),
        ensures
            m@.len() <= N,
            after_transmit(m@, data, N as nat).0 is Err <==> m@.len() == N,
    {
    }
}

/// The mailbox after transmitting `ds` one by one from `msgs`, with room for
/// `n` messages.
pub open spec fn transmit_all<T>(msgs: Seq<T>, ds: Seq<T>, n: nat) -> Seq<T>
    decreases ds.len(),
{
    if ds.len() == 0 {
        msgs
    } else {
        transmit_all(after_transmit(msgs, ds[0], n).1, ds.drop_first(), n)
    }
}

/// Whether every transmit of `ds` one by one from `msgs` is accepted.
pub open spec fn all_accepted<T>(msgs: Seq<T>, ds: Seq<T>, n: nat) -> bool
    decreases ds.len(),
{
    if ds.len() == 0 {
        true
    } else {
        after_transmit(msgs, ds[0], n).0 is Ok && all_accepted(after_transmit(msgs, ds[0], n).1, ds.drop_first(), n)
    }
}

/// What `k` receives in a row give, in order, from the messages `msgs`.
pub open spec fn receive_all<T>(msgs: Seq<T>, k: nat) -> Seq<T>
    decreases k,
{
    if k == 0 {
        Seq::empty()
    } else {
        match after_receive(msgs).0 {
            Some(x) => seq![x] + receive_all(after_receive(msgs).1, (k - 1) as nat),
            None => Seq::empty(),
        }
    }
}

proof fn lemma_transmit_all<T>(msgs: Seq<T>, ds: Seq<T>, n: nat)
    requires
        msgs.len() + ds.len() <= n,
    ensures
        all_accepted(msgs, ds, n),
        transmit_all(msgs, ds, n) == msgs + ds,
    decreases ds.len(),
{
    if ds.len() > 0 {
        lemma_transmit_all(msgs.push(ds[0]), ds.drop_first(), n);
        assert(msgs.push(ds[0]) + ds.drop_first() =~= msgs + ds);
    } else {
        assert(msgs + ds =~= msgs);
    }
}

proof fn lemma_receive_all<T>(msgs: Seq<T>)
    ensures
        receive_all(msgs, msgs.len()) == msgs,
    decreases msgs.len(),
{
    if msgs.len() > 0 {
        lemma_receive_all(msgs.drop_first());
        assert(seq![msgs[0]] + msgs.drop_first() =~= msgs);
    } else {
        assert(msgs =~= Seq::<T>::empty());
    }
}

/// First in, first out over any run: from messages `msgs`, transmitting
/// `ds` one by one (all fit in the `n` slots) is accepted every time, and
/// then as many receives as there are messages give the old messages and
/// then `ds`, each in the order it went in. From an empty mailbox, the
/// receives give exactly `ds`.
pub proof fn lemma_fifo_run<T>(msgs: Seq<T>, ds: Seq<T>, n: nat)
    requires
        msgs.len() + ds.len() <= n,
    ensures
        all_accepted(msgs, ds, n),
        receive_all(transmit_all(msgs, ds, n), msgs.len() + ds.len()) == msgs + ds,
        receive_all(transmit_all(Seq::<T>::empty(), ds, n), ds.len()) == ds,
{
    lemma_transmit_all(msgs, ds, n);
    lemma_receive_all(msgs + ds);
    lemma_transmit_all(Seq::<T>::empty(), ds, n);
    assert(Seq::<T>::empty() + ds =~= ds);
    lemma_receive_all(ds);
}

/// A receive gives the oldest message and leaves the others, in order;
/// a transmit that is accepted puts the message behind all the others.
pub proof fn lemma_receive_oldest<T>(msgs: Seq<T>, data: T, n: nat)
    ensures
        msgs.len() > 0 ==> after_receive(msgs) == (Some(msgs[0]), msgs.subrange(1, msgs.len() as int)),
        msgs.len() < n ==> {
            let t = after_transmit(msgs, data, n).1;
            &&& t.len() == msgs.len() + 1
            &&& t[msgs.len() as int] == data
            &&& t.subrange(0, msgs.len() as int) == msgs
        },
{
    if msgs.len() > 0 {
        assert(msgs.drop_first() =~= msgs.subrange(1, msgs.len() as int));
    }
    if msgs.len() < n {
        assert(msgs.push(data).subrange(0, msgs.len() as int) =~= msgs);
    }
}

/// A full mailbox refuses a message and keeps its messages; an empty one
/// gives nothing.
pub proof fn lemma_full_and_empty<T>(msgs: Seq<T>, data: T, n: nat)
    ensures
        msgs.len() >= n ==> after_transmit(msgs, data, n) == (Err::<(), ()>(()), msgs),
        msgs.len() == 0 ==> after_receive(msgs).0 is None,
{
}

} // verus!
