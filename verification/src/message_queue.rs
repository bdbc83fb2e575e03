//! A message queue: variable-length byte messages in a ring buffer of `N`
//! bytes, with a queue of the message lengths.
use vstd::prelude::*;
use std::collections::VecDeque;

verus! {

/// The sum of the lengths in `s`.
pub open spec fn total(s: Seq<u16>) -> nat
    decreases s.len(),
{
    if s.len() == 0 {
        0
    } else {
        s[0] as nat + total(s.drop_first())
    }
}

/// Appending a length adds it to the sum.
pub proof fn lemma_total_push(s: Seq<u16>, x: u16)
    ensures
        total(s.push(x)) == total(s) + x,
    decreases s.len(),
{
    let t = s.push(x);
    assert(total(t) == t[0] as nat + total(t.drop_first()));
    if s.len() == 0 {
        assert(t.drop_first() =~= Seq::<u16>::empty());
        assert(total(t.drop_first()) == 0);
        assert(total(s) == 0);
    } else {
        lemma_total_push(s.drop_first(), x);
        assert(t.drop_first() =~= s.drop_first().push(x));
        assert(total(s) == s[0] as nat + total(s.drop_first()));
    }
}

/// Remainders of numbers within one modulus of the range `[0, n)`.
proof fn lemma_mod_range(x: int, n: int)
    requires
        0 < n,
        -2 * n <= x < 2 * n,
    ensures
        x % n == (if x < -n {
            x + 2 * n
        } else if x < 0 {
            x + n
        } else if x < n {
            x
        } else {
            x - n
        }),
{
    if x < -n {
        vstd::arithmetic::div_mod::lemma_mod_multiples_vanish(-2, x + 2 * n, n);
        vstd::arithmetic::div_mod::lemma_small_mod((x + 2 * n) as nat, n as nat);
    } else if x < 0 {
        vstd::arithmetic::div_mod::lemma_mod_multiples_vanish(-1, x + n, n);
        vstd::arithmetic::div_mod::lemma_small_mod((x + n) as nat, n as nat);
    } else if x < n {
        vstd::arithmetic::div_mod::lemma_small_mod(x as nat, n as nat);
    } else {
        vstd::arithmetic::div_mod::lemma_mod_multiples_vanish(1, x - n, n);
        vstd::arithmetic::div_mod::lemma_small_mod((x - n) as nat, n as nat);
    }
}

/// A message queue with room for `N` bytes. `curr` is the slot of the
/// oldest byte and `stock` the number of stored bytes; `len` holds the
/// lengths of the queued messages, oldest first, at most `N` of them.
pub struct MsgQueue<const N: usize> {
    len: VecDeque<u16>,
    buf: Vec<u8>,
    curr: u16,
    stock: u16,
}

impl<const N: usize> MsgQueue<N> {
    /// The stored bytes, oldest first.
    pub closed spec fn bytes(&self) -> Seq<u8> {
        Seq::new(self.stock as nat, |i: int| self.buf@[(self.curr + i) % (N as int)])
    }

    /// The lengths of the queued messages, oldest first.
    pub closed spec fn lengths(&self) -> Seq<u16> {
        self.len@
    }

    /// The slot of the oldest stored byte.
    pub closed spec fn read_slot(&self) -> int {
        self.curr as int
    }

    /// The slot where the next byte goes, before wrapping around: the stored
    /// bytes follow the oldest one.
    pub open spec fn write_slot(&self) -> int {
        self.read_slot() + self.bytes().len()
    }

    /// The buffer has `N` slots; at most `N` lengths are queued and they add
    /// up to no more than the stored bytes.
    pub closed spec fn inv(&self) -> bool {
        &&& N <= 0x8000
        &&& self.buf@.len() == N
        &&& (N > 0 ==> self.curr < N)
        &&& (N == 0 ==> self.curr == 0)
        &&& self.stock <= N
        &&& self.len@.len() <= N
        &&& total(self.len@) <= self.stock
    }

    /// An empty queue.
    pub fn new() -> (q: MsgQueue<N>)
        requires
            N <= 0x8000,
        ensures
            q.inv(),
            q.bytes() == Seq::<u8>::empty(),
            q.lengths() == Seq::<u16>::empty(),
            q.read_slot() == 0,
    {
        let mut buf: Vec<u8> = Vec::new();
        let mut k: usize = 0;
        while k < N
            invariant
                k <= N,
                buf@.len() == k,
            decreases N - k,
        {
            buf.push(0);
            k = k + 1;
        }
        let q = MsgQueue { len: VecDeque::new(), buf, curr: 0, stock: 0 };
        proof {
            assert(q.bytes() =~= Seq::<u8>::empty());
        }
        q
    }

    /// The number of stored bytes.
    pub fn stored(&self) -> (r: u16)
        ensures
            r == self.bytes().len(),
    {
        self.stock
    }

    /// The length of the oldest queued message.
    pub fn peek_len(&self) -> (r: Option<u16>)
        ensures
            r == (if self.lengths().len() == 0 {
                None
            } else {
                Some(self.lengths()[0])
            }),
    {
        if self.len.len() == 0 {
            None
        } else {
            Some(self.len[0])
        }
    }

    /// Whether the next message starts past the end of the buffer: stored
    /// bytes that wrap around leave no room to write without wrapping first.
    pub fn write_wraps(&self) -> (r: bool)
        requires
            self.inv(),
        ensures
            r == (self.write_slot() >= N),
    {
        self.curr as u32 + self.stock as u32 >= N as u32
    }

    /// Moves the first `len` bytes of `data` in, leaving zeros behind, and
    /// queues `len`, unless the bytes do not fit. A length that finds `N`
    /// lengths queued is dropped, its bytes staying stored. (When the stored
    /// bytes wrap around the end of the buffer, a non-empty message that fits
    /// would be written past the end, which is out of bounds; that is left
    /// out.)
    pub fn transmit(&mut self, data: &mut [u8], len: u16) -> (r: Result<(), ()>)
        requires
            old(self).inv(),
            len <= old(data)@.len(),
            len > 0 && old(self).bytes().len() + len <= N ==> old(self).write_slot() < N,
        ensures
            final(self).inv(),
            final(self).read_slot() == old(self).read_slot(),
            old(self).bytes().len() + len > N ==> {
                &&& r is Err
                &&& final(self).bytes() == old(self).bytes()
                &&& final(self).lengths() == old(self).lengths()
                &&& final(data)@ == old(data)@
            },
            old(self).bytes().len() + len <= N ==> {
                &&& r is Ok
                &&& final(self).bytes() == old(self).bytes() + old(data)@.subrange(0, len as int)
                &&& final(self).lengths() == (if old(self).lengths().len() < N {
                    old(self).lengths().push(len)
                } else {
                    old(self).lengths()
                })
                &&& final(data)@.len() == old(data)@.len()
                &&& forall|i: int| 0 <= i < len ==> #[trigger] final(data)@[i] == 0
                &&& forall|i: int| len <= i < old(data)@.len() ==> #[trigger] final(data)@[i] == old(data)@[i]
            },
    {
        if self.stock as u32 + len as u32 > N as u32 {
            return Err(());
        }
        let ghost old_bytes = self.bytes();
        let ghost old_data = data@;
        let ghost n = N as int;
        let ghost c = self.curr as int;
        let ghost st = self.stock as int;
        let mut loc = self.curr + self.stock;
        proof {
            if len > 0 {
                lemma_mod_range(c + st, n);
            }
        }
        let mut i: u16 = 0;
        while i < len
            invariant
                N <= 0x8000,
                len > 0 ==> 0 < N,
                self.buf@.len() == N,
                self.curr == old(self).curr,
                self.stock == old(self).stock,
                self.len@ == old(self).len@,
                c == self.curr,
                st == self.stock,
                n == N,
                st + len <= n,
                len > 0 ==> c + st < n,
                0 <= i <= len,
                len <= old_data.len(),
                data@.len() == old_data.len(),
                i < len ==> loc as int == (c + st + i) % n,
                i < len ==> loc < N,
                forall|j: int| 0 <= j < n ==> #[trigger] self.buf@[j] == (if (j - c - st) % n < i {
                    old_data[(j - c - st) % n]
                } else {
                    old(self).buf@[j]
                }),
                forall|k: int| 0 <= k < i ==> #[trigger] data@[k] == 0,
                forall|k: int| i <= k < old_data.len() ==> #[trigger] data@[k] == old_data[k],
            decreases len - i,
        {
            proof {
                lemma_mod_range(c + st + i, n);
            }
            self.buf.set(loc as usize, data[i as usize]);
            data[i as usize] = 0;
            loc = loc + 1;
            if loc >= N as u16 {
                loc = 0;
            }
            proof {
                assert forall|j: int| 0 <= j < n implies #[trigger] self.buf@[j] == (if (j - c - st) % n < i + 1 {
                    old_data[(j - c - st) % n]
                } else {
                    old(self).buf@[j]
                }) by {
                    lemma_mod_range(j - c - st, n);
                    lemma_mod_range(j - c - st + n, n);
                    if j != (c + st + i) % n {
                        assert((j - c - st) % n != i);
                    }
                }
                if i + 1 < len {
                    lemma_mod_range(c + st + i + 1, n);
                }
            }
            i = i + 1;
        }
        self.stock = self.stock + len;
        if self.len.len() < N {
            self.len.push_back(len);
            proof {
                lemma_total_push(old(self).len@, len);
            }
        }
        proof {
            let expected = old_bytes + old_data.subrange(0, len as int);
            assert forall|k: int| 0 <= k < self.stock implies #[trigger] self.bytes()[k] == expected[k] by {
                let slot = (c + k) % n;
                lemma_mod_range(c + k, n);
                lemma_mod_range(slot - c - st, n);
                lemma_mod_range(slot - c - st + n, n);
                if k < st {
                    assert(old(self).bytes()[k] == old(self).buf@[slot]);
                } else {
                    assert((slot - c - st) % n == k - st);
                }
            }
            assert(self.bytes() =~= expected);
        }
        Ok(())
    }

    /// Moves the oldest message out into the front of `buf`, leaving zeros
    /// in the ring, and returns its length; nothing when no message is queued.
    pub fn receive(&mut self, buf: &mut [u8]) -> (r: Option<u16>)
        requires
            old(self).inv(),
            old(self).lengths().len() > 0 ==> old(buf)@.len() >= old(self).lengths()[0],
        ensures
            final(self).inv(),
            old(self).lengths().len() == 0 ==> {
                &&& r is None
                &&& final(self).read_slot() == old(self).read_slot()
                &&& final(self).bytes() == old(self).bytes()
                &&& final(self).lengths() == old(self).lengths()
                &&& final(buf)@ == old(buf)@
            },
            old(self).lengths().len() > 0 ==> {
                let l = old(self).lengths()[0] as int;
                &&& r == Some(old(self).lengths()[0])
                &&& final(self).read_slot() == (old(self).read_slot() + l) % (N as int)
                &&& final(self).lengths() == old(self).lengths().drop_first()
                &&& final(self).bytes() == old(self).bytes().subrange(l, old(self).bytes().len() as int)
                &&& final(buf)@.len() == old(buf)@.len()
                &&& forall|i: int| 0 <= i < l ==> #[trigger] final(buf)@[i] == old(self).bytes()[i]
                &&& forall|i: int| l <= i < old(buf)@.len() ==> #[trigger] final(buf)@[i] == old(buf)@[i]
            },
    {
        let ghost old_bytes = self.bytes();
        let ghost old_buf = buf@;
        let ghost n = N as int;
        let ghost c = self.curr as int;
        if let Some(len) = self.len.pop_front() {
            proof {
                assert(len == old(self).len@[0]);
                assert(total(old(self).len@) == len + total(self.len@));
            }
            let mut loc = self.curr;
            proof {
                lemma_mod_range(c, n);
            }
            let mut i: u16 = 0;
            while i < len
                invariant
                    0 < N <= 0x8000,
                    self.buf@.len() == N,
                    self.curr == old(self).curr,
                    self.stock == old(self).stock,
                    self.len@ == old(self).len@.drop_first(),
                    old(self).len@.len() > 0,
                    len == old(self).len@[0],
                    total(self.len@) + len <= self.stock,
                    self.len@.len() <= N,
                    c == self.curr,
                    n == N,
                    c < n,
                    len <= self.stock,
                    self.stock <= N,
                    0 <= i <= len,
                    len <= old_buf.len(),
                    buf@.len() == old_buf.len(),
                    loc as int == (c + i) % n,
                    loc < N,
                    old_bytes == old(self).bytes(),
                    forall|j: int| 0 <= j < n && (j - c) % n >= i ==> #[trigger] self.buf@[j] == old(self).buf@[j],
                    forall|k: int| 0 <= k < i ==> #[trigger] buf@[k] == old_bytes[k],
                    forall|k: int| i <= k < old_buf.len() ==> #[trigger] buf@[k] == old_buf[k],
                decreases len - i,
            {
                proof {
                    lemma_mod_range(c + i, n);
                    lemma_mod_range(loc - c, n);
                    assert(self.buf@[loc as int] == old(self).buf@[loc as int]);
                }
                buf[i as usize] = self.buf[loc as usize];
                self.buf.set(loc as usize, 0);
                proof {
                    assert forall|j: int| 0 <= j < n && (j - c) % n >= i + 1 implies #[trigger] self.buf@[j] == old(self).buf@[j] by {
                        lemma_mod_range(j - c, n);
                    }
                }
                loc = loc + 1;
                if loc >= N as u16 {
                    loc = 0;
                }
                proof {
                    lemma_mod_range(c + i + 1, n);
                }
                i = i + 1;
            }
            self.stock = self.stock - len;
            self.curr = loc;
            proof {
                let l = len as int;
                let expected = old_bytes.subrange(l, old_bytes.len() as int);
                assert forall|k: int| 0 <= k < self.stock implies #[trigger] self.bytes()[k] == expected[k] by {
                    lemma_mod_range(c + l, n);
                    lemma_mod_range(self.curr + k, n);
                    lemma_mod_range(c + l + k, n);
                    let slot = (self.curr + k) % n;
                    assert(slot == (c + l + k) % n);
                    lemma_mod_range(slot - c, n);
                    assert(self.buf@[slot] == old(self).buf@[slot]);
                }
                assert(self.bytes() =~= expected);
            }
            Some(len)
        } else {
            None
        }
    }
}

impl<const N: usize> MsgQueue<N> {
    /// In a consistent queue the oldest byte sits inside the buffer and at
    /// most `N` bytes are stored.
    pub proof fn lemma_slots(q: &MsgQueue<N>)
        requires
            q.inv(),
        ensures
            N > 0 ==> 0 <= q.read_slot() < N,
            N == 0 ==> q.read_slot() == 0,
            q.bytes().len() <= N,
    {
    }
}

/// While fewer than `N` lengths are queued and the bytes fit, a message sent
/// is stored after the stored bytes and its length after the queued
/// lengths; receiving gives back the oldest message's bytes. So messages come
/// out whole and in the order they went in.
pub proof fn lemma_message_order(bytes: Seq<u8>, lengths: Seq<u16>, msg: Seq<u8>)
    requires
        lengths.len() > 0,
        total(lengths) <= bytes.len(),
    ensures
        (bytes + msg).subrange(0, lengths[0] as int) == bytes.subrange(0, lengths[0] as int),
        lengths.push(msg.len() as u16)[0] == lengths[0],
        lengths.push(msg.len() as u16).drop_first() == lengths.drop_first().push(msg.len() as u16),
{
    assert(total(lengths) >= lengths[0]) by {
        assert(total(lengths) == lengths[0] + total(lengths.drop_first()));
    }
    assert((bytes + msg).subrange(0, lengths[0] as int) =~= bytes.subrange(0, lengths[0] as int));
    assert(lengths.push(msg.len() as u16).drop_first() =~= lengths.drop_first().push(msg.len() as u16));
}

} // verus!
