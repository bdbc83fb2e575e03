//! Software timers: one-shot timers kept in a list sorted by expiry tick.
//!
//! The timer records live in the `SoftWareTimer`, each at the slot of its
//! list node; the first node of the list is a head that never expires.
use vstd::prelude::*;
use crate::list::{first_of, linked_at, next_in, position_of, unlinked, Intrusive, LinkedList, ListNode, ListPtr, NodePool};

verus! {

/// What happens when a timer expires: the thread that owns it wakes up, or
/// the handler with the given number runs.
#[derive(Clone, Copy, PartialEq, Eq, Structural, Debug)]
pub enum TimerMode {
    Block,
    NonBlock(usize),
}

/// Whether a timer is idle, counting down, or stopped.
#[derive(Clone, Copy, PartialEq, Eq, Structural, Debug)]
pub enum TimerStatus {
    Leisure,
    Running,
    Stop,
}

/// A one-shot timer.
#[derive(Clone, Copy, Debug)]
pub struct Timer {
    pub node: ListPtr,
    pub stop_tick: u128,
    pub timeout: u128,
    pub mode: TimerMode,
    pub status: TimerStatus,
}

/// An idle timer whose list node is `node`.
pub open spec fn idle_timer(node: ListPtr) -> Timer {
    Timer { node, stop_tick: 0, timeout: 0, mode: TimerMode::Block, status: TimerStatus::Leisure }
}

impl Timer {
    /// An idle timer whose list node is `node`.
    pub fn new(node: ListPtr) -> (t: Timer)
        ensures
            t == idle_timer(node),
    {
        Timer { node, stop_tick: 0, timeout: 0, mode: TimerMode::Block, status: TimerStatus::Leisure }
    }

    /// Arms an idle timer to expire `tick` ticks after `now`; a timer that is
    /// not idle is left as it is. Says whether the timer was armed. This sets
    /// the record only and queues nothing: a record knows no queue, so
    /// queueing an armed timer is left to the caller, and
    /// `SoftWareTimer::timeout` arms a timer and queues it.
    pub fn timeout(&mut self, tick: u128, mode: TimerMode, now: u128) -> (armed: bool)
        requires
            old(self).status == TimerStatus::Leisure ==> tick + now <= u128::MAX,
        ensures
            armed == (old(self).status == TimerStatus::Leisure),
            armed ==> *final(self) == (Timer {
                timeout: (tick + now) as u128,
                mode,
                status: TimerStatus::Running,
                ..*old(self)
            }),
            !armed ==> *final(self) == *old(self),
    {
        if self.status != TimerStatus::Leisure {
            return false;
        }
        self.timeout = tick + now;
        self.mode = mode;
        self.status = TimerStatus::Running;
        true
    }

    /// Marks the timer stopped.
    pub fn stop(&mut self)
        ensures
            *final(self) == (Timer { status: TimerStatus::Stop, ..*old(self) }),
    {
        self.status = TimerStatus::Stop;
    }

    /// The timer's list node.
    pub fn node_ptr(&self) -> (r: Option<ListPtr>)
        ensures
            r == Some(self.node),
    {
        ListPtr::new(self.node.0)
    }
}

impl Intrusive for Timer {
    type Item = Timer;

    fn from_ptr<'a>(items: &'a Vec<Timer>, ptr: &ListPtr) -> (r: &'a Timer) {
        &items[ptr.0]
    }
}

/// `j` is where a timer expiring at `t` goes in the queue `s`: after the head
/// and after every queued timer that expires no later, before the first that
/// expires later.
pub open spec fn placement(timers: Seq<Timer>, s: Seq<ListPtr>, t: u128, j: int) -> bool {
    &&& 1 <= j <= s.len()
    &&& forall|k: int| 1 <= k < j ==> #[trigger] timers[s[k].0 as int].timeout <= t
    &&& j < s.len() ==> timers[s[j].0 as int].timeout > t
}

/// `j` is the first queued position, after the head, whose timer has expired
/// at `now`.
pub open spec fn first_expired(timers: Seq<Timer>, s: Seq<ListPtr>, now: u128, j: int) -> bool {
    &&& 1 <= j < s.len()
    &&& timers[s[j].0 as int].timeout <= now
    &&& forall|k: int| 1 <= k < j ==> #[trigger] timers[s[k].0 as int].timeout > now
}

/// The queued timers, after the head, expire in non-decreasing order.
pub open spec fn sorted_by_timeout(timers: Seq<Timer>, s: Seq<ListPtr>) -> bool {
    forall|i: int, j: int|
        1 <= i < j < s.len() ==> #[trigger] timers[s[i].0 as int].timeout
            <= #[trigger] timers[s[j].0 as int].timeout
}

/// The interface of the software timer driver.
pub trait SoftwareTimerDriver {
    /// The driver is set up and consistent.
    spec fn ready(&self) -> bool;

    /// `timer` names an idle timer of this driver that may be queued.
    spec fn can_queue(&self, timer: ListPtr) -> bool;

    /// Queues `timer` by its expiry tick.
    fn add(&mut self, timer: ListPtr)
        requires
            old(self).ready(),
            old(self).can_queue(timer),
        ensures
            final(self).ready(),
    ;

    /// Expires the first queued timer that is due at `now`, if any.
    fn check(&mut self, now: u128) -> (r: Option<(ListPtr, TimerMode)>)
        requires
            old(self).ready(),
        ensures
            final(self).ready(),
    ;
}

/// The software timer: the queue of armed timers and the timer records.
pub struct SoftWareTimer {
    list: LinkedList,
    pool: NodePool,
    timers: Vec<Timer>,
}

impl SoftWareTimer {
    /// The queue: the head node, then the armed timers in expiry order.
    pub closed spec fn queue(&self) -> Seq<ListPtr> {
        self.list@
    }

    /// The timer records, each at the slot of its node.
    pub closed spec fn timers(&self) -> Seq<Timer> {
        self.timers@
    }

    /// The records and the links agree, and the queued timers (after the
    /// head) are sorted by expiry tick.
    pub closed spec fn inv(&self) -> bool {
        &&& self.list.wf(self.pool@)
        &&& self.pool@.len() == self.timers@.len()
        &&& forall|i: int| 0 <= i < self.timers@.len() ==> (#[trigger] self.timers@[i]).node.0 == i
        &&& sorted_by_timeout(self.timers@, self.list@)
    }

    /// The driver with no timer.
    pub fn new() -> (st: SoftWareTimer)
        ensures
            st.inv(),
            st.queue() == Seq::<ListPtr>::empty(),
            st.timers() == Seq::<Timer>::empty(),
    {
        SoftWareTimer { list: LinkedList::new(), pool: NodePool { nodes: Vec::new() }, timers: Vec::new() }
    }

    /// Adds an idle timer record and returns its node.
    pub fn register(&mut self) -> (p: ListPtr)
        requires
            old(self).inv(),
            old(self).timers().len() < usize::MAX,
        ensures
            final(self).inv(),
            p.0 == old(self).timers().len(),
            final(self).timers() == old(self).timers().push(idle_timer(p)),
            final(self).queue() == old(self).queue(),
    {
        let p = ListPtr(self.timers.len());
        self.timers.push(Timer::new(p));
        self.pool.nodes.push(ListNode::new());
        proof {
            assert forall|i: int| 0 <= i < self.list@.len() implies #[trigger] linked_at(
                self.pool@,
                self.list@,
                i,
            ) by {
                assert(linked_at(old(self).pool@, self.list@, i));
            }
            assert forall|i: int| 0 <= i < self.timers@.len() implies (
            #[trigger] self.timers@[i]).node.0 == i by {
                if i < old(self).timers@.len() {
                    assert(self.timers@[i] == old(self).timers@[i]);
                }
            }
            assert forall|i: int, j: int| 1 <= i < j < self.list@.len() implies #[trigger] self.timers@[
                self.list@[i].0 as int].timeout <= #[trigger] self.timers@[self.list@[j].0 as int].timeout by {
                assert(linked_at(old(self).pool@, self.list@, i));
                assert(linked_at(old(self).pool@, self.list@, j));
            }
        }
        p
    }

    /// Queues the head node, a timer record that never expires.
    pub fn init(&mut self) -> (r: Result<(), &'static str>)
        requires
            old(self).inv(),
            old(self).queue().len() == 0,
            old(self).timers().len() < usize::MAX,
        ensures
            final(self).inv(),
            r is Ok,
            final(self).queue() == seq![ListPtr(old(self).timers().len() as usize)],
            final(self).timers() == old(self).timers().push(
                idle_timer(ListPtr(old(self).timers().len() as usize)),
            ),
    {
        let head = self.register();
        self.list.push_front(&mut self.pool, head);
        Ok(())
    }

    /// What every operation keeps: the queued timers, after the head, appear
    /// once each and expire in non-decreasing order, so the first one due is
    /// the first one found from the head.
    pub proof fn lemma_queue_sorted(st: &SoftWareTimer)
        requires
            st.inv(),
        ensures
            sorted_by_timeout(st.timers(), st.queue()),
            st.queue().no_duplicates(),
            forall|k: int| 0 <= k < st.queue().len() ==> (#[trigger] st.queue()[k]).0 < st.timers().len(),
    {
        assert forall|k: int| 0 <= k < st.queue().len() implies (#[trigger] st.queue()[k]).0 < st.timers().len() by {
            assert(linked_at(st.pool@, st.list@, k));
        }
    }

    /// Each timer record sits at the slot of its own node, so the record
    /// found from a timer's node (`from_ptr` on what `node_ptr` gives) is
    /// that timer.
    pub proof fn lemma_node_ptr_inverse(st: &SoftWareTimer, k: int)
        requires
            st.inv(),
            0 <= k < st.timers().len(),
        ensures
            st.timers()[k].node.0 == k,
            st.timers()[st.timers()[k].node.0 as int] == st.timers()[k],
    {
    }

    /// The armed timers, the first to expire first (what the driver's
    /// listing shows): the queue after its head.
    pub fn pending(&self) -> (r: Vec<ListPtr>)
        requires
            self.ready(),
        ensures
            r@ == self.queue().drop_first(),
    {
        let all = self.list.to_vec(&self.pool);
        let mut r: Vec<ListPtr> = Vec::new();
        let mut k: usize = 1;
        while k < all.len()
            invariant
                all@ == self.queue(),
                1 <= k <= all@.len(),
                r@ == all@.subrange(1, k as int),
            decreases all@.len() - k,
        {
            r.push(all[k]);
            k = k + 1;
        }
        proof {
            assert(r@ =~= self.queue().drop_first());
        }
        r
    }

    /// The head of the queue, once the driver is set up.
    pub fn head(&self) -> (r: Option<ListPtr>)
        ensures
            r == first_of(self.queue()),
    {
        self.list.head()
    }

    /// Whether `timer` is in the queue (the head counts).
    pub fn is_queued(&self, timer: ListPtr) -> (r: bool)
        requires
            self.inv(),
        ensures
            r == self.queue().contains(timer),
    {
        let all = self.list.to_vec(&self.pool);
        let mut k: usize = 0;
        while k < all.len()
            invariant
                all@ == self.queue(),
                k <= all@.len(),
                forall|m: int| 0 <= m < k ==> all@[m] != timer,
            decreases all@.len() - k,
        {
            if all[k] == timer {
                proof {
                    assert(self.queue()[k as int] == timer);
                }
                return true;
            }
            k = k + 1;
        }
        false
    }

    /// The number of timer records.
    pub fn len(&self) -> (r: usize)
        ensures
            r == self.timers().len(),
    {
        self.timers.len()
    }

    /// The record of `timer`.
    pub fn timer(&self, timer: ListPtr) -> (t: Timer)
        requires
            timer.0 < self.timers().len(),
        ensures
            t == self.timers()[timer.0 as int],
    {
        self.timers[timer.0]
    }

    /// Arms the idle timer `timer` to expire `tick` ticks after `now` and
    /// queues it; a timer that is not idle is left as it is. Says whether the
    /// timer was armed.
    pub fn timeout(&mut self, timer: ListPtr, tick: u128, mode: TimerMode, now: u128) -> (armed: bool)
        requires
            old(self).ready(),
            timer.0 < old(self).timers().len(),
            timer != old(self).queue()[0],
            old(self).timers()[timer.0 as int].status == TimerStatus::Leisure ==> tick + now
                <= u128::MAX,
            old(self).timers()[timer.0 as int].status == TimerStatus::Leisure ==> !old(self).queue().contains(timer),
        ensures
            final(self).ready(),
            armed == (old(self).timers()[timer.0 as int].status == TimerStatus::Leisure),
            !armed ==> final(self).queue() == old(self).queue() && final(self).timers() == old(
                self,
            ).timers(),
            armed ==> {
                let t = (Timer {
                    timeout: (tick + now) as u128,
                    mode,
                    status: TimerStatus::Running,
                    ..old(self).timers()[timer.0 as int]
                });
                &&& final(self).timers() == old(self).timers().update(timer.0 as int, t)
                &&& exists|j: int|
                    placement(final(self).timers(), old(self).queue(), t.timeout, j)
                        && final(self).queue() == old(self).queue().insert(j, timer)
            },
    {
        let mut t = self.timers[timer.0];
        let armed = t.timeout(tick, mode, now);
        if armed {
            let ghost old_timers = self.timers@;
            self.timers.set(timer.0, t);
            proof {
                assert forall|i: int| 0 <= i < self.timers@.len() implies (
                #[trigger] self.timers@[i]).node.0 == i by {
                    assert(old_timers[i].node.0 == i);
                }
                assert forall|k: int| 0 <= k < self.list@.len() implies self.timers@[
                    self.list@[k].0 as int] == old_timers[self.list@[k].0 as int] by {
                    assert(linked_at(self.pool@, self.list@, k));
                    if self.list@[k].0 == timer.0 {
                        assert(self.list@[k] == timer);
                    }
                }
                assert forall|i: int, j: int| 1 <= i < j < self.list@.len() implies #[trigger] self.timers@[
                    self.list@[i].0 as int].timeout <= #[trigger] self.timers@[self.list@[j].0 as int].timeout by {
                    assert(self.timers@[self.list@[i].0 as int] == old_timers[self.list@[i].0 as int]);
                    assert(self.timers@[self.list@[j].0 as int] == old_timers[self.list@[j].0 as int]);
                }
            }
            self.add(timer);
        }
        armed
    }
}

impl SoftwareTimerDriver for SoftWareTimer {
    open spec fn ready(&self) -> bool {
        self.inv() && self.queue().len() >= 1
    }

    open spec fn can_queue(&self, timer: ListPtr) -> bool {
        &&& timer.0 < self.timers().len()
        &&& !self.queue().contains(timer)
    }

    /// Walks the queue from the head and links `timer` in before the first
    /// queued timer that expires later, or last. (Linking in before that timer
    /// is linking in after its predecessor, the node the walk stands on.)
    fn add(&mut self, timer: ListPtr)
        ensures
            final(self).timers() == old(self).timers(),
            exists|j: int|
                placement(old(self).timers(), old(self).queue(), old(self).timers()[timer.0 as int].timeout, j)
                    && final(self).queue() == old(self).queue().insert(j, timer),
    {
        let ghost s = self.list@;
        let t_new = self.timers[timer.0].timeout;
        let mut ptr = self.list.head().unwrap();
        let ghost mut i: int = 0;
        loop
            invariant
                self.inv(),
                self.list@ == s,
                s == old(self).list@,
                self.timers@ == old(self).timers@,
                s.len() >= 1,
                0 <= i < s.len(),
                ptr == s[i],
                forall|k: int| 1 <= k <= i ==> #[trigger] self.timers@[s[k].0 as int].timeout <= t_new,
                t_new == self.timers@[timer.0 as int].timeout,
                timer.0 < self.timers@.len(),
                !s.contains(timer),
            ensures
                self.inv(),
                self.list@ == s,
                s == old(self).list@,
                self.timers@ == old(self).timers@,
                ptr == s[s.len() - 1],
                forall|k: int| 1 <= k < s.len() ==> #[trigger] self.timers@[s[k].0 as int].timeout <= t_new,
            decreases s.len() - i,
        {
            assert(linked_at(self.pool@, s, i));
            match ptr.next(&self.pool) {
                Some(p) => {
                    assert(linked_at(self.pool@, s, i + 1));
                    let t = Timer::from_ptr(&self.timers, &p);
                    if t.timeout > t_new {
                        let ghost q = s.insert(i + 1, timer);
                        self.list.insert_after(&mut self.pool, ptr, timer);
                        proof {
                            assert(position_of(s, ptr) == i) by {
                                let k = position_of(s, ptr);
                                if k != i {
                                    crate::list::lemma_position_unique(s, k, i);
                                }
                            }
                            self.lemma_queue_kept(s, q, old(self).timers@, timer, i + 1);
                            assert(placement(old(self).timers(), old(self).queue(), old(self).timers()[timer.0 as int].timeout, i + 1)
                                && self.queue() == old(self).queue().insert(i + 1, timer));
                        }
                        return ;
                    }
                    ptr = ptr.next(&self.pool).unwrap();
                    proof {
                        i = i + 1;
                    }
                },
                None => {
                    break ;
                },
            }
        }
        let ghost q = s.insert(s.len() as int, timer);
        self.list.insert_after(&mut self.pool, ptr, timer);
        proof {
            assert(position_of(s, ptr) == s.len() - 1) by {
                let k = position_of(s, ptr);
                if k != s.len() - 1 {
                    crate::list::lemma_position_unique(s, k, s.len() - 1);
                }
            }
            self.lemma_queue_kept(s, q, old(self).timers@, timer, s.len() as int);
            assert(placement(old(self).timers(), old(self).queue(), old(self).timers()[timer.0 as int].timeout, s.len() as int)
                && self.queue() == old(self).queue().insert(s.len() as int, timer));
        }
    }

    /// Expires the first queued timer, after the head, that is due: it leaves
    /// the queue and becomes idle, and its node and mode are returned. (The
    /// walk stops there, since the detached node has no successor.)
    fn check(&mut self, now: u128) -> (r: Option<(ListPtr, TimerMode)>)
        ensures
            match r {
                Some((p, m)) => exists|j: int|
                    first_expired(old(self).timers(), old(self).queue(), now, j) && p == old(
                        self,
                    ).queue()[j] && m == old(self).timers()[p.0 as int].mode && final(self).queue()
                        == old(self).queue().remove(j) && final(self).timers() == old(
                        self,
                    ).timers().update(
                        p.0 as int,
                        Timer { status: TimerStatus::Leisure, ..old(self).timers()[p.0 as int] },
                    ),
                None => (forall|k: int|
                    1 <= k < old(self).queue().len() ==> #[trigger] old(self).timers()[old(
                        self,
                    ).queue()[k].0 as int].timeout > now) && final(self).queue() == old(self).queue()
                    && final(self).timers() == old(self).timers(),
            },
    {
        let ghost s = self.list@;
        let head = self.list.head().unwrap();
        proof {
            assert(linked_at(self.pool@, s, 0));
        }
        let mut ptr = head.next(&self.pool);
        let ghost mut i: int = 1;
        loop
            invariant
                self.inv(),
                self.list@ == s,
                s == old(self).list@,
                self.timers@ == old(self).timers@,
                self.pool@ == old(self).pool@,
                s.len() >= 1,
                1 <= i <= s.len(),
                ptr == (if i < s.len() { Some(s[i]) } else { None::<ListPtr> }),
                forall|k: int| 1 <= k < i ==> #[trigger] self.timers@[s[k].0 as int].timeout > now,
            decreases s.len() - i,
        {
            match ptr {
                None => {
                    proof {
                        assert forall|k: int| 1 <= k < old(self).queue().len() implies #[trigger] old(self).timers()[old(
                            self,
                        ).queue()[k].0 as int].timeout > now by {
                            assert(self.timers@[s[k].0 as int].timeout > now);
                        }
                    }
                    return None;
                },
                Some(p) => {
                    assert(linked_at(self.pool@, s, i));
                    let t = self.timers[p.0];
                    if t.timeout <= now {
                        let ghost old_timers = self.timers@;
                        proof {
                            assert(position_of(s, p) == i) by {
                                let k = position_of(s, p);
                                if k != i {
                                    crate::list::lemma_position_unique(s, k, i);
                                }
                            }
                        }
                        self.list.detach(&mut self.pool, p);
                        let mode = t.mode;
                        self.timers.set(p.0, Timer { status: TimerStatus::Leisure, ..t });
                        proof {
                            assert forall|k: int| 0 <= k < s.len() implies (#[trigger] s[k]).0 < old_timers.len() by {
                                assert(linked_at(old(self).pool@, s, k));
                            }
                            self.lemma_expired_kept(s, old_timers, i);
                            assert(first_expired(old(self).timers(), old(self).queue(), now, i) && p == old(self).queue()[i]);
                        }
                        return Some((p, mode));
                    }
                    ptr = p.next(&self.pool);
                    proof {
                        i = i + 1;
                    }
                },
            }
        }
    }
}

impl SoftWareTimer {
    /// After linking `timer` in at position `j`, the records still satisfy
    /// the invariant.
    proof fn lemma_queue_kept(&self, s: Seq<ListPtr>, q: Seq<ListPtr>, timers: Seq<Timer>, timer: ListPtr, j: int)
        requires
            self.list.wf(self.pool@),
            self.list@ == q,
            q == s.insert(j, timer),
            1 <= j <= s.len(),
            self.pool@.len() == timers.len(),
            self.timers@ == timers,
            forall|i: int| 0 <= i < timers.len() ==> (#[trigger] timers[i]).node.0 == i,
            sorted_by_timeout(timers, s),
            forall|k: int| 1 <= k < j ==> #[trigger] timers[s[k].0 as int].timeout <= timers[timer.0 as int].timeout,
            j < s.len() ==> timers[s[j].0 as int].timeout > timers[timer.0 as int].timeout,
        ensures
            self.inv(),
    {
        s.insert_ensures(j, timer);
        let tt = timers[timer.0 as int].timeout;
        assert forall|a: int, b: int| 1 <= a < b < q.len() implies #[trigger] timers[q[a].0 as int].timeout
            <= #[trigger] timers[q[b].0 as int].timeout by {
            if a < j && b < j {
                assert(q[a] == s[a] && q[b] == s[b]);
            } else if a < j && b == j {
                assert(q[a] == s[a]);
            } else if a < j && b > j {
                assert(q[a] == s[a] && q[b] == s[b - 1]);
                if a < b - 1 {
                    assert(timers[s[a].0 as int].timeout <= timers[s[b - 1].0 as int].timeout);
                }
            } else if a == j {
                assert(q[b] == s[b - 1]);
                if b - 1 > j {
                    assert(timers[s[j].0 as int].timeout <= timers[s[b - 1].0 as int].timeout);
                }
            } else {
                assert(q[a] == s[a - 1] && q[b] == s[b - 1]);
            }
        }
    }

    /// After expiring the timer at position `i`, the records still satisfy
    /// the invariant.
    proof fn lemma_expired_kept(&self, s: Seq<ListPtr>, timers: Seq<Timer>, i: int)
        requires
            self.list.wf(self.pool@),
            1 <= i < s.len(),
            s.no_duplicates(),
            forall|k: int| 0 <= k < s.len() ==> (#[trigger] s[k]).0 < timers.len(),
            self.list@ == s.remove(i),
            self.pool@.len() == timers.len(),
            self.timers@ == timers.update(
                s[i].0 as int,
                Timer { status: TimerStatus::Leisure, ..timers[s[i].0 as int] },
            ),
            forall|a: int| 0 <= a < timers.len() ==> (#[trigger] timers[a]).node.0 == a,
            sorted_by_timeout(timers, s),
        ensures
            self.inv(),
    {
        let t = s.remove(i);
        s.remove_ensures(i);
        assert forall|a: int| 0 <= a < self.timers@.len() implies (#[trigger] self.timers@[a]).node.0 == a by {
            assert(timers[a].node.0 == a);
        }
        assert forall|k: int| 0 <= k < t.len() implies self.timers@[t[k].0 as int] == timers[t[k].0 as int] by {
            let kk = if k < i { k } else { k + 1 };
            assert(t[k] == s[kk]);
            if s[kk].0 == s[i].0 {
                crate::list::lemma_position_unique(s, kk, i);
            }
        }
        assert forall|a: int, b: int| 1 <= a < b < t.len() implies #[trigger] self.timers@[t[a].0 as int].timeout
            <= #[trigger] self.timers@[t[b].0 as int].timeout by {
            let aa = if a < i { a } else { a + 1 };
            let bb = if b < i { b } else { b + 1 };
            assert(t[a] == s[aa] && t[b] == s[bb]);
            assert(self.timers@[t[a].0 as int] == timers[t[a].0 as int]);
            assert(self.timers@[t[b].0 as int] == timers[t[b].0 as int]);
            assert(timers[s[aa].0 as int].timeout <= timers[s[bb].0 as int].timeout);
        }
    }
}

} // verus!
