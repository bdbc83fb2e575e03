//! Schedulers: the preemptive priority scheduler the kernel runs, and a round
//! robin one. Both decide which thread runs; switching stacks is left to the
//! caller, which gets the pair of threads to switch between.
use vstd::prelude::*;
use crate::list::{
    first_of, last_of, linked_at, lemma_list_kept, lemma_position_unique, named_in, next_in,
    only_touched, position_of, prev_in, unlinked, Intrusive, LinkedList, ListNode, ListPtr,
    NodePool,
};
use crate::thread::{is_start_frame, StackFrame, Thread, ThreadStatus, THREAD_NAME_LEN};
use vstd::string::StringSliceAdditionalSpecFns;

verus! {

/// The number of priority levels; level 0 is the most urgent.
pub const PRIORITY_NUMBER: usize = 32;

/// Bit `i` of `mask` is set.
pub open spec fn has_prio(mask: u32, i: int) -> bool {
    mask & (1u32 << (i as u32)) != 0
}

/// The lowest set bit of `mask`: the most urgent level with a ready thread.
pub open spec fn lowest_set(mask: u32) -> int {
    choose|i: int| 0 <= i < 32 && has_prio(mask, i) && forall|j: int| 0 <= j < i ==> !has_prio(mask, j)
}

/// The queue after its first thread has moved to the back.
pub open spec fn rotate(q: Seq<ListPtr>) -> Seq<ListPtr> {
    q.drop_first().push(q[0])
}

proof fn lemma_set_bit(m: u32, p: u32, q: u32)
    by (bit_vector)
    requires
        p < 32,
        q < 32,
    ensures
        ((m | (1u32 << p)) & (1u32 << q) != 0) == ((m & (1u32 << q) != 0) || p == q),
{
}

proof fn lemma_clear_bit(m: u32, p: u32, q: u32)
    by (bit_vector)
    requires
        p < 32,
        q < 32,
    ensures
        ((m & !(1u32 << p)) & (1u32 << q) != 0) == ((m & (1u32 << q) != 0) && p != q),
{
}

proof fn lemma_low_zero(m: u32)
    by (bit_vector)
    ensures
        (m as u64) & (((1u64 << 0u64) - 1) as u64) == 0,
{
}

proof fn lemma_low_step(m: u32, i: u32)
    by (bit_vector)
    requires
        i < 32,
        (m as u64) & (((1u64 << (i as u64)) - 1) as u64) == 0,
        m & (1u32 << i) == 0,
    ensures
        (m as u64) & (((1u64 << ((i + 1) as u64)) - 1) as u64) == 0,
{
}

proof fn lemma_low_all(m: u32)
    by (bit_vector)
    requires
        (m as u64) & (((1u64 << 32u64) - 1) as u64) == 0,
    ensures
        m == 0,
{
}

proof fn lemma_shift_step(i: u32)
    by (bit_vector)
    requires
        i < 31,
    ensures
        (1u32 << i) << 1u32 == 1u32 << ((i + 1) as u32),
{
}

proof fn lemma_shift_zero()
    by (bit_vector)
    ensures
        1u32 == 1u32 << 0u32,
{
}

/// The lowest set bit is unique.
proof fn lemma_lowest_set(mask: u32, r: int)
    requires
        0 <= r < 32,
        has_prio(mask, r),
        forall|j: int| 0 <= j < r ==> !has_prio(mask, j),
    ensures
        lowest_set(mask) == r,
{
    let l = lowest_set(mask);
    assert(0 <= l < 32 && has_prio(mask, l) && forall|j: int| 0 <= j < l ==> !has_prio(mask, j));
    if l < r {
        assert(!has_prio(mask, l));
    } else if r < l {
        assert(!has_prio(mask, r));
    }
}

/// No thread is in two of the queues.
pub open spec fn disjoint_levels(lists: Seq<LinkedList>) -> bool {
    forall|i: int, j: int, x: ListPtr|
        #![trigger lists[i]@.contains(x), lists[j]@.contains(x)]
        0 <= i < lists.len() && 0 <= j < lists.len() && i != j && lists[i]@.contains(x)
            ==> !lists[j]@.contains(x)
}

/// Changing queue `h`, and only the nodes named by `a`, `b`, `c` (none of
/// them in another queue), keeps the other queues well linked and all queues
/// disjoint, provided the new queue `h` takes no thread of another queue.
proof fn lemma_level_changed(
    lists: Seq<LinkedList>,
    pool: Seq<ListNode>,
    new_lists: Seq<LinkedList>,
    new_pool: Seq<ListNode>,
    h: int,
    a: Option<ListPtr>,
    b: Option<ListPtr>,
    c: Option<ListPtr>,
)
    requires
        lists.len() == 32,
        0 <= h < 32,
        forall|i: int| 0 <= i < 32 ==> (#[trigger] lists[i]).wf(pool),
        disjoint_levels(lists),
        new_lists.len() == 32,
        forall|i: int| 0 <= i < 32 && i != h ==> #[trigger] new_lists[i] == lists[i],
        new_lists[h].wf(new_pool),
        only_touched(pool, new_pool, a, b, c),
        forall|i: int| 0 <= i < 32 && i != h ==> !named_in(a, (#[trigger] lists[i])@),
        forall|i: int| 0 <= i < 32 && i != h ==> !named_in(b, (#[trigger] lists[i])@),
        forall|i: int| 0 <= i < 32 && i != h ==> !named_in(c, (#[trigger] lists[i])@),
        forall|x: ListPtr, i: int|
            0 <= i < 32 && i != h && #[trigger] new_lists[h]@.contains(x) ==> !(#[trigger] lists[i])@.contains(x),
    ensures
        forall|i: int| 0 <= i < 32 ==> (#[trigger] new_lists[i]).wf(new_pool),
        disjoint_levels(new_lists),
{
    assert forall|i: int| 0 <= i < 32 implies (#[trigger] new_lists[i]).wf(new_pool) by {
        if i != h {
            assert(lists[i].wf(pool));
            lemma_list_kept(pool, new_pool, lists[i]@, a, b, c);
        }
    }
    assert forall|i: int, j: int, x: ListPtr|
        0 <= i < new_lists.len() && 0 <= j < new_lists.len() && i != j && #[trigger] new_lists[i]@.contains(x)
            implies !#[trigger] new_lists[j]@.contains(x) by {
        if i == h {
            assert(new_lists[j] == lists[j]);
        } else if j == h {
            assert(new_lists[i] == lists[i]);
            if new_lists[j]@.contains(x) {
                assert(!lists[i]@.contains(x));
            }
        } else {
            assert(new_lists[i] == lists[i] && new_lists[j] == lists[j]);
        }
    }
}

/// A thread of queue `h` is in no other queue.
proof fn lemma_only_in_level(lists: Seq<LinkedList>, h: int, x: ListPtr)
    requires
        disjoint_levels(lists),
        0 <= h < lists.len(),
        lists[h]@.contains(x),
    ensures
        forall|i: int| 0 <= i < lists.len() && i != h ==> !(#[trigger] lists[i])@.contains(x),
{
    assert forall|i: int| 0 <= i < lists.len() && i != h implies !(#[trigger] lists[i])@.contains(x) by {
        assert(lists[h]@.contains(x));
    }
}

/// The preemptive priority scheduler: one queue of threads per level, and a
/// mask whose bit `i` is set when queue `i` holds a thread. The thread to run
/// is the first of the most urgent non-empty queue.
pub struct PreptivePriorityScheduler {
    list: Vec<LinkedList>,
    current: Option<ListPtr>,
    prio_mask: u32,
    status: bool,
    pool: NodePool,
}

impl PreptivePriorityScheduler {
    /// The queue of level `i`.
    pub closed spec fn queue(&self, i: int) -> Seq<ListPtr> {
        self.list@[i]@
    }

    /// The mask of non-empty levels.
    pub closed spec fn mask(&self) -> u32 {
        self.prio_mask
    }

    /// The running thread, once the scheduler runs.
    pub closed spec fn current(&self) -> Option<ListPtr> {
        self.current
    }

    /// Whether the scheduler runs.
    pub closed spec fn running(&self) -> bool {
        self.status
    }

    /// The links of the thread nodes.
    pub closed spec fn nodes(&self) -> Seq<ListNode> {
        self.pool@
    }

    /// `thread` is in some queue.
    pub open spec fn queued(&self, thread: ListPtr) -> bool {
        exists|i: int| 0 <= i < 32 && #[trigger] self.queue(i).contains(thread)
    }

    /// Every queue is well linked, no thread is in two queues, the mask tells
    /// exactly which queues are non-empty, and a running scheduler has a
    /// current thread.
    pub closed spec fn inv(&self) -> bool {
        &&& self.list@.len() == 32
        &&& forall|i: int| 0 <= i < 32 ==> (#[trigger] self.list@[i]).wf(self.pool@)
        &&& disjoint_levels(self.list@)
        &&& forall|i: int| 0 <= i < 32 ==> (has_prio(self.prio_mask, i) <==> (#[trigger] self.list@[i])@.len() > 0)
        &&& self.status ==> self.current.is_some()
    }

    /// A scheduler with empty queues and no thread node.
    pub fn new() -> (s: PreptivePriorityScheduler)
        ensures
            s.inv(),
            forall|i: int| 0 <= i < 32 ==> #[trigger] s.queue(i) == Seq::<ListPtr>::empty(),
            s.mask() == 0,
            s.current() == None::<ListPtr>,
            !s.running(),
            s.nodes() == Seq::<ListNode>::empty(),
    {
        let mut list: Vec<LinkedList> = Vec::new();
        let mut k: usize = 0;
        while k < PRIORITY_NUMBER
            invariant
                k <= 32,
                list@.len() == k,
                forall|i: int| 0 <= i < k ==> (#[trigger] list@[i])@ == Seq::<ListPtr>::empty(),
            decreases 32 - k,
        {
            list.push(LinkedList::new());
            k = k + 1;
        }
        let s = PreptivePriorityScheduler {
            list,
            current: None,
            prio_mask: 0,
            status: false,
            pool: NodePool { nodes: Vec::new() },
        };
        proof {
            assert(disjoint_levels(s.list@));
            assert forall|i: int| 0 <= i < 32 implies (has_prio(s.prio_mask, i) <==> (#[trigger] s.list@[i])@.len() > 0) by {
                assert(0u32 & (1u32 << (i as u32)) == 0) by (bit_vector);
            }
        }
        s
    }

    /// Adds a thread node with no neighbour and returns it.
    pub fn register(&mut self) -> (p: ListPtr)
        requires
            old(self).inv(),
            old(self).nodes().len() < usize::MAX,
        ensures
            final(self).inv(),
            p.0 == old(self).nodes().len(),
            final(self).nodes() == old(self).nodes().push(unlinked()),
            forall|i: int| 0 <= i < 32 ==> #[trigger] final(self).queue(i) == old(self).queue(i),
            final(self).mask() == old(self).mask(),
            final(self).current() == old(self).current(),
            final(self).running() == old(self).running(),
    {
        let p = ListPtr(self.pool.nodes.len());
        self.pool.nodes.push(ListNode::new());
        proof {
            assert forall|i: int| 0 <= i < 32 implies (#[trigger] self.list@[i]).wf(self.pool@) by {
                let s = self.list@[i]@;
                assert(old(self).list@[i].wf(old(self).pool@));
                assert forall|k: int| 0 <= k < s.len() implies #[trigger] linked_at(self.pool@, s, k) by {
                    assert(linked_at(old(self).pool@, s, k));
                }
            }
        }
        p
    }

    /// The mask of non-empty levels.
    pub fn prio_mask(&self) -> (r: u32)
        ensures
            r == self.mask(),
    {
        self.prio_mask
    }

    /// The running thread, once the scheduler runs.
    pub fn current_thread(&self) -> (r: Option<ListPtr>)
        ensures
            r == self.current(),
    {
        self.current
    }

    /// Whether the scheduler runs.
    pub fn status(&self) -> (r: bool)
        ensures
            r == self.running(),
    {
        self.status
    }

    /// The number of thread nodes.
    pub fn len(&self) -> (r: usize)
        ensures
            r == self.nodes().len(),
    {
        self.pool.len()
    }

    /// The links of the node `p`.
    pub fn node(&self, p: ListPtr) -> (n: ListNode)
        requires
            p.0 < self.nodes().len(),
        ensures
            n == self.nodes()[p.0 as int],
    {
        self.pool.node(p)
    }

    /// Starts scheduling: the first thread of the most urgent non-empty queue
    /// becomes current and is returned, for the caller to switch to.
    pub fn run(&mut self) -> (r: ListPtr)
        requires
            old(self).inv(),
            old(self).mask() != 0,
        ensures
            final(self).inv(),
            r == old(self).queue(lowest_set(old(self).mask()))[0],
            final(self).current() == Some(r),
            final(self).running(),
            forall|i: int| 0 <= i < 32 ==> #[trigger] final(self).queue(i) == old(self).queue(i),
            final(self).mask() == old(self).mask(),
            final(self).nodes() == old(self).nodes(),
    {
        let prio = self.hightest_priority() as usize;
        proof {
            assert(self.list@[prio as int]@.len() > 0);
        }
        let ptr = self.list[prio].head().unwrap();
        self.status = true;
        self.current = Some(ptr);
        ptr
    }

    /// Moves the first thread of the most urgent non-empty queue to the back
    /// of that queue and makes it current. Returns the pair (current, next)
    /// to switch between, or nothing when the current thread goes on.
    pub fn schedule(&mut self) -> (r: Option<(ListPtr, ListPtr)>)
        requires
            old(self).inv(),
            old(self).mask() != 0,
            old(self).current().is_some(),
        ensures
            final(self).inv(),
            ({
                let h = lowest_set(old(self).mask());
                let q = old(self).queue(h);
                let curr = old(self).current().unwrap();
                &&& final(self).queue(h) == rotate(q)
                &&& forall|i: int| 0 <= i < 32 && i != h ==> #[trigger] final(self).queue(i) == old(self).queue(i)
                &&& final(self).current() == Some(q[0])
                &&& r == (if curr != q[0] { Some((curr, q[0])) } else { None::<(ListPtr, ListPtr)> })
            }),
            final(self).mask() == old(self).mask(),
            final(self).running() == old(self).running(),
            final(self).nodes().len() == old(self).nodes().len(),
    {
        let h = self.hightest_priority() as usize;
        let ghost lists0 = self.list@;
        let ghost pool0 = self.pool@;
        let ghost q = self.list@[h as int]@;
        proof {
            assert(q.len() > 0);
            assert(self.list@[h as int].wf(self.pool@));
        }
        let next = self.list[h].pop_front(&mut self.pool).unwrap();
        let curr = self.current.unwrap();
        proof {
            assert(q[0] == next);
            if q.len() > 1 {
                assert(q.contains(q[1]));
                lemma_only_in_level(lists0, h as int, q[1]);
            }
            assert(q.contains(q[0]));
            lemma_only_in_level(lists0, h as int, q[0]);
            assert forall|x: ListPtr, i: int|
                0 <= i < 32 && i != h && #[trigger] self.list@[h as int]@.contains(x) implies !(#[trigger] lists0[i])@.contains(x) by {
                let k = choose|k: int| 0 <= k < self.list@[h as int]@.len() && self.list@[h as int]@[k] == x;
                assert(q[k + 1] == x);
                assert(q.contains(x));
                lemma_only_in_level(lists0, h as int, x);
            }
            lemma_level_changed(lists0, pool0, self.list@, self.pool@, h as int, first_of(q), next_in(q, 0), None);
        }
        let ghost lists1 = self.list@;
        let ghost pool1 = self.pool@;
        proof {
            assert(self.list@[h as int].wf(self.pool@));
            assert(!self.list@[h as int]@.contains(next)) by {
                if self.list@[h as int]@.contains(next) {
                    let k = choose|k: int| 0 <= k < self.list@[h as int]@.len() && self.list@[h as int]@[k] == next;
                    assert(q[k + 1] == next);
                    lemma_position_unique(q, 0, k + 1);
                }
            }
            assert(linked_at(pool0, q, 0));
        }
        self.list[h].push_back(&mut self.pool, next);
        proof {
            lemma_only_in_level(lists0, h as int, next);
            assert forall|x: ListPtr, i: int|
                0 <= i < 32 && i != h && #[trigger] self.list@[h as int]@.contains(x) implies !(#[trigger] lists1[i])@.contains(x) by {
                let k = choose|k: int| 0 <= k < self.list@[h as int]@.len() && self.list@[h as int]@[k] == x;
                if k < q.len() - 1 {
                    assert(q[k + 1] == x);
                    assert(q.contains(x));
                } else {
                    assert(x == next);
                }
                lemma_only_in_level(lists0, h as int, x);
                assert(lists1[i] == lists0[i]);
            }
            if q.len() > 1 {
                assert(lists1[h as int]@[q.len() - 2] == q[q.len() - 1]);
                assert(q.contains(q[q.len() - 1]));
                lemma_only_in_level(lists0, h as int, q[q.len() - 1]);
            }
            assert forall|i: int| 0 <= i < 32 && i != h implies !named_in(last_of(lists1[h as int]@), (#[trigger] lists1[i])@) by {
                assert(lists1[i] == lists0[i]);
            }
            assert forall|i: int| 0 <= i < 32 && i != h implies !named_in(Some(next), (#[trigger] lists1[i])@) by {
                assert(lists1[i] == lists0[i]);
            }
            lemma_level_changed(lists1, pool1, self.list@, self.pool@, h as int, Some(next), last_of(lists1[h as int]@), None);
            assert(self.list@[h as int]@ =~= rotate(q));
            assert forall|i: int| 0 <= i < 32 implies (has_prio(self.prio_mask, i) <==> (#[trigger] self.list@[i])@.len() > 0) by {
                if i != h {
                    assert(self.list@[i] == lists0[i]);
                }
            }
        }
        if curr != next {
            self.current = Some(next);
            Some((curr, next))
        } else {
            None
        }
    }

    /// What adding thread `ptr`, of priority `p`, does: it goes last in the
    /// queue of `p` and the level is marked non-empty; a running scheduler
    /// then reschedules, and `r` is the pair to switch between, if any.
    pub open spec fn after_add(self, post: Self, p: int, ptr: ListPtr, r: Option<(ListPtr, ListPtr)>) -> bool {
        let added = self.queue(p).push(ptr);
        &&& post.mask() == self.mask() | (1u32 << (p as u32))
        &&& post.running() == self.running()
        &&& post.nodes().len() == self.nodes().len()
        &&& !self.running() ==> {
            &&& post.queue(p) == added
            &&& forall|i: int| 0 <= i < 32 && i != p ==> #[trigger] post.queue(i) == self.queue(i)
            &&& post.current() == self.current()
            &&& r is None
        }
        &&& self.running() ==> {
            let h = lowest_set(post.mask());
            let qh = if h == p { added } else { self.queue(h) };
            let curr = self.current().unwrap();
            &&& post.queue(h) == rotate(qh)
            &&& forall|i: int| 0 <= i < 32 && i != h ==> #[trigger] post.queue(i) == (if i == p { added } else { self.queue(i) })
            &&& post.current() == Some(qh[0])
            &&& r == (if curr != qh[0] { Some((curr, qh[0])) } else { None::<(ListPtr, ListPtr)> })
        }
    }

    /// Adding a thread puts it at the back of its level, behind the threads
    /// already waiting there, whether or not the scheduler runs, and marks the
    /// level non-empty. When the scheduler runs and that level is the most
    /// urgent one, the reschedule picks the level's old first thread (the
    /// newcomer only when the level was empty), which then goes last; other
    /// levels stay as they were. So threads of equal priority run in the
    /// order they were added.
    pub proof fn lemma_add_queues_at_back(
        s: PreptivePriorityScheduler,
        post: PreptivePriorityScheduler,
        p: int,
        ptr: ListPtr,
        r: Option<(ListPtr, ListPtr)>,
    )
        requires
            0 <= p < 32,
            s.after_add(post, p, ptr, r),
        ensures
            has_prio(post.mask(), p),
            !s.running() ==> {
                &&& post.queue(p) == s.queue(p).push(ptr)
                &&& r is None
                &&& post.current() == s.current()
            },
            s.running() && lowest_set(post.mask()) != p ==> post.queue(p) == s.queue(p).push(ptr),
            s.running() && lowest_set(post.mask()) == p && s.queue(p).len() == 0 ==> {
                &&& post.queue(p) == seq![ptr]
                &&& post.current() == Some(ptr)
            },
            s.running() && lowest_set(post.mask()) == p && s.queue(p).len() > 0 ==> {
                &&& post.queue(p) == s.queue(p).drop_first().push(ptr).push(s.queue(p)[0])
                &&& post.current() == Some(s.queue(p)[0])
                &&& r == (if s.current().unwrap() != s.queue(p)[0] {
                    Some((s.current().unwrap(), s.queue(p)[0]))
                } else {
                    None::<(ListPtr, ListPtr)>
                })
            },
            forall|i: int| 0 <= i < 32 && i != p && (!s.running() || i != lowest_set(post.mask()))
                ==> #[trigger] post.queue(i) == s.queue(i),
    {
        let m = s.mask();
        let pp = p as u32;
        assert((m | (1u32 << pp)) & (1u32 << pp) != 0) by (bit_vector)
            requires pp < 32;
        let q = s.queue(p);
        let a = q.push(ptr);
        if s.running() && lowest_set(post.mask()) == p {
            if q.len() == 0 {
                assert(a.drop_first().push(a[0]) =~= seq![ptr]);
            } else {
                assert(a[0] == q[0]);
                assert(a.drop_first() =~= q.drop_first().push(ptr));
            }
        }
    }

    /// Queues `ptr` at the back of the queue of its thread's priority and
    /// marks that level non-empty; a running scheduler then reschedules, and
    /// the pair to switch between, if any, is returned.
    pub fn add(&mut self, threads: &Vec<Thread>, ptr: ListPtr) -> (r: Option<(ListPtr, ListPtr)>)
        requires
            old(self).inv(),
            ptr.0 < threads@.len(),
            threads@[ptr.0 as int].prio < 32,
            ptr.0 < old(self).nodes().len(),
            !old(self).queued(ptr),
            old(self).queue(threads@[ptr.0 as int].prio as int).len() == 0 ==> old(self).nodes()[ptr.0 as int]
                == unlinked(),
        ensures
            final(self).inv(),
            old(self).after_add(*final(self), threads@[ptr.0 as int].prio as int, ptr, r),
    {
        let prio = Thread::from_ptr(threads, &ptr).prio as usize;
        let ghost lists0 = self.list@;
        let ghost pool0 = self.pool@;
        let ghost q = self.list@[prio as int]@;
        proof {
            assert(self.list@[prio as int].wf(self.pool@));
            if q.contains(ptr) {
                assert(old(self).queue(prio as int).contains(ptr));
            }
        }
        self.list[prio].push_back(&mut self.pool, ptr);
        proof {
            if q.len() > 0 {
                assert(q.contains(q[q.len() - 1]));
                lemma_only_in_level(lists0, prio as int, q[q.len() - 1]);
            }
            assert forall|i: int| 0 <= i < 32 && i != prio implies !named_in(last_of(q), (#[trigger] lists0[i])@) by {}
            assert forall|i: int| 0 <= i < 32 && i != prio implies !named_in(Some(ptr), (#[trigger] lists0[i])@) by {
                assert(!self.queue(i).contains(ptr) || true);
                if lists0[i]@.contains(ptr) {
                    assert(old(self).queue(i).contains(ptr));
                }
            }
            assert forall|x: ListPtr, i: int|
                0 <= i < 32 && i != prio && #[trigger] self.list@[prio as int]@.contains(x) implies !(#[trigger] lists0[i])@.contains(x) by {
                let k = choose|k: int| 0 <= k < self.list@[prio as int]@.len() && self.list@[prio as int]@[k] == x;
                if k < q.len() {
                    assert(q[k] == x);
                    assert(q.contains(x));
                    lemma_only_in_level(lists0, prio as int, x);
                } else {
                    assert(x == ptr);
                    if lists0[i]@.contains(ptr) {
                        assert(old(self).queue(i).contains(ptr));
                    }
                }
            }
            lemma_level_changed(lists0, pool0, self.list@, self.pool@, prio as int, Some(ptr), last_of(q), None);
        }
        let ghost m0 = self.prio_mask;
        self.prio_mask = self.prio_mask | (1u32 << (prio as u32));
        proof {
            assert forall|i: int| 0 <= i < 32 implies (has_prio(self.prio_mask, i) <==> (#[trigger] self.list@[i])@.len() > 0) by {
                lemma_set_bit(m0, prio as u32, i as u32);
                if i != prio {
                    assert(self.list@[i] == lists0[i]);
                }
            }
            lemma_set_bit(m0, prio as u32, prio as u32);
            let m1 = self.prio_mask;
            let pp = prio as u32;
            assert(m1 & (1u32 << pp) != 0 ==> m1 != 0) by (bit_vector);
        }
        let ghost mid = *self;
        if self.status {
            let r = self.schedule();
            proof {
                let h = lowest_set(mid.prio_mask);
                assert forall|i: int| 0 <= i < 32 implies #[trigger] mid.queue(i) == (if i == prio { old(self).queue(prio as int).push(ptr) } else { old(self).queue(i) }) by {
                    if i != prio {
                        assert(mid.list@[i] == lists0[i]);
                    }
                }
                assert(mid.queue(h) == (if h == prio { old(self).queue(prio as int).push(ptr) } else { old(self).queue(h) }));
            }
            r
        } else {
            proof {
                assert forall|i: int| 0 <= i < 32 && i != prio implies #[trigger] self.queue(i) == old(self).queue(i) by {
                    assert(self.list@[i] == lists0[i]);
                }
            }
            None
        }
    }

    /// Sets up thread `i` (whose scheduler node is its own slot `i`) with a
    /// name, priority and stack, as `Thread::init` does, and queues it as
    /// `add` does. Returns the stack pointer, the frame the thread starts
    /// from (it belongs at that stack pointer), and the pair to switch
    /// between, if any.
    pub fn spawn(
        &mut self,
        threads: &mut Vec<Thread>,
        i: usize,
        name: &str,
        prio: u8,
        entry: usize,
        stack_start: usize,
        stack_size: usize,
    ) -> (r: (usize, StackFrame, Option<(ListPtr, ListPtr)>))
        requires
            old(self).inv(),
            i < old(threads)@.len(),
            old(threads)@[i as int].node.0 == i,
            i < old(self).nodes().len(),
            prio < 32,
            !old(self).queued(old(threads)@[i as int].node),
            old(self).queue(prio as int).len() == 0 ==> old(self).nodes()[i as int] == unlinked(),
            name.spec_bytes().len() <= THREAD_NAME_LEN,
            stack_start + stack_size <= usize::MAX,
            stack_start + stack_size >= vstd::layout::size_of::<StackFrame>(),
        ensures
            final(self).inv(),
            final(threads)@.len() == old(threads)@.len(),
            forall|k: int| 0 <= k < old(threads)@.len() && k != i ==> #[trigger] final(threads)@[k] == old(threads)@[k],
            ({
                let t0 = old(threads)@[i as int];
                let t = final(threads)@[i as int];
                &&& forall|k: int| 0 <= k < name.spec_bytes().len() ==> t.name[k] == name.spec_bytes()[k]
                &&& forall|k: int| name.spec_bytes().len() <= k < 10 ==> t.name[k] == t0.name[k]
                &&& t.prio == prio
                &&& t.stack_start == stack_start
                &&& t.stack_size == stack_size
                &&& t.sp == stack_start + stack_size - vstd::layout::size_of::<StackFrame>()
                &&& t.node == t0.node
                &&& t.timer == t0.timer
                &&& t.status == t0.status
                &&& r.0 == t.sp
                &&& is_start_frame(r.1, t0.node, entry)
                &&& old(self).after_add(*final(self), prio as int, t0.node, r.2)
            }),
    {
        let node = threads[i].node;
        let mut t = threads[i];
        let (sp, frame) = t.init(name, prio, entry, stack_start, stack_size);
        threads.set(i, t);
        let switch = self.add(threads, node);
        (sp, frame, switch)
    }

    /// Unlinks `ptr` from the queue of its thread's priority, and marks the
    /// level empty when the queue has become empty.
    pub fn detach(&mut self, threads: &Vec<Thread>, ptr: ListPtr)
        requires
            old(self).inv(),
            ptr.0 < threads@.len(),
            threads@[ptr.0 as int].prio < 32,
            old(self).queue(threads@[ptr.0 as int].prio as int).contains(ptr) || (ptr.0 < old(self).nodes().len()
                && old(self).nodes()[ptr.0 as int] == unlinked()),
        ensures
            final(self).inv(),
            !old(self).queue(threads@[ptr.0 as int].prio as int).contains(ptr) ==> {
                &&& forall|i: int| 0 <= i < 32 ==> #[trigger] final(self).queue(i) == old(self).queue(i)
                &&& final(self).mask() == old(self).mask()
            },
            old(self).queue(threads@[ptr.0 as int].prio as int).contains(ptr) ==> ({
                let p = threads@[ptr.0 as int].prio as int;
                let q = old(self).queue(p);
                &&& final(self).queue(p) == q.remove(position_of(q, ptr))
                &&& forall|i: int| 0 <= i < 32 && i != p ==> #[trigger] final(self).queue(i) == old(self).queue(i)
                &&& final(self).mask() == (if final(self).queue(p).len() == 0 {
                    old(self).mask() & !(1u32 << (p as u32))
                } else {
                    old(self).mask()
                })
            }),
            final(self).current() == old(self).current(),
            final(self).running() == old(self).running(),
            final(self).nodes().len() == old(self).nodes().len(),
    {
        let prio = Thread::from_ptr(threads, &ptr).prio as usize;
        let ghost lists0 = self.list@;
        let ghost pool0 = self.pool@;
        let ghost q = self.list@[prio as int]@;
        let ghost k = position_of(q, ptr);
        proof {
            assert(self.list@[prio as int].wf(self.pool@));
        }
        if !self.list[prio].is_head(ptr) && ptr.0 < self.pool.len() && self.pool.node(ptr) == ListNode::new() {
            proof {
                if q.contains(ptr) {
                    let m = choose|m: int| 0 <= m < q.len() && q[m] == ptr;
                    assert(linked_at(self.pool@, q, m));
                    assert(m > 0);
                }
            }
            return;
        }
        proof {
            if !q.contains(ptr) {
                assert(self.pool@[ptr.0 as int] == unlinked());
            }
        }
        self.list[prio].detach(&mut self.pool, ptr);
        proof {
            q.remove_ensures(k);
            assert(q.contains(ptr));
            lemma_only_in_level(lists0, prio as int, ptr);
            if k > 0 {
                assert(q.contains(q[k - 1]));
                lemma_only_in_level(lists0, prio as int, q[k - 1]);
            }
            if k + 1 < q.len() {
                assert(q.contains(q[k + 1]));
                lemma_only_in_level(lists0, prio as int, q[k + 1]);
            }
            assert forall|i: int| 0 <= i < 32 && i != prio implies !named_in(prev_in(q, k), (#[trigger] lists0[i])@) by {}
            assert forall|i: int| 0 <= i < 32 && i != prio implies !named_in(next_in(q, k), (#[trigger] lists0[i])@) by {}
            assert forall|i: int| 0 <= i < 32 && i != prio implies !named_in(Some(ptr), (#[trigger] lists0[i])@) by {}
            assert forall|x: ListPtr, i: int|
                0 <= i < 32 && i != prio && #[trigger] self.list@[prio as int]@.contains(x) implies !(#[trigger] lists0[i])@.contains(x) by {
                let j = choose|j: int| 0 <= j < self.list@[prio as int]@.len() && self.list@[prio as int]@[j] == x;
                let jj = if j < k { j } else { j + 1 };
                assert(q[jj] == x);
                assert(q.contains(x));
                lemma_only_in_level(lists0, prio as int, x);
            }
            lemma_level_changed(lists0, pool0, self.list@, self.pool@, prio as int, Some(ptr), prev_in(q, k), next_in(q, k));
        }
        let ghost m0 = self.prio_mask;
        if self.list[prio].is_empty() {
            self.prio_mask = self.prio_mask & !(1u32 << (prio as u32));
            proof {
                assert forall|i: int| 0 <= i < 32 implies (has_prio(self.prio_mask, i) <==> (#[trigger] self.list@[i])@.len() > 0) by {
                    lemma_clear_bit(m0, prio as u32, i as u32);
                    if i != prio {
                        assert(self.list@[i] == lists0[i]);
                    }
                }
            }
        } else {
            proof {
                assert forall|i: int| 0 <= i < 32 implies (has_prio(self.prio_mask, i) <==> (#[trigger] self.list@[i])@.len() > 0) by {
                    if i != prio {
                        assert(self.list@[i] == lists0[i]);
                    }
                }
            }
        }
        proof {
            assert forall|i: int| 0 <= i < 32 && i != prio implies #[trigger] self.queue(i) == old(self).queue(i) by {
                assert(self.list@[i] == lists0[i]);
            }
        }
    }

    /// The threads of every level, most urgent level first, each queue from
    /// the thread that runs next (what the scheduler's listing shows).
    pub fn queues(&self) -> (r: Vec<Vec<ListPtr>>)
        requires
            self.inv(),
        ensures
            r@.len() == 32,
            forall|i: int| 0 <= i < 32 ==> (#[trigger] r@[i])@ == self.queue(i),
    {
        let mut r: Vec<Vec<ListPtr>> = Vec::new();
        let mut prio: usize = 0;
        while prio < PRIORITY_NUMBER
            invariant
                self.inv(),
                prio <= 32,
                r@.len() == prio,
                forall|i: int| 0 <= i < prio ==> (#[trigger] r@[i])@ == self.queue(i),
            decreases 32 - prio,
        {
            proof {
                assert(self.list@[prio as int].wf(self.pool@));
            }
            r.push(self.list[prio].to_vec(&self.pool));
            prio = prio + 1;
        }
        r
    }

    /// What every operation keeps: bit `i` of the mask is set exactly when
    /// queue `i` holds a thread, a thread waits at most once in one queue,
    /// and a running scheduler has a current thread.
    pub proof fn lemma_consistent(s: &PreptivePriorityScheduler)
        requires
            s.inv(),
        ensures
            forall|i: int| 0 <= i < 32 ==> (has_prio(s.mask(), i) <==> #[trigger] s.queue(i).len() > 0),
            forall|i: int| 0 <= i < 32 ==> #[trigger] s.queue(i).no_duplicates(),
            forall|i: int, j: int, x: ListPtr|
                0 <= i < 32 && 0 <= j < 32 && i != j && #[trigger] s.queue(i).contains(x)
                    ==> !#[trigger] s.queue(j).contains(x),
            s.running() ==> s.current().is_some(),
    {
        assert forall|i: int| 0 <= i < 32 implies #[trigger] s.queue(i).no_duplicates() by {
            assert(s.list@[i].wf(s.pool@));
        }
        assert forall|i: int, j: int, x: ListPtr|
            0 <= i < 32 && 0 <= j < 32 && i != j && #[trigger] s.queue(i).contains(x)
                implies !#[trigger] s.queue(j).contains(x) by {
            assert(s.list@[i]@.contains(x));
        }
    }

    /// The most urgent level whose bit is set in the mask.
    fn hightest_priority(&self) -> (r: u8)
        requires
            self.prio_mask != 0,
        ensures
            r < 32,
            r == lowest_set(self.prio_mask),
            has_prio(self.prio_mask, r as int),
            forall|j: int| 0 <= j < r ==> !has_prio(self.prio_mask, j),
    {
        let mut mask: u32 = 1;
        let mut i: usize = 0;
        proof {
            lemma_low_zero(self.prio_mask);
            lemma_shift_zero();
        }
        while i < PRIORITY_NUMBER
            invariant
                i <= 32,
                self.prio_mask != 0,
                i < 32 ==> mask == 1u32 << (i as u32),
                forall|j: int| 0 <= j < i ==> !has_prio(self.prio_mask, j),
                (self.prio_mask as u64) & (((1u64 << (i as u64)) - 1) as u64) == 0,
            decreases 32 - i,
        {
            if mask & self.prio_mask != 0 {
                proof {
                    let m = self.prio_mask;
                    let ii = i as u32;
                    assert(mask & m == m & mask) by (bit_vector);
                    lemma_lowest_set(m, i as int);
                }
                return i as u8;
            }
            proof {
                let m = self.prio_mask;
                let ii = i as u32;
                assert(mask & m == m & mask) by (bit_vector);
                lemma_low_step(m, ii);
                if i < 31 {
                    lemma_shift_step(ii);
                }
            }
            mask = mask << 1u32;
            i = i + 1;
        }
        proof {
            lemma_low_all(self.prio_mask);
        }
        0
    }
}


/// Detaching a thread just added to a scheduler that does not run yet
/// undoes the add: the queue of its level (`q` before, `added` after the
/// add) and the mask (`mask` before) come back as they were.
pub proof fn lemma_add_then_detach(q: Seq<ListPtr>, ptr: ListPtr, mask: u32, p: int)
    requires
        0 <= p < 32,
        !q.contains(ptr),
        has_prio(mask, p) <==> q.len() > 0,
    ensures
        ({
            let added = q.push(ptr);
            let detached = added.remove(position_of(added, ptr));
            let m1 = mask | (1u32 << (p as u32));
            &&& detached == q
            &&& (if detached.len() == 0 { m1 & !(1u32 << (p as u32)) } else { m1 }) == mask
        }),
{
    crate::list::lemma_push_back_then_detach(q, ptr);
    let pp = p as u32;
    if q.len() == 0 {
        assert(mask & (1u32 << pp) == 0 ==> (mask | (1u32 << pp)) & !(1u32 << pp) == mask) by (bit_vector);
    } else {
        assert(mask & (1u32 << pp) != 0 ==> mask | (1u32 << pp) == mask) by (bit_vector);
    }
}

/// `s` turned so that position `m` comes first.
pub open spec fn rotate_by(s: Seq<ListPtr>, m: int) -> Seq<ListPtr> {
    s.subrange(m, s.len() as int) + s.subrange(0, m)
}

/// `m` is the first position of `s` whose thread is ready.
pub open spec fn first_ready(threads: Seq<Thread>, s: Seq<ListPtr>, m: int) -> bool {
    &&& 0 <= m < s.len()
    &&& threads[s[m].0 as int].status == ThreadStatus::Ready
    &&& forall|j: int| 0 <= j < m ==> #[trigger] threads[s[j].0 as int].status != ThreadStatus::Ready
}

proof fn lemma_rotate_step(s: Seq<ListPtr>, m: int)
    requires
        0 <= m < s.len(),
    ensures
        rotate(rotate_by(s, m)) =~= rotate_by(s, m + 1),
        rotate_by(s, m).len() == s.len(),
        rotate_by(s, m)[0] == s[m],
        m + 1 < s.len() ==> rotate_by(s, m)[1] == s[m + 1],
{
    let r = rotate_by(s, m);
    assert(r[0] == s[m]);
    assert forall|i: int| 0 <= i < s.len() implies #[trigger] rotate(r)[i] == rotate_by(s, m + 1)[i] by {
        if i < s.len() - 1 {
            assert(rotate(r)[i] == r[i + 1]);
        }
    }
}

proof fn lemma_rotate_zero(s: Seq<ListPtr>)
    ensures
        rotate_by(s, 0) =~= s,
{
}

/// The threads of `s` that are ready, in order.
pub open spec fn ready_in(threads: Seq<Thread>, s: Seq<ListPtr>) -> Seq<ListPtr>
    decreases s.len(),
{
    if s.len() == 0 {
        Seq::empty()
    } else {
        let r = ready_in(threads, s.drop_last());
        if threads[s.last().0 as int].status == ThreadStatus::Ready {
            r.push(s.last())
        } else {
            r
        }
    }
}

/// The operations of a scheduler of threads.
pub trait Scheduler {
    /// The scheduler is consistent.
    spec fn ready(&self) -> bool;

    /// `thread` may be queued.
    spec fn can_push(&self, thread: ListPtr) -> bool;

    /// `thread` may be detached.
    spec fn holds(&self, thread: ListPtr) -> bool;

    /// There is a thread to run.
    spec fn can_run(&self) -> bool;

    /// Rescheduling over `threads` will find a ready thread.
    spec fn can_schedule(&self, threads: Seq<Thread>) -> bool;

    /// The thread to switch to when scheduling starts.
    fn run(&self) -> (r: ListPtr)
        requires
            self.ready(),
            self.can_run(),
    ;

    /// Queues `thread`.
    fn push(&mut self, thread: ListPtr)
        requires
            old(self).ready(),
            old(self).can_push(thread),
        ensures
            final(self).ready(),
    ;

    /// Takes the first thread off the queue.
    fn pop(&mut self) -> (r: Option<ListPtr>)
        requires
            old(self).ready(),
        ensures
            final(self).ready(),
    ;

    /// Takes `node` off the queue.
    fn detach(&mut self, node: ListPtr)
        requires
            old(self).ready(),
            old(self).holds(node),
        ensures
            final(self).ready(),
    ;

    /// Picks the next thread; returns the pair to switch between, if any.
    fn schedule(&mut self, threads: &Vec<Thread>) -> (r: Option<(ListPtr, ListPtr)>)
        requires
            old(self).ready(),
            old(self).can_schedule(threads@),
        ensures
            final(self).ready(),
    ;
}

/// The round robin scheduler: one queue; rescheduling moves threads from the
/// front to the back until a ready one is first.
pub struct RoundRobinScheduler {
    list: LinkedList,
    pool: NodePool,
}

impl RoundRobinScheduler {
    /// The queue, from the thread that runs next.
    pub closed spec fn queue(&self) -> Seq<ListPtr> {
        self.list@
    }

    /// The links of the thread nodes.
    pub closed spec fn nodes(&self) -> Seq<ListNode> {
        self.pool@
    }

    /// An empty scheduler with no thread node.
    pub fn new() -> (s: RoundRobinScheduler)
        ensures
            s.ready(),
            s.queue() == Seq::<ListPtr>::empty(),
            s.nodes() == Seq::<ListNode>::empty(),
    {
        RoundRobinScheduler { list: LinkedList::new(), pool: NodePool { nodes: Vec::new() } }
    }

    /// The number of thread nodes.
    pub fn len(&self) -> (r: usize)
        ensures
            r == self.nodes().len(),
    {
        self.pool.len()
    }

    /// The queued threads that are ready, in queue order, and the number of
    /// queued threads (what the scheduler's listing shows).
    pub fn listing(&self, threads: &Vec<Thread>) -> (r: (Vec<ListPtr>, usize))
        requires
            self.ready(),
            threads@.len() >= self.nodes().len(),
        ensures
            r.0@ == ready_in(threads@, self.queue()),
            r.1 == self.queue().len(),
    {
        let all = self.list.to_vec(&self.pool);
        proof {
            assert forall|i: int| 0 <= i < all@.len() implies (#[trigger] all@[i]).0 < threads@.len() by {
                assert(linked_at(self.pool@, self.list@, i));
            }
        }
        let mut r: Vec<ListPtr> = Vec::new();
        let mut k: usize = 0;
        while k < all.len()
            invariant
                all@ == self.queue(),
                forall|i: int| 0 <= i < all@.len() ==> (#[trigger] all@[i]).0 < threads@.len(),
                k <= all@.len(),
                r@ == ready_in(threads@, all@.subrange(0, k as int)),
            decreases all@.len() - k,
        {
            let p = all[k];
            proof {
                assert(all@.subrange(0, k + 1).drop_last() =~= all@.subrange(0, k as int));
            }
            if Thread::from_ptr(threads, &p).status == ThreadStatus::Ready {
                r.push(p);
            }
            k = k + 1;
        }
        proof {
            assert(all@.subrange(0, all@.len() as int) =~= all@);
        }
        (r, all.len())
    }

    /// Adds a thread node with no neighbour and returns it.
    pub fn register(&mut self) -> (p: ListPtr)
        requires
            old(self).ready(),
            old(self).nodes().len() < usize::MAX,
        ensures
            final(self).ready(),
            p.0 == old(self).nodes().len(),
            final(self).nodes() == old(self).nodes().push(unlinked()),
            final(self).queue() == old(self).queue(),
    {
        let p = ListPtr(self.pool.nodes.len());
        self.pool.nodes.push(ListNode::new());
        proof {
            let s = self.list@;
            assert forall|k: int| 0 <= k < s.len() implies #[trigger] linked_at(self.pool@, s, k) by {
                assert(linked_at(old(self).pool@, s, k));
            }
        }
        p
    }
}

impl Scheduler for RoundRobinScheduler {
    closed spec fn ready(&self) -> bool {
        self.list.wf(self.pool@)
    }

    open spec fn can_push(&self, thread: ListPtr) -> bool {
        &&& thread.0 < self.nodes().len()
        &&& !self.queue().contains(thread)
        &&& self.queue().len() == 0 ==> self.nodes()[thread.0 as int] == unlinked()
    }

    open spec fn holds(&self, thread: ListPtr) -> bool {
        ||| self.queue().len() == 0
        ||| self.queue().contains(thread)
        ||| (thread.0 < self.nodes().len() && self.nodes()[thread.0 as int] == unlinked())
    }

    open spec fn can_run(&self) -> bool {
        self.queue().len() > 0
    }

    open spec fn can_schedule(&self, threads: Seq<Thread>) -> bool {
        &&& self.queue().len() > 0
        &&& forall|i: int| 0 <= i < self.queue().len() ==> (#[trigger] self.queue()[i]).0 < threads.len()
        &&& exists|i: int|
            0 <= i < self.queue().len() && #[trigger] threads[self.queue()[i].0 as int].status
                == ThreadStatus::Ready
    }

    /// The first thread of the queue.
    fn run(&self) -> (r: ListPtr)
        ensures
            r == self.queue()[0],
    {
        self.list.head().unwrap()
    }

    /// Queues `thread` at the back.
    fn push(&mut self, thread: ListPtr)
        ensures
            final(self).queue() == old(self).queue().push(thread),
    {
        self.list.push_back(&mut self.pool, thread);
    }

    /// Takes the first thread off; it is left with no neighbour.
    fn pop(&mut self) -> (r: Option<ListPtr>)
        ensures
            r == first_of(old(self).queue()),
            final(self).queue() == (if old(self).queue().len() == 0 {
                old(self).queue()
            } else {
                old(self).queue().drop_first()
            }),
            r matches Some(h) ==> final(self).nodes()[h.0 as int] == unlinked(),
            final(self).nodes().len() == old(self).nodes().len(),
    {
        self.list.pop_front(&mut self.pool)
    }

    /// Takes `node` off the queue; a node that is not queued leaves the
    /// queue as it is.
    fn detach(&mut self, node: ListPtr)
        ensures
            !old(self).queue().contains(node) ==> final(self).queue() == old(self).queue(),
            old(self).queue().contains(node) ==> final(self).queue() == old(self).queue().remove(
                position_of(old(self).queue(), node),
            ),
    {
        if let Some(head) = self.list.head() {
            if node != head && node.0 < self.pool.len() && self.pool.node(node) == ListNode::new() {
                proof {
                    let q = old(self).queue();
                    if q.contains(node) {
                        let m = choose|m: int| 0 <= m < q.len() && q[m] == node;
                        assert(linked_at(self.pool@, q, m));
                        assert(m > 0);
                    }
                }
                return;
            }
            if node == head {
                proof {
                    assert(position_of(old(self).queue(), node) == 0) by {
                        let k = position_of(old(self).queue(), node);
                        if k != 0 {
                            lemma_position_unique(old(self).queue(), k, 0);
                        }
                    }
                    assert(old(self).queue().drop_first() =~= old(self).queue().remove(0));
                }
                self.pop();
            } else {
                self.list.detach(&mut self.pool, node);
            }
        }
    }

    /// Moves the running (first) thread to the back, then moves threads from
    /// the front to the back until the first one is ready, and returns the
    /// pair (previous, next) when they differ.
    fn schedule(&mut self, threads: &Vec<Thread>) -> (r: Option<(ListPtr, ListPtr)>)
        ensures
            ({
                let q = old(self).queue();
                let q1 = rotate(q);
                exists|m: int|
                    first_ready(threads@, q1, m) && final(self).queue() == rotate_by(q1, m) && r == (if q[0]
                        != q1[m] {
                        Some((q[0], q1[m]))
                    } else {
                        None::<(ListPtr, ListPtr)>
                    })
            }),
    {
        let ghost q = self.list@;
        proof {
            assert(linked_at(self.pool@, q, 0));
        }
        let curr = self.pop().unwrap();
        proof {
            assert(!self.list@.contains(curr)) by {
                if self.list@.contains(curr) {
                    let k = choose|k: int| 0 <= k < self.list@.len() && self.list@[k] == curr;
                    lemma_position_unique(q, 0, k + 1);
                }
            }
        }
        self.push(curr);
        let ghost q1 = self.list@;
        proof {
            assert(q1 =~= rotate(q));
            lemma_rotate_zero(q1);
            let i = choose|i: int| 0 <= i < q.len() && #[trigger] threads@[q[i].0 as int].status == ThreadStatus::Ready;
            let d = if i == 0 { q.len() - 1 } else { i - 1 };
            assert(q1[d] == q[i]);
        }
        let ghost d0 = choose|d: int| 0 <= d < q1.len() && #[trigger] threads@[q1[d].0 as int].status == ThreadStatus::Ready;
        let mut node = self.list.head().unwrap();
        let ghost mut m: int = 0;
        loop
            invariant
                self.ready(),
                q1 == rotate(q),
                q1.len() == q.len(),
                q.len() > 0,
                forall|i: int| 0 <= i < q1.len() ==> (#[trigger] q1[i]).0 < threads@.len(),
                0 <= m <= d0 < q1.len(),
                threads@[q1[d0].0 as int].status == ThreadStatus::Ready,
                self.list@ == rotate_by(q1, m),
                node == q1[m],
                forall|j: int| 0 <= j < m ==> #[trigger] threads@[q1[j].0 as int].status != ThreadStatus::Ready,
            ensures
                first_ready(threads@, q1, m),
                self.list@ == rotate_by(q1, m),
                node == q1[m],
                self.ready(),
            decreases d0 - m,
        {
            proof {
                lemma_rotate_step(q1, m);
            }
            let thread = Thread::from_ptr(threads, &node);
            if thread.status == ThreadStatus::Ready {
                break ;
            } else {
                proof {
                    assert(linked_at(self.pool@, self.list@, 0));
                    assert(m < d0);
                    assert(linked_at(self.pool@, self.list@, 1));
                }
                node = node.next(&self.pool).unwrap();
                let a = self.pop().unwrap();
                proof {
                    assert(!self.list@.contains(a)) by {
                        if self.list@.contains(a) {
                            let k = choose|k: int| 0 <= k < self.list@.len() && self.list@[k] == a;
                            lemma_position_unique(rotate_by(q1, m), 0, k + 1);
                        }
                    }
                }
                self.push(a);
                proof {
                    m = m + 1;
                }
            }
        }
        proof {
            assert(q[0] == curr);
        }
        if curr != node {
            Some((curr, node))
        } else {
            None
        }
    }
}

} // verus!
