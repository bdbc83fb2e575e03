//! Intrusive doubly linked lists.
//!
//! The links of every node live in a `NodePool`; a node is named by its
//! `ListPtr`, its slot in the pool. A `LinkedList` only knows its head, so
//! several lists can thread through the same pool (the scheduler keeps one
//! list per priority over the nodes of all threads).
use vstd::prelude::*;

verus! {

/// Names a list node: the slot that holds its links in a `NodePool`.
#[derive(Clone, Copy, PartialEq, Eq, Structural, Debug)]
pub struct ListPtr(pub usize);

/// The two links of a node.
#[derive(Clone, Copy, PartialEq, Eq, Structural, Debug)]
pub struct ListNode {
    pub prev: Option<ListPtr>,
    pub next: Option<ListPtr>,
}

/// The memory that holds the links of the nodes.
pub struct NodePool {
    pub nodes: Vec<ListNode>,
}

impl View for NodePool {
    type V = Seq<ListNode>;

    open spec fn view(&self) -> Seq<ListNode> {
        self.nodes@
    }
}

/// A node with no neighbour.
pub open spec fn unlinked() -> ListNode {
    ListNode { prev: None, next: None }
}

/// The first element of `s`, if any.
pub open spec fn first_of(s: Seq<ListPtr>) -> Option<ListPtr> {
    if s.len() == 0 {
        None
    } else {
        Some(s[0])
    }
}

/// The last element of `s`, if any.
pub open spec fn last_of(s: Seq<ListPtr>) -> Option<ListPtr> {
    if s.len() == 0 {
        None
    } else {
        Some(s[s.len() - 1])
    }
}

/// The element after position `i` of `s`, if any.
pub open spec fn next_in(s: Seq<ListPtr>, i: int) -> Option<ListPtr> {
    if i + 1 < s.len() {
        Some(s[i + 1])
    } else {
        None
    }
}

/// The element before position `i` of `s`, if any.
pub open spec fn prev_in(s: Seq<ListPtr>, i: int) -> Option<ListPtr> {
    if i > 0 {
        Some(s[i - 1])
    } else {
        None
    }
}

/// The node at position `i` of `s` lies in `pool` and links to its neighbours in `s`.
pub open spec fn linked_at(pool: Seq<ListNode>, s: Seq<ListPtr>, i: int) -> bool {
    &&& s[i].0 < pool.len()
    &&& pool[s[i].0 as int].next == next_in(s, i)
    &&& pool[s[i].0 as int].prev == prev_in(s, i)
}

/// The links in `pool` chain exactly the distinct nodes of `s`, in order:
/// the first has no predecessor, the last no successor.
pub open spec fn links_wf(pool: Seq<ListNode>, s: Seq<ListPtr>) -> bool {
    &&& s.no_duplicates()
    &&& forall|i: int| 0 <= i < s.len() ==> #[trigger] linked_at(pool, s, i)
}

/// `p` names slot `i`.
pub open spec fn names(p: Option<ListPtr>, i: int) -> bool {
    p matches Some(q) && q.0 == i
}

/// `p` names a member of `s`.
pub open spec fn named_in(p: Option<ListPtr>, s: Seq<ListPtr>) -> bool {
    p matches Some(q) && s.contains(q)
}

/// `new` is `old` but for the slots named by `a`, `b` and `c`.
pub open spec fn only_touched(
    old: Seq<ListNode>,
    new: Seq<ListNode>,
    a: Option<ListPtr>,
    b: Option<ListPtr>,
    c: Option<ListPtr>,
) -> bool {
    &&& new.len() == old.len()
    &&& forall|i: int|
        0 <= i < old.len() && !names(a, i) && !names(b, i) && !names(c, i) ==> #[trigger] new[i]
            == old[i]
}

/// The position of `p` in `s`.
pub open spec fn position_of(s: Seq<ListPtr>, p: ListPtr) -> int {
    choose|i: int| 0 <= i < s.len() && s[i] == p
}

/// A list stays well linked when the slots that changed hold none of its nodes.
pub proof fn lemma_list_kept(
    old: Seq<ListNode>,
    new: Seq<ListNode>,
    s: Seq<ListPtr>,
    a: Option<ListPtr>,
    b: Option<ListPtr>,
    c: Option<ListPtr>,
)
    requires
        links_wf(old, s),
        only_touched(old, new, a, b, c),
        !named_in(a, s),
        !named_in(b, s),
        !named_in(c, s),
    ensures
        links_wf(new, s),
{
    assert forall|i: int| 0 <= i < s.len() implies #[trigger] linked_at(new, s, i) by {
        assert(linked_at(old, s, i));
        let k = s[i].0 as int;
        if names(a, k) {
            assert(a.unwrap() == s[i]);
        }
        if names(b, k) {
            assert(b.unwrap() == s[i]);
        }
        if names(c, k) {
            assert(c.unwrap() == s[i]);
        }
        assert(new[k] == old[k]);
    }
}

/// Detaching the node just pushed at the back gives the list back.
pub proof fn lemma_push_back_then_detach(s: Seq<ListPtr>, x: ListPtr)
    requires
        !s.contains(x),
    ensures
        position_of(s.push(x), x) == s.len(),
        s.push(x).remove(position_of(s.push(x), x)) == s,
{
    let t = s.push(x);
    assert(t[s.len() as int] == x);
    let k = position_of(t, x);
    assert(0 <= k < t.len() && t[k] == x);
    if k < s.len() {
        assert(s[k] == x);
    }
    assert(t.remove(k) =~= s);
}

/// Two nodes of a well linked list are equal exactly when their slots are.
pub proof fn lemma_position_unique(s: Seq<ListPtr>, i: int, j: int)
    requires
        s.no_duplicates(),
        0 <= i < s.len(),
        0 <= j < s.len(),
        s[i].0 == s[j].0,
    ensures
        i == j,
{
    assert(s[i] == s[j]);
}

impl ListNode {
    /// A node with no neighbour.
    pub fn new() -> (n: ListNode)
        ensures
            n == unlinked(),
    {
        ListNode { prev: None, next: None }
    }

    /// Whether the node has both a predecessor and a successor.
    pub fn is_link(&self) -> (r: bool)
        ensures
            r == (self.prev.is_some() && self.next.is_some()),
    {
        self.prev.is_some() && self.next.is_some()
    }

    /// The successor.
    pub fn next(&self) -> (r: Option<ListPtr>)
        ensures
            r == self.next,
    {
        self.next
    }

    /// The predecessor.
    pub fn prev(&self) -> (r: Option<ListPtr>)
        ensures
            r == self.prev,
    {
        self.prev
    }

    /// Sets the predecessor.
    pub fn set_prev(&mut self, node: Option<ListPtr>)
        ensures
            final(self).prev == node,
            final(self).next == old(self).next,
    {
        self.prev = node;
    }

    /// Sets the successor.
    pub fn set_next(&mut self, node: Option<ListPtr>)
        ensures
            final(self).next == node,
            final(self).prev == old(self).prev,
    {
        self.next = node;
    }
}

impl Default for ListNode {
    /// A node with no neighbour.
    fn default() -> (n: ListNode)
        ensures
            n == unlinked(),
    {
        ListNode::new()
    }
}

/// The pool after `ListNode::insert(pool, this, node)`: `node` points back to
/// itself and forward to the old successor of `this`, `this` points forward to
/// `node`, and the old successor keeps its predecessor.
pub open spec fn node_insert_result(pool: Seq<ListNode>, this: ListPtr, node: ListPtr) -> Seq<
    ListNode,
> {
    let old_next = pool[this.0 as int].next;
    let p1 = pool.update(node.0 as int, ListNode { prev: Some(this), next: pool[node.0 as int].next });
    let p2 = p1.update(node.0 as int, ListNode { prev: Some(this), next: old_next });
    let p3 = p2.update(this.0 as int, ListNode { prev: p2[this.0 as int].prev, next: Some(node) });
    p3.update(node.0 as int, ListNode { prev: Some(node), next: p3[node.0 as int].next })
}

/// The pool after `ptr.insert(pool, node)`: `node` goes between `ptr` and its
/// old successor.
pub open spec fn ptr_insert_result(pool: Seq<ListNode>, this: ListPtr, node: ListPtr) -> Seq<
    ListNode,
> {
    let old_next = pool[this.0 as int].next;
    let p1 = pool.update(node.0 as int, ListNode { prev: Some(this), next: pool[node.0 as int].next });
    let p2 = p1.update(node.0 as int, ListNode { prev: Some(this), next: old_next });
    let p3 = match old_next {
        Some(n) => p2.update(n.0 as int, ListNode { prev: Some(node), next: p2[n.0 as int].next }),
        None => p2,
    };
    p3.update(this.0 as int, ListNode { prev: p3[this.0 as int].prev, next: Some(node) })
}

impl ListNode {
    /// Links `node` in after `this` the way the node-level insert does it:
    /// `node` gets `this` as predecessor and the old successor of `this` as
    /// successor, `this` gets `node` as successor, and then the successor of
    /// `this` (by now `node` itself) gets `node` as predecessor. So `node`
    /// ends up as its own predecessor and the old successor keeps `this`.
    pub fn insert(pool: &mut NodePool, this: ListPtr, node: ListPtr)
        requires
            this.0 < old(pool)@.len(),
            node.0 < old(pool)@.len(),
        ensures
            final(pool)@ == node_insert_result(old(pool)@, this, node),
            final(pool)@[this.0 as int].next == Some(node),
            final(pool)@[node.0 as int].prev == Some(node),
            this != node ==> final(pool)@[node.0 as int].next == old(pool)@[this.0 as int].next,
    {
        node.set_prev(pool, ListPtr::new(this.0));
        node.set_next(pool, this.next(pool));
        this.set_next(pool, Some(node));
        if let Some(next) = this.next(pool) {
            next.set_prev(pool, Some(node));
        }
    }
}

/// Maps a list node to the item that embeds it: the items sit in a table at
/// the slots of their nodes.
pub trait Intrusive {
    type Item;

    /// The item whose node is `ptr`.
    fn from_ptr<'a>(items: &'a Vec<Self::Item>, ptr: &ListPtr) -> (r: &'a Self::Item)
        requires
            ptr.0 < items@.len(),
        ensures
            *r == items@[ptr.0 as int],
    ;
}

/// A position in a chain of nodes, moved along the links.
pub struct Cursor {
    pub list: Option<ListPtr>,
}

impl Cursor {
    /// A cursor at `list`.
    pub fn from(list: Option<ListPtr>) -> (c: Cursor)
        ensures
            c.list == list,
    {
        Cursor { list }
    }

    /// Moves to the successor; stays put when there is no current node.
    pub fn move_next(&mut self, pool: &NodePool)
        requires
            old(self).list matches Some(p) ==> p.0 < pool@.len(),
        ensures
            final(self).list == (match old(self).list {
                Some(p) => pool@[p.0 as int].next,
                None => None,
            }),
    {
        if let Some(node) = self.list {
            self.list = node.next(pool);
        }
    }

    /// The item that embeds the current node, if there is one.
    pub fn owner_ref<'a, T: Intrusive>(&self, items: &'a Vec<T::Item>) -> (r: Option<&'a T::Item>)
        requires
            self.list matches Some(p) ==> p.0 < items@.len(),
        ensures
            self.list is None ==> r is None,
            self.list matches Some(p) ==> (r matches Some(x) && *x == items@[p.0 as int]),
    {
        match self.list {
            Some(p) => Some(T::from_ptr(items, &p)),
            None => None,
        }
    }

    /// Moves to the predecessor; stays put when there is no current node.
    pub fn move_prev(&mut self, pool: &NodePool)
        requires
            old(self).list matches Some(p) ==> p.0 < pool@.len(),
        ensures
            final(self).list == (match old(self).list {
                Some(p) => pool@[p.0 as int].prev,
                None => None,
            }),
    {
        if let Some(node) = self.list {
            self.list = node.prev(pool);
        }
    }
}

/// A position in a chain of nodes at which nodes can be linked in.
pub struct CursorMut {
    pub list: Option<ListPtr>,
}

impl CursorMut {
    /// A cursor at `list`.
    pub fn from(list: Option<ListPtr>) -> (c: CursorMut)
        ensures
            c.list == list,
    {
        CursorMut { list }
    }

    /// Links `insert_node` in after the current node, if there is one.
    pub fn insert_after(&mut self, pool: &mut NodePool, insert_node: ListPtr)
        requires
            old(self).list matches Some(p) ==> {
                &&& p.0 < old(pool)@.len()
                &&& insert_node.0 < old(pool)@.len()
                &&& (old(pool)@[p.0 as int].next matches Some(n) ==> n.0 < old(pool)@.len())
            },
        ensures
            final(self).list == old(self).list,
            final(pool)@ == (match old(self).list {
                Some(p) => ptr_insert_result(old(pool)@, p, insert_node),
                None => old(pool)@,
            }),
    {
        if let Some(node) = self.list {
            node.insert(pool, insert_node);
        }
    }
}

impl NodePool {
    /// A pool of `n` nodes without neighbours.
    pub fn new(n: usize) -> (pool: NodePool)
        ensures
            pool@.len() == n,
            forall|i: int| 0 <= i < n ==> #[trigger] pool@[i] == unlinked(),
    {
        let mut nodes: Vec<ListNode> = Vec::new();
        let mut k: usize = 0;
        while k < n
            invariant
                k <= n,
                nodes@.len() == k,
                forall|i: int| 0 <= i < k ==> #[trigger] nodes@[i] == unlinked(),
            decreases n - k,
        {
            nodes.push(ListNode::new());
            k = k + 1;
        }
        NodePool { nodes }
    }

    /// The number of nodes.
    pub fn len(&self) -> (r: usize)
        ensures
            r == self@.len(),
    {
        self.nodes.len()
    }

    /// The links of the node `p`.
    pub fn node(&self, p: ListPtr) -> (r: ListNode)
        requires
            p.0 < self@.len(),
        ensures
            r == self@[p.0 as int],
    {
        self.nodes[p.0]
    }
}

impl ListPtr {
    /// The handle of the node in slot `index`.
    pub fn new(index: usize) -> (r: Option<ListPtr>)
        ensures
            r == Some(ListPtr(index)),
    {
        Some(ListPtr(index))
    }

    /// The predecessor of this node.
    pub fn prev(&self, pool: &NodePool) -> (r: Option<ListPtr>)
        requires
            self.0 < pool@.len(),
        ensures
            r == pool@[self.0 as int].prev,
    {
        pool.nodes[self.0].prev
    }

    /// The successor of this node.
    pub fn next(&self, pool: &NodePool) -> (r: Option<ListPtr>)
        requires
            self.0 < pool@.len(),
        ensures
            r == pool@[self.0 as int].next,
    {
        pool.nodes[self.0].next
    }

    /// Sets the predecessor of this node.
    pub fn set_prev(&self, pool: &mut NodePool, node: Option<ListPtr>)
        requires
            self.0 < old(pool)@.len(),
        ensures
            final(pool)@ == old(pool)@.update(
                self.0 as int,
                ListNode { prev: node, next: old(pool)@[self.0 as int].next },
            ),
    {
        let n = ListNode { prev: node, next: pool.nodes[self.0].next };
        pool.nodes.set(self.0, n);
    }

    /// Sets the successor of this node.
    pub fn set_next(&self, pool: &mut NodePool, node: Option<ListPtr>)
        requires
            self.0 < old(pool)@.len(),
        ensures
            final(pool)@ == old(pool)@.update(
                self.0 as int,
                ListNode { prev: old(pool)@[self.0 as int].prev, next: node },
            ),
    {
        let n = ListNode { prev: pool.nodes[self.0].prev, next: node };
        pool.nodes.set(self.0, n);
    }

    /// Links `node` in right after this node.
    pub fn insert(&self, pool: &mut NodePool, node: ListPtr)
        requires
            self.0 < old(pool)@.len(),
            node.0 < old(pool)@.len(),
            old(pool)@[self.0 as int].next matches Some(n) ==> n.0 < old(pool)@.len(),
        ensures
            final(pool)@ == ptr_insert_result(old(pool)@, *self, node),
    {
        node.set_prev(pool, Some(*self));
        node.set_next(pool, self.next(pool));
        if let Some(next) = self.next(pool) {
            next.set_prev(pool, Some(node));
        }
        self.set_next(pool, Some(node));
    }
}

/// Linking a fresh node in after the member at position `k` of a well linked
/// list gives the well linked list with that node at position `k + 1`; only
/// the new node, the member and its old successor change.
pub proof fn lemma_ptr_insert(pool: Seq<ListNode>, s: Seq<ListPtr>, k: int, node: ListPtr)
    requires
        links_wf(pool, s),
        0 <= k < s.len(),
        node.0 < pool.len(),
        !s.contains(node),
    ensures
        links_wf(ptr_insert_result(pool, s[k], node), s.insert(k + 1, node)),
        only_touched(pool, ptr_insert_result(pool, s[k], node), Some(node), Some(s[k]), next_in(s, k)),
{
    let t = s.insert(k + 1, node);
    let r = ptr_insert_result(pool, s[k], node);
    s.insert_ensures(k + 1, node);
    assert(linked_at(pool, s, k));
    assert forall|i: int| 0 <= i < s.len() implies s[i].0 != node.0 by {
        if s[i].0 == node.0 {
            assert(s[i] == node);
        }
    }
    if k + 1 < s.len() {
        assert(linked_at(pool, s, k + 1));
        assert(s[k + 1].0 != s[k].0) by {
            if s[k + 1].0 == s[k].0 {
                lemma_position_unique(s, k, k + 1);
            }
        }
    }
    assert forall|i: int, j: int|
        0 <= i < t.len() && 0 <= j < t.len() && i != j implies t[i] != t[j] by {
        if i < k + 1 && j < k + 1 {
        } else if i > k + 1 && j > k + 1 {
            assert(t[i] == s[i - 1] && t[j] == s[j - 1]);
        } else if i == k + 1 {
            if j < k + 1 {
                assert(t[j] == s[j]);
            } else {
                assert(t[j] == s[j - 1]);
            }
        } else if j == k + 1 {
            if i < k + 1 {
                assert(t[i] == s[i]);
            } else {
                assert(t[i] == s[i - 1]);
            }
        } else if i < k + 1 {
            assert(t[i] == s[i] && t[j] == s[j - 1]);
        } else {
            assert(t[i] == s[i - 1] && t[j] == s[j]);
        }
    }
    assert forall|i: int| 0 <= i < t.len() implies #[trigger] linked_at(r, t, i) by {
        if i < k {
            assert(linked_at(pool, s, i));
            assert(s[i].0 != s[k].0) by {
                if s[i].0 == s[k].0 {
                    lemma_position_unique(s, i, k);
                }
            }
            if k + 1 < s.len() {
                assert(s[i].0 != s[k + 1].0) by {
                    if s[i].0 == s[k + 1].0 {
                        lemma_position_unique(s, i, k + 1);
                    }
                }
            }
            if i + 1 < k + 1 {
                assert(t[i + 1] == s[i + 1]);
            }
            if i > 0 {
                assert(t[i - 1] == s[i - 1]);
            }
        } else if i == k {
            if k > 0 {
                assert(t[k - 1] == s[k - 1]);
            }
        } else if i == k + 1 {
            if k + 2 < t.len() {
                assert(t[k + 2] == s[k + 1]);
            }
        } else if i == k + 2 {
            assert(t[i] == s[k + 1]);
            if i + 1 < t.len() {
                assert(t[i + 1] == s[k + 2]);
            }
        } else {
            assert(t[i] == s[i - 1]);
            assert(linked_at(pool, s, i - 1));
            assert(s[i - 1].0 != s[k].0) by {
                if s[i - 1].0 == s[k].0 {
                    lemma_position_unique(s, i - 1, k);
                }
            }
            assert(s[i - 1].0 != s[k + 1].0) by {
                if s[i - 1].0 == s[k + 1].0 {
                    lemma_position_unique(s, i - 1, k + 1);
                }
            }
            assert(t[i - 1] == s[i - 2]);
            if i + 1 < t.len() {
                assert(t[i + 1] == s[i]);
            }
        }
    }
}

/// An intrusive doubly linked list: its head, and as a model the sequence of
/// its nodes from the head on.
#[derive(Clone, Copy)]
pub struct LinkedList {
    head: Option<ListPtr>,
    nodes: Ghost<Seq<ListPtr>>,
}

impl View for LinkedList {
    type V = Seq<ListPtr>;

    closed spec fn view(&self) -> Seq<ListPtr> {
        self.nodes@
    }
}

impl LinkedList {
    #[verifier::type_invariant]
    spec fn head_is_first(self) -> bool {
        self.head == first_of(self.nodes@)
    }

    /// The links in `pool` chain the nodes of the list in order.
    pub open spec fn wf(&self, pool: Seq<ListNode>) -> bool {
        links_wf(pool, self@)
    }

    /// An empty list.
    pub fn new() -> (l: LinkedList)
        ensures
            l@ == Seq::<ListPtr>::empty(),
    {
        LinkedList { head: None, nodes: Ghost(Seq::empty()) }
    }

    /// Whether the list has no node.
    pub fn is_empty(&self) -> (r: bool)
        ensures
            r == (self@.len() == 0),
    {
        proof {
            use_type_invariant(self);
        }
        self.head.is_none()
    }

    /// The first node.
    pub fn head(&self) -> (r: Option<ListPtr>)
        ensures
            r == first_of(self@),
    {
        proof {
            use_type_invariant(self);
        }
        self.head
    }

    /// Whether `node` is the first node.
    pub fn is_head(&self, node: ListPtr) -> (r: bool)
        ensures
            r == (self@.len() > 0 && self@[0] == node),
    {
        if let Some(head) = self.head() {
            if head.0 == node.0 {
                return true;
            }
        }
        false
    }

    /// The last node, found by walking the successor links from the head.
    pub fn tail(&self, pool: &NodePool) -> (r: Option<ListPtr>)
        requires
            self.wf(pool@),
        ensures
            r == last_of(self@),
    {
        if self.head().is_none() {
            return None;
        }
        let mut curr = self.head().unwrap();
        let ghost mut i: int = 0;
        loop
            invariant
                self.wf(pool@),
                0 <= i < self@.len(),
                curr == self@[i],
            ensures
                curr == self@[self@.len() - 1],
            decreases self@.len() - i,
        {
            assert(linked_at(pool@, self@, i));
            match curr.next(pool) {
                Some(node) => {
                    curr = node;
                    proof {
                        i = i + 1;
                    }
                },
                None => {
                    break ;
                },
            }
        }
        Some(curr)
    }

    /// The nodes, from the head, found by following the successor links.
    pub fn to_vec(&self, pool: &NodePool) -> (r: Vec<ListPtr>)
        requires
            self.wf(pool@),
        ensures
            r@ == self@,
    {
        let mut r: Vec<ListPtr> = Vec::new();
        let mut node = self.head();
        let ghost mut i: int = 0;
        while node.is_some()
            invariant
                self.wf(pool@),
                0 <= i <= self@.len(),
                r@ == self@.subrange(0, i),
                node == (if i < self@.len() { Some(self@[i]) } else { None::<ListPtr> }),
            decreases self@.len() - i,
        {
            let p = node.unwrap();
            proof {
                assert(linked_at(pool@, self@, i));
            }
            r.push(p);
            node = p.next(pool);
            proof {
                i = i + 1;
            }
        }
        proof {
            assert(r@ =~= self@);
        }
        r
    }

    /// Puts `node` first.
    pub fn push_front(&mut self, pool: &mut NodePool, node: ListPtr)
        requires
            old(self).wf(old(pool)@),
            node.0 < old(pool)@.len(),
            !old(self)@.contains(node),
        ensures
            final(self)@ == seq![node] + old(self)@,
            final(self).wf(final(pool)@),
            only_touched(old(pool)@, final(pool)@, Some(node), first_of(old(self)@), None),
    {
        let ghost s = self@;
        let ghost p0 = pool@;
        proof {
            if s.len() > 0 {
                assert(linked_at(p0, s, 0));
            }
            assert forall|i: int| 0 <= i < s.len() implies s[i].0 != node.0 by {
                if s[i].0 == node.0 {
                    assert(s[i] == node);
                }
            }
        }
        node.set_prev(pool, None);
        node.set_next(pool, self.head());
        if let Some(head) = self.head() {
            head.set_prev(pool, Some(node));
        }
        let ghost t = seq![node] + s;
        proof {
            assert(pool@[node.0 as int] == ListNode { prev: None, next: first_of(s) });
            if s.len() > 0 {
                assert(pool@[s[0].0 as int] == ListNode { prev: Some(node), next: p0[s[0].0 as int].next });
            }
            assert forall|j: int| 0 <= j < p0.len() && j != node.0 && !names(first_of(s), j) implies pool@[j] == p0[j] by {}
            assert forall|i: int, j: int|
                0 <= i < t.len() && 0 <= j < t.len() && i != j implies t[i] != t[j] by {
                if i > 0 && j > 0 {
                    assert(t[i] == s[i - 1] && t[j] == s[j - 1]);
                } else if i == 0 {
                    assert(t[j] == s[j - 1]);
                } else {
                    assert(t[i] == s[i - 1]);
                }
            }
            assert forall|i: int| 0 <= i < t.len() implies #[trigger] linked_at(pool@, t, i) by {
                if i > 0 {
                    assert(t[i] == s[i - 1]);
                    assert(linked_at(p0, s, i - 1));
                    if i >= 2 {
                        assert(s[i - 1].0 != s[0].0) by {
                            if s[i - 1].0 == s[0].0 {
                                lemma_position_unique(s, i - 1, 0);
                            }
                        }
                        assert(t[i - 1] == s[i - 2]);
                    }
                    if i + 1 < t.len() {
                        assert(t[i + 1] == s[i]);
                    }
                } else if t.len() > 1 {
                    assert(t[1] == s[0]);
                }
            }
        }
        *self = LinkedList { head: Some(node), nodes: Ghost(t) };
    }

    /// Puts `node` last. On an empty list it only becomes the head, with the
    /// links it had.
    pub fn push_back(&mut self, pool: &mut NodePool, node: ListPtr)
        requires
            old(self).wf(old(pool)@),
            node.0 < old(pool)@.len(),
            !old(self)@.contains(node),
            old(self)@.len() == 0 ==> old(pool)@[node.0 as int] == unlinked(),
        ensures
            final(self)@ == old(self)@.push(node),
            final(self).wf(final(pool)@),
            only_touched(old(pool)@, final(pool)@, Some(node), last_of(old(self)@), None),
            old(self)@.len() == 0 ==> final(pool)@ == old(pool)@,
    {
        let ghost s = self@;
        let ghost p0 = pool@;
        proof {
            use_type_invariant(&*self);
        }
        if self.head().is_none() {
            let ghost t = seq![node];
            proof {
                assert(linked_at(pool@, t, 0));
            }
            *self = LinkedList { head: Some(node), nodes: Ghost(t) };
            return ;
        }
        let t0 = self.tail(pool);
        node.set_prev(pool, t0);
        node.set_next(pool, None);
        proof {
            lemma_list_kept(p0, pool@, s, Some(node), None, None);
        }
        proof {
            assert(linked_at(pool@, s, s.len() - 1));
        }
        let ghost p1 = pool@;
        if let Some(tail) = self.tail(pool) {
            tail.set_next(pool, Some(node));
        }
        let ghost t = s.push(node);
        proof {
            let n = s.len() - 1;
            assert(linked_at(p0, s, n));
            assert(s[n].0 != node.0) by {
                if s[n].0 == node.0 {
                    assert(s[n] == node);
                }
            }
            assert(pool@[node.0 as int] == ListNode { prev: Some(s[n]), next: None });
            assert(pool@[s[n].0 as int] == ListNode { prev: p0[s[n].0 as int].prev, next: Some(node) });
            assert forall|j: int| 0 <= j < p0.len() && j != node.0 && j != s[n].0 implies pool@[j] == p0[j] by {}
            assert forall|i: int| 0 <= i < s.len() implies s[i].0 != node.0 by {
                if s[i].0 == node.0 {
                    assert(s[i] == node);
                }
            }
            assert forall|i: int, j: int|
                0 <= i < t.len() && 0 <= j < t.len() && i != j implies t[i] != t[j] by {
                if i < s.len() && j < s.len() {
                    assert(t[i] == s[i] && t[j] == s[j]);
                } else if i == s.len() {
                    assert(t[j] == s[j]);
                } else {
                    assert(t[i] == s[i]);
                }
            }
            assert forall|i: int| 0 <= i < t.len() implies #[trigger] linked_at(pool@, t, i) by {
                if i < n {
                    assert(t[i] == s[i]);
                    assert(linked_at(p0, s, i));
                    assert(s[i].0 != s[n].0) by {
                        if s[i].0 == s[n].0 {
                            lemma_position_unique(s, i, n);
                        }
                    }
                    assert(t[i + 1] == s[i + 1]);
                    if i > 0 {
                        assert(t[i - 1] == s[i - 1]);
                    }
                } else if i == n {
                    assert(t[i] == s[i]);
                    assert(linked_at(p0, s, i));
                    if i > 0 {
                        assert(t[i - 1] == s[i - 1]);
                    }
                } else {
                    assert(t[i - 1] == s[n]);
                }
            }
        }
        *self = LinkedList { head: self.head, nodes: Ghost(t) };
    }

    /// Takes the first node off; it is left with no neighbour.
    pub fn pop_front(&mut self, pool: &mut NodePool) -> (r: Option<ListPtr>)
        requires
            old(self).wf(old(pool)@),
        ensures
            r == first_of(old(self)@),
            final(self)@ == (if old(self)@.len() == 0 {
                old(self)@
            } else {
                old(self)@.drop_first()
            }),
            final(self).wf(final(pool)@),
            only_touched(old(pool)@, final(pool)@, first_of(old(self)@), next_in(old(self)@, 0), None),
            r matches Some(h) ==> final(pool)@[h.0 as int] == unlinked(),
    {
        let ghost s = self@;
        let ghost p0 = pool@;
        proof {
            use_type_invariant(&*self);
        }
        if let Some(head) = self.head() {
            proof {
                assert(linked_at(p0, s, 0));
            }
            let new_head = if let Some(new) = head.next(pool) {
                proof {
                    assert(linked_at(p0, s, 1));
                }
                new.set_prev(pool, None);
                Some(new)
            } else {
                None
            };
            head.set_next(pool, None);
            let ghost t = s.drop_first();
            proof {
                assert forall|i: int, j: int|
                    0 <= i < t.len() && 0 <= j < t.len() && i != j implies t[i] != t[j] by {
                    assert(t[i] == s[i + 1] && t[j] == s[j + 1]);
                }
                assert forall|i: int| 0 <= i < t.len() implies #[trigger] linked_at(
                    pool@,
                    t,
                    i,
                ) by {
                    assert(t[i] == s[i + 1]);
                    assert(linked_at(p0, s, i + 1));
                    assert(s[i + 1].0 != s[0].0) by {
                        if s[i + 1].0 == s[0].0 {
                            lemma_position_unique(s, i + 1, 0);
                        }
                    }
                    if i > 0 {
                        assert(s[i + 1].0 != s[1].0) by {
                            if s[i + 1].0 == s[1].0 {
                                lemma_position_unique(s, i + 1, 1);
                            }
                        }
                        assert(t[i - 1] == s[i]);
                    }
                    if i + 1 < t.len() {
                        assert(t[i + 1] == s[i + 2]);
                    }
                }
                if s.len() > 1 {
                    assert(s[1].0 != s[0].0) by {
                        if s[1].0 == s[0].0 {
                            lemma_position_unique(s, 1, 0);
                        }
                    }
                }
            }
            *self = LinkedList { head: new_head, nodes: Ghost(t) };
            Some(head)
        } else {
            None
        }
    }

    /// Links `node` in right after the member `at`.
    pub fn insert_after(&mut self, pool: &mut NodePool, at: ListPtr, node: ListPtr)
        requires
            old(self).wf(old(pool)@),
            old(self)@.contains(at),
            !old(self)@.contains(node),
            node.0 < old(pool)@.len(),
        ensures
            final(self)@ == old(self)@.insert(position_of(old(self)@, at) + 1, node),
            final(self).wf(final(pool)@),
            only_touched(
                old(pool)@,
                final(pool)@,
                Some(node),
                Some(at),
                next_in(old(self)@, position_of(old(self)@, at)),
            ),
    {
        let ghost s = self@;
        let ghost k = position_of(s, at);
        proof {
            use_type_invariant(&*self);
            assert(linked_at(pool@, s, k));
            if k + 1 < s.len() {
                assert(linked_at(pool@, s, k + 1));
            }
            lemma_ptr_insert(pool@, s, k, node);
        }
        at.insert(pool, node);
        let ghost t = s.insert(k + 1, node);
        proof {
            s.insert_ensures(k + 1, node);
        }
        *self = LinkedList { head: self.head, nodes: Ghost(t) };
    }

    /// Unlinks `node` from the list. A node that was the head keeps its links;
    /// any other is left with no neighbour.
    pub fn detach(&mut self, pool: &mut NodePool, node: ListPtr)
        requires
            old(self).wf(old(pool)@),
            old(self)@.contains(node),
        ensures
            final(self)@ == old(self)@.remove(position_of(old(self)@, node)),
            final(self).wf(final(pool)@),
            only_touched(
                old(pool)@,
                final(pool)@,
                Some(node),
                prev_in(old(self)@, position_of(old(self)@, node)),
                next_in(old(self)@, position_of(old(self)@, node)),
            ),
            final(pool)@[node.0 as int] == (if old(self)@[0] == node {
                old(pool)@[node.0 as int]
            } else {
                unlinked()
            }),
    {
        let ghost s = self@;
        let ghost p0 = pool@;
        let ghost k = position_of(s, node);
        proof {
            use_type_invariant(&*self);
            assert(linked_at(p0, s, k));
            if k > 0 {
                assert(linked_at(p0, s, k - 1));
            }
            if k + 1 < s.len() {
                assert(linked_at(p0, s, k + 1));
            }
        }
        let ghost t = s.remove(k);
        if self.is_head(node) {
            proof {
                if k != 0 {
                    lemma_position_unique(s, k, 0);
                }
            }
            let new_head = node.next(pool);
            if let Some(head) = new_head {
                head.set_prev(pool, None);
            }
            proof {
                assert(t =~= s.drop_first());
                assert forall|i: int, j: int|
                    0 <= i < t.len() && 0 <= j < t.len() && i != j implies t[i] != t[j] by {
                    assert(t[i] == s[i + 1] && t[j] == s[j + 1]);
                }
                assert forall|i: int| 0 <= i < t.len() implies #[trigger] linked_at(
                    pool@,
                    t,
                    i,
                ) by {
                    assert(t[i] == s[i + 1]);
                    assert(linked_at(p0, s, i + 1));
                    if i > 0 {
                        assert(s[i + 1].0 != s[1].0) by {
                            if s[i + 1].0 == s[1].0 {
                                lemma_position_unique(s, i + 1, 1);
                            }
                        }
                        assert(t[i - 1] == s[i]);
                    }
                    if i + 1 < t.len() {
                        assert(t[i + 1] == s[i + 2]);
                    }
                }
                if s.len() > 1 {
                    assert(s[1].0 != s[0].0) by {
                        if s[1].0 == s[0].0 {
                            lemma_position_unique(s, 1, 0);
                        }
                    }
                }
            }
            *self = LinkedList { head: new_head, nodes: Ghost(t) };
        } else {
            proof {
                if k == 0 {
                    assert(self@[0] == node);
                }
            }
            if let Some(prev) = node.prev(pool) {
                prev.set_next(pool, node.next(pool));
            }
            if let Some(next) = node.next(pool) {
                next.set_prev(pool, node.prev(pool));
            }
            node.set_next(pool, None);
            node.set_prev(pool, None);
            proof {
                assert(t[0] == s[0]);
                let pk = s[k].0;
                assert(s[k - 1].0 != pk) by {
                    if s[k - 1].0 == pk {
                        lemma_position_unique(s, k - 1, k);
                    }
                }
                if k + 1 < s.len() {
                    assert(s[k + 1].0 != pk) by {
                        if s[k + 1].0 == pk {
                            lemma_position_unique(s, k + 1, k);
                        }
                    }
                    assert(s[k + 1].0 != s[k - 1].0) by {
                        if s[k + 1].0 == s[k - 1].0 {
                            lemma_position_unique(s, k + 1, k - 1);
                        }
                    }
                }
                assert forall|i: int, j: int|
                    0 <= i < t.len() && 0 <= j < t.len() && i != j implies t[i] != t[j] by {
                    let ii = if i < k { i } else { i + 1 };
                    let jj = if j < k { j } else { j + 1 };
                    assert(t[i] == s[ii] && t[j] == s[jj]);
                }
                assert forall|i: int| 0 <= i < t.len() implies #[trigger] linked_at(
                    pool@,
                    t,
                    i,
                ) by {
                    let ii = if i < k { i } else { i + 1 };
                    assert(t[i] == s[ii]);
                    assert(linked_at(p0, s, ii));
                    assert(s[ii].0 != pk) by {
                        if s[ii].0 == pk {
                            lemma_position_unique(s, ii, k);
                        }
                    }
                    if ii != k - 1 {
                        assert(s[ii].0 != s[k - 1].0) by {
                            if s[ii].0 == s[k - 1].0 {
                                lemma_position_unique(s, ii, k - 1);
                            }
                        }
                    }
                    if k + 1 < s.len() && ii != k + 1 {
                        assert(s[ii].0 != s[k + 1].0) by {
                            if s[ii].0 == s[k + 1].0 {
                                lemma_position_unique(s, ii, k + 1);
                            }
                        }
                    }
                    if i > 0 {
                        let pi = if i - 1 < k { i - 1 } else { i };
                        assert(t[i - 1] == s[pi]);
                    }
                    if i + 1 < t.len() {
                        let ni = if i + 1 < k { i + 1 } else { i + 2 };
                        assert(t[i + 1] == s[ni]);
                    }
                }
            }
            *self = LinkedList { head: self.head, nodes: Ghost(t) };
        }
    }
}

} // verus!
