//! A singly linked list of items, each item holding the link to the next.
//! Items are numbered; `links[i]` is the link held by item `i`.
use vstd::prelude::*;

verus! {

/// A link to an item, or to none.
#[derive(Clone, Copy, PartialEq, Eq, Structural, Debug)]
pub struct ListNode {
    pub elem: Option<usize>,
}

/// The item after position `i` of `s`, if any.
pub open spec fn after(s: Seq<usize>, i: int) -> Option<usize> {
    if i + 1 < s.len() {
        Some(s[i + 1])
    } else {
        None
    }
}

/// The first item of `s`, if any.
pub open spec fn first_item(s: Seq<usize>) -> Option<usize> {
    if s.len() == 0 {
        None
    } else {
        Some(s[0])
    }
}

/// The item at position `i` of `s` links to the item after it.
pub open spec fn chained_at(links: Seq<ListNode>, s: Seq<usize>, i: int) -> bool {
    s[i] < links.len() && links[s[i] as int].elem == after(s, i)
}

/// The links chain the distinct items of `s` in order, the last linking to
/// none.
pub open spec fn chain_wf(links: Seq<ListNode>, s: Seq<usize>) -> bool {
    &&& s.no_duplicates()
    &&& forall|i: int| 0 <= i < s.len() ==> #[trigger] chained_at(links, s, i)
}

/// The item that item `c` links to, if any.
pub open spec fn next_of(links: Seq<ListNode>, c: usize) -> Option<usize> {
    if c < links.len() {
        links[c as int].elem
    } else {
        None
    }
}

/// The items an iterator gives in `n` steps from `cur`, each step as
/// `ListIterator::next` takes it.
pub open spec fn walk(links: Seq<ListNode>, cur: Option<usize>, n: nat) -> Seq<usize>
    decreases n,
{
    if n == 0 {
        Seq::empty()
    } else {
        match cur {
            None => Seq::empty(),
            Some(c) => seq![c] + walk(links, next_of(links, c), (n - 1) as nat),
        }
    }
}

/// Where an iterator stands after `n` steps from `cur`.
pub open spec fn walk_end(links: Seq<ListNode>, cur: Option<usize>, n: nat) -> Option<usize>
    decreases n,
{
    if n == 0 {
        cur
    } else {
        match cur {
            None => None,
            Some(c) => walk_end(links, next_of(links, c), (n - 1) as nat),
        }
    }
}

proof fn lemma_walk_from(links: Seq<ListNode>, s: Seq<usize>, k: int)
    requires
        chain_wf(links, s),
        0 <= k <= s.len(),
    ensures
        walk(links, if k < s.len() { Some(s[k]) } else { None }, (s.len() - k) as nat) == s.subrange(k, s.len() as int),
        walk_end(links, if k < s.len() { Some(s[k]) } else { None }, (s.len() - k) as nat) is None,
    decreases s.len() - k,
{
    if k < s.len() {
        assert(chained_at(links, s, k));
        lemma_walk_from(links, s, k + 1);
        assert(seq![s[k]] + s.subrange(k + 1, s.len() as int) =~= s.subrange(k, s.len() as int));
    } else {
        assert(s.subrange(k, s.len() as int) =~= Seq::<usize>::empty());
    }
}

/// Iterating a well chained list gives its items in order, then nothing.
pub proof fn lemma_walk(links: Seq<ListNode>, s: Seq<usize>)
    requires
        chain_wf(links, s),
    ensures
        walk(links, first_item(s), s.len()) == s,
        walk_end(links, first_item(s), s.len()) is None,
{
    lemma_walk_from(links, s, 0);
    assert(s.subrange(0, s.len() as int) =~= s);
}

/// After `push_front(x)` (the new link of `x` is the old first item),
/// iterating the list gives `x`, then exactly the old items, then nothing.
pub proof fn lemma_push_front_walk(links: Seq<ListNode>, s: Seq<usize>, x: usize)
    requires
        chain_wf(links, s),
        x < links.len(),
        !s.contains(x),
    ensures
        ({
            let links2 = links.update(x as int, ListNode { elem: first_item(s) });
            &&& walk(links2, Some(x), s.len() + 1) == seq![x] + s
            &&& walk_end(links2, Some(x), s.len() + 1) is None
        }),
{
    let links2 = links.update(x as int, ListNode { elem: first_item(s) });
    let t = seq![x] + s;
    assert forall|i: int, j: int| 0 <= i < t.len() && 0 <= j < t.len() && i != j implies t[i] != t[j] by {
        if i > 0 && j > 0 {
            assert(t[i] == s[i - 1] && t[j] == s[j - 1]);
        } else if i == 0 {
            assert(t[j] == s[j - 1]);
        } else {
            assert(t[i] == s[i - 1]);
        }
    }
    assert forall|i: int| 0 <= i < t.len() implies #[trigger] chained_at(links2, t, i) by {
        if i > 0 {
            assert(t[i] == s[i - 1]);
            assert(chained_at(links, s, i - 1));
            assert(s[i - 1] != x);
            if i + 1 < t.len() {
                assert(t[i + 1] == s[i]);
            }
        }
    }
    assert(first_item(t) == Some(x));
    lemma_walk(links2, t);
}

/// How an item gives its link.
pub trait ListNodeInterface {
    /// The link held by this item.
    fn next(&self, links: &Vec<ListNode>) -> (r: ListNode)
        requires
            self.slot() < links@.len(),
        ensures
            r == links@[self.slot() as int],
    ;

    /// The number of the item.
    spec fn slot(&self) -> usize;
}

impl ListNodeInterface for usize {
    open spec fn slot(&self) -> usize {
        *self
    }

    fn next(&self, links: &Vec<ListNode>) -> (r: ListNode) {
        links[*self]
    }
}

impl ListNode {
    /// A link to none.
    pub fn new() -> (n: ListNode)
        ensures
            n.elem is None,
    {
        ListNode { elem: None }
    }
}

/// Walks a chain from an item.
pub struct ListIterator {
    pub curr: Option<usize>,
}

impl ListIterator {
    /// The current item, moving on to the one it links to.
    pub fn next(&mut self, links: &Vec<ListNode>) -> (r: Option<usize>)
        requires
            old(self).curr matches Some(c) ==> c < links@.len(),
        ensures
            r == old(self).curr,
            final(self).curr == (match old(self).curr {
                Some(c) => links@[c as int].elem,
                None => None,
            }),
    {
        match self.curr {
            Some(res) => {
                self.curr = links[res].elem;
                Some(res)
            },
            None => None,
        }
    }
}

/// A singly linked list: the link to its first item, and as a model its
/// items in order.
pub struct LinkedList {
    head: ListNode,
    items: Ghost<Seq<usize>>,
}

impl View for LinkedList {
    type V = Seq<usize>;

    closed spec fn view(&self) -> Seq<usize> {
        self.items@
    }
}

impl LinkedList {
    #[verifier::type_invariant]
    spec fn head_is_first(self) -> bool {
        self.head.elem == first_item(self.items@)
    }

    /// The links chain the items of the list.
    pub open spec fn wf(&self, links: Seq<ListNode>) -> bool {
        chain_wf(links, self@)
    }

    /// An empty list.
    pub fn new() -> (l: LinkedList)
        ensures
            l@ == Seq::<usize>::empty(),
    {
        LinkedList { head: ListNode::new(), items: Ghost(Seq::empty()) }
    }

    /// The first item.
    pub fn head(&self) -> (r: Option<usize>)
        ensures
            r == first_item(self@),
    {
        proof {
            use_type_invariant(self);
        }
        self.head.elem
    }

    /// A walk over the items, from the first.
    pub fn iter(&self) -> (it: ListIterator)
        ensures
            it.curr == first_item(self@),
    {
        proof {
            use_type_invariant(self);
        }
        ListIterator { curr: self.head.elem }
    }

    /// Puts `node` first.
    pub fn push_front(&mut self, links: &mut Vec<ListNode>, node: usize)
        requires
            old(self).wf(old(links)@),
            node < old(links)@.len(),
            !old(self)@.contains(node),
        ensures
            final(self)@ == seq![node] + old(self)@,
            final(self).wf(final(links)@),
            final(links)@ == old(links)@.update(node as int, ListNode { elem: first_item(old(self)@) }),
    {
        proof {
            use_type_invariant(&*self);
        }
        let ghost s = self@;
        links.set(node, ListNode { elem: self.head.elem });
        let ghost t = seq![node] + s;
        proof {
            assert forall|i: int| 0 <= i < s.len() implies s[i] != node by {}
            assert forall|i: int, j: int| 0 <= i < t.len() && 0 <= j < t.len() && i != j implies t[i] != t[j] by {
                if i > 0 && j > 0 {
                    assert(t[i] == s[i - 1] && t[j] == s[j - 1]);
                } else if i == 0 {
                    assert(t[j] == s[j - 1]);
                } else {
                    assert(t[i] == s[i - 1]);
                }
            }
            assert forall|i: int| 0 <= i < t.len() implies #[trigger] chained_at(links@, t, i) by {
                if i > 0 {
                    assert(t[i] == s[i - 1]);
                    assert(chained_at(old(links)@, s, i - 1));
                    if i + 1 < t.len() {
                        assert(t[i + 1] == s[i]);
                    }
                } else if t.len() > 1 {
                    assert(t[1] == s[0]);
                }
            }
        }
        *self = LinkedList { head: ListNode { elem: Some(node) }, items: Ghost(t) };
    }
    /// The last item, found by walking the whole chain.
    fn last(&self, links: &Vec<ListNode>) -> (r: Option<usize>)
        requires
            self.wf(links@),
        ensures
            r == (if self@.len() == 0 {
                None
            } else {
                Some(self@[self@.len() - 1])
            }),
    {
        let mut it = self.iter();
        let mut last: Option<usize> = None;
        let ghost mut i: int = 0;
        loop
            invariant
                self.wf(links@),
                0 <= i <= self@.len(),
                it.curr == (if i < self@.len() { Some(self@[i]) } else { None::<usize> }),
                last == (if i == 0 { None::<usize> } else { Some(self@[i - 1]) }),
            ensures
                last == (if self@.len() == 0 { None::<usize> } else { Some(self@[self@.len() - 1]) }),
            decreases self@.len() - i,
        {
            proof {
                if i < self@.len() {
                    assert(chained_at(links@, self@, i));
                }
            }
            match it.next(links) {
                Some(x) => {
                    last = Some(x);
                    proof {
                        i = i + 1;
                    }
                },
                None => {
                    break ;
                },
            }
        }
        last
    }

    /// Puts `node` last: it links to none, and the old last item, or the
    /// head when the list is empty, links to it.
    pub fn push_back(&mut self, links: &mut Vec<ListNode>, node: usize)
        requires
            old(self).wf(old(links)@),
            node < old(links)@.len(),
            !old(self)@.contains(node),
        ensures
            final(self)@ == old(self)@.push(node),
            final(self).wf(final(links)@),
            final(links)@ == (if old(self)@.len() == 0 {
                old(links)@.update(node as int, ListNode { elem: None })
            } else {
                old(links)@.update(node as int, ListNode { elem: None }).update(
                    old(self)@[old(self)@.len() - 1] as int,
                    ListNode { elem: Some(node) },
                )
            }),
    {
        let ghost s = self@;
        links.set(node, ListNode { elem: None });
        proof {
            assert forall|i: int| 0 <= i < s.len() implies #[trigger] chained_at(links@, s, i) by {
                assert(chained_at(old(links)@, s, i));
            }
        }
        match self.last(links) {
            Some(tail) => {
                proof {
                    assert(chained_at(links@, s, s.len() - 1));
                }
                let ghost l1 = links@;
                links.set(tail, ListNode { elem: Some(node) });
                proof {
                    use_type_invariant(&*self);
                }
                let ghost t = s.push(node);
                proof {
                    let n = s.len() - 1;
                    assert forall|i: int, j: int| 0 <= i < t.len() && 0 <= j < t.len() && i != j implies t[i] != t[j] by {
                        if i < s.len() && j < s.len() {
                            assert(t[i] == s[i] && t[j] == s[j]);
                        } else if i == s.len() {
                            assert(t[j] == s[j]);
                        } else {
                            assert(t[i] == s[i]);
                        }
                    }
                    assert(s[n] != node);
                    assert forall|i: int| 0 <= i < t.len() implies #[trigger] chained_at(links@, t, i) by {
                        if i < s.len() {
                            assert(t[i] == s[i]);
                            assert(chained_at(old(links)@, s, i));
                            assert(s[i] != node);
                            if i < n {
                                assert(s[i] != s[n]);
                                assert(t[i + 1] == s[i + 1]);
                                assert(links@[s[i] as int] == old(links)@[s[i] as int]);
                            } else {
                                assert(links@[s[i] as int] == ListNode { elem: Some(node) });
                            }
                        } else {
                            assert(t[i] == node);
                            assert(links@[node as int] == l1[node as int]);
                        }
                    }
                }
                *self = LinkedList { head: self.head, items: Ghost(t) };
            },
            None => {
                self.push_front(links, node);
                proof {
                    assert(seq![node] + s =~= s.push(node));
                }
            },
        }
    }

    /// Takes the first item off; the head then links to the item it linked
    /// to. The item keeps its own link.
    pub fn pop_front(&mut self, links: &Vec<ListNode>) -> (r: Option<usize>)
        requires
            old(self).wf(links@),
        ensures
            r == first_item(old(self)@),
            final(self)@ == (if old(self)@.len() == 0 {
                old(self)@
            } else {
                old(self)@.drop_first()
            }),
            final(self).wf(links@),
    {
        proof {
            use_type_invariant(&*self);
        }
        let ghost s = self@;
        let remove = self.head.elem;
        match remove {
            Some(node) => {
                proof {
                    assert(chained_at(links@, s, 0));
                }
                let next = links[node].elem;
                let ghost t = s.drop_first();
                proof {
                    assert forall|i: int, j: int| 0 <= i < t.len() && 0 <= j < t.len() && i != j implies t[i] != t[j] by {
                        assert(t[i] == s[i + 1] && t[j] == s[j + 1]);
                    }
                    assert forall|i: int| 0 <= i < t.len() implies #[trigger] chained_at(links@, t, i) by {
                        assert(chained_at(links@, s, i + 1));
                        assert(t[i] == s[i + 1]);
                        if i + 1 < t.len() {
                            assert(t[i + 1] == s[i + 2]);
                        }
                    }
                }
                *self = LinkedList { head: ListNode { elem: next }, items: Ghost(t) };
            },
            None => {},
        }
        remove
    }
}

} // verus!
