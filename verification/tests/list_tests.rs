use rtos_kernel::list::{Cursor, CursorMut, LinkedList, ListNode, ListPtr, NodePool};

#[test]
fn push_back_then_pop_front_gives_fifo_order() {
    let mut pool = NodePool::new(4);
    let mut list = LinkedList::new();
    list.push_back(&mut pool, ListPtr(0));
    list.push_back(&mut pool, ListPtr(2));
    list.push_back(&mut pool, ListPtr(1));
    assert_eq!(list.head(), Some(ListPtr(0)));
    assert_eq!(list.tail(&pool), Some(ListPtr(1)));
    assert_eq!(list.pop_front(&mut pool), Some(ListPtr(0)));
    assert_eq!(pool.node(ListPtr(0)), ListNode::new());
    assert_eq!(list.pop_front(&mut pool), Some(ListPtr(2)));
    assert_eq!(list.pop_front(&mut pool), Some(ListPtr(1)));
    assert_eq!(list.pop_front(&mut pool), None);
    assert!(list.is_empty());
}

#[test]
fn push_front_puts_node_first_and_links_both_ways() {
    let mut pool = NodePool::new(3);
    let mut list = LinkedList::new();
    list.push_front(&mut pool, ListPtr(1));
    list.push_front(&mut pool, ListPtr(2));
    assert_eq!(list.to_vec(&pool), vec![ListPtr(2), ListPtr(1)]);
    assert!(list.is_head(ListPtr(2)));
    assert!(!list.is_head(ListPtr(1)));
    assert_eq!(pool.node(ListPtr(2)), ListNode { prev: None, next: Some(ListPtr(1)) });
    assert_eq!(pool.node(ListPtr(1)), ListNode { prev: Some(ListPtr(2)), next: None });
}

#[test]
fn insert_after_and_detach_keep_the_order() {
    let mut pool = NodePool::new(5);
    let mut list = LinkedList::new();
    list.push_back(&mut pool, ListPtr(0));
    list.push_back(&mut pool, ListPtr(1));
    list.insert_after(&mut pool, ListPtr(0), ListPtr(4));
    assert_eq!(list.to_vec(&pool), vec![ListPtr(0), ListPtr(4), ListPtr(1)]);
    assert_eq!(pool.node(ListPtr(1)).prev, Some(ListPtr(4)));
    list.detach(&mut pool, ListPtr(4));
    assert_eq!(list.to_vec(&pool), vec![ListPtr(0), ListPtr(1)]);
    assert_eq!(pool.node(ListPtr(4)), ListNode::new());
    assert_eq!(pool.node(ListPtr(0)).next, Some(ListPtr(1)));
    assert_eq!(pool.node(ListPtr(1)).prev, Some(ListPtr(0)));
    list.detach(&mut pool, ListPtr(0));
    assert_eq!(list.to_vec(&pool), vec![ListPtr(1)]);
    assert_eq!(list.head(), Some(ListPtr(1)));
    assert_eq!(pool.node(ListPtr(1)).prev, None);
}

#[test]
fn empty_list_has_no_head_or_tail() {
    let pool = NodePool::new(2);
    let list = LinkedList::new();
    assert!(list.is_empty());
    assert_eq!(list.head(), None);
    assert_eq!(list.tail(&pool), None);
    assert_eq!(list.to_vec(&pool), Vec::<ListPtr>::new());
}

#[test]
fn node_level_insert_makes_the_node_its_own_predecessor() {
    let mut pool = NodePool::new(3);
    ListPtr(0).insert(&mut pool, ListPtr(2));
    ListNode::insert(&mut pool, ListPtr(0), ListPtr(1));
    assert_eq!(pool.node(ListPtr(0)).next, Some(ListPtr(1)));
    assert_eq!(pool.node(ListPtr(1)), ListNode { prev: Some(ListPtr(1)), next: Some(ListPtr(2)) });
    assert_eq!(pool.node(ListPtr(2)).prev, Some(ListPtr(0)));
}

#[test]
fn pointer_level_insert_links_between_neighbours() {
    let mut pool = NodePool::new(3);
    ListPtr(0).insert(&mut pool, ListPtr(2));
    ListPtr(0).insert(&mut pool, ListPtr(1));
    assert_eq!(ListPtr(0).next(&pool), Some(ListPtr(1)));
    assert_eq!(ListPtr(1).prev(&pool), Some(ListPtr(0)));
    assert_eq!(ListPtr(1).next(&pool), Some(ListPtr(2)));
    assert_eq!(ListPtr(2).prev(&pool), Some(ListPtr(1)));
    assert_eq!(ListPtr::new(7), Some(ListPtr(7)));
}

#[test]
fn cursors_walk_and_link_in() {
    let mut pool = NodePool::new(3);
    let mut cm = CursorMut::from(Some(ListPtr(0)));
    cm.insert_after(&mut pool, ListPtr(1));
    assert_eq!(cm.list, Some(ListPtr(0)));
    let mut c = Cursor::from(Some(ListPtr(0)));
    c.move_next(&pool);
    assert_eq!(c.list, Some(ListPtr(1)));
    c.move_prev(&pool);
    assert_eq!(c.list, Some(ListPtr(0)));
    c.move_prev(&pool);
    assert_eq!(c.list, None);
    c.move_next(&pool);
    assert_eq!(c.list, None);
    let mut none = CursorMut::from(None);
    none.insert_after(&mut pool, ListPtr(2));
    assert_eq!(pool.node(ListPtr(2)), ListNode::new());
}

#[test]
fn node_links_are_set_one_at_a_time() {
    let mut n = ListNode::new();
    assert_eq!(ListNode::default(), n);
    assert!(!n.is_link());
    n.set_next(Some(ListPtr(3)));
    assert!(!n.is_link());
    n.set_prev(Some(ListPtr(1)));
    assert!(n.is_link());
    assert_eq!(n.next(), Some(ListPtr(3)));
    assert_eq!(n.prev(), Some(ListPtr(1)));
    let mut pool = NodePool::new(2);
    assert_eq!(pool.len(), 2);
    ListPtr(1).set_next(&mut pool, Some(ListPtr(0)));
    ListPtr(1).set_prev(&mut pool, None);
    assert_eq!(pool.node(ListPtr(1)), ListNode { prev: None, next: Some(ListPtr(0)) });
}

#[test]
fn lists_sharing_a_pool_do_not_disturb_each_other() {
    let mut pool = NodePool::new(6);
    let mut a = LinkedList::new();
    let mut b = LinkedList::new();
    a.push_back(&mut pool, ListPtr(0));
    a.push_back(&mut pool, ListPtr(1));
    b.push_back(&mut pool, ListPtr(4));
    b.push_back(&mut pool, ListPtr(5));
    a.push_back(&mut pool, ListPtr(2));
    a.detach(&mut pool, ListPtr(1));
    b.pop_front(&mut pool);
    assert_eq!(a.to_vec(&pool), vec![ListPtr(0), ListPtr(2)]);
    assert_eq!(b.to_vec(&pool), vec![ListPtr(5)]);
    assert_eq!(b.tail(&pool), Some(ListPtr(5)));
}

#[test]
fn detaching_the_node_pushed_last_gives_the_list_back() {
    let mut pool = NodePool::new(4);
    let mut list = LinkedList::new();
    list.push_back(&mut pool, ListPtr(3));
    list.push_back(&mut pool, ListPtr(1));
    let before = list.to_vec(&pool);
    list.push_back(&mut pool, ListPtr(2));
    list.detach(&mut pool, ListPtr(2));
    assert_eq!(list.to_vec(&pool), before);
    assert_eq!(pool.node(ListPtr(1)).next, None);
}
