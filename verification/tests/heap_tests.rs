use rtos_kernel::heap::{align_up_16_bit, Heap, HeapNode, HeapNodeStatus, LockedHeap, HEAP_NODE_SIZE};

fn node(addr: usize, status: HeapNodeStatus, size: usize, prev: Option<usize>) -> HeapNode {
    HeapNode { addr, status, size, prev }
}

fn fresh_heap() -> Heap {
    let mut h = Heap::new();
    h.init(0x1000, 0x1000);
    h
}

#[test]
fn init_makes_one_free_block_and_the_tail() {
    let h = fresh_heap();
    assert_eq!(
        h.nodes().clone(),
        vec![
            node(0x1000, HeapNodeStatus::Free, 0x1000, None),
            node(0x1FF0, HeapNodeStatus::Tail, 0, Some(0x1000))
        ]
    );
    assert_eq!(h.counts(), (0x1000, 2 * HEAP_NODE_SIZE, 0x1000 - 2 * HEAP_NODE_SIZE));
}

#[test]
fn requests_are_rounded_up_to_16_bytes() {
    assert_eq!(align_up_16_bit(0), 0);
    assert_eq!(align_up_16_bit(1), 16);
    assert_eq!(align_up_16_bit(16), 16);
    assert_eq!(align_up_16_bit(17), 32);
    assert_eq!(align_up_16_bit(100), 112);
}

#[test]
fn allocate_splits_the_first_free_block() {
    let mut h = fresh_heap();
    assert!(h.can_allocate(100));
    assert_eq!(h.allocate(100), Ok(0x1010));
    // The new free block is linked in the way the node level insert does:
    // its back link names itself, and the tail keeps its back link.
    assert_eq!(
        h.nodes().clone(),
        vec![
            node(0x1000, HeapNodeStatus::Used, 112, None),
            node(0x1080, HeapNodeStatus::Free, 0x1000 - 112, Some(0x1080)),
            node(0x1FF0, HeapNodeStatus::Tail, 0, Some(0x1000)),
        ]
    );
    assert_eq!(h.counts(), (0x1000, 32 + 128, 0x1000 - 32 - 128));
}

#[test]
fn allocate_fails_when_no_block_fits() {
    let mut h = fresh_heap();
    assert_eq!(h.find_first_free_node(0x2000), None);
    assert_eq!(h.allocate(0x2000), Err(()));
    assert_eq!(h.counts(), (0x1000, 32, 0x1000 - 32));
}

#[test]
fn deallocate_merges_with_a_free_successor() {
    let mut h = fresh_heap();
    let p = h.allocate(100).unwrap();
    assert!(h.can_deallocate(p));
    h.deallocate(p);
    assert_eq!(
        h.nodes().clone(),
        vec![
            node(0x1000, HeapNodeStatus::Free, 112 + (0x1000 - 112) + 16, None),
            node(0x1FF0, HeapNodeStatus::Tail, 0, Some(0x1080)),
        ]
    );
    assert_eq!(h.counts().1, 32);
    assert_eq!(h.counts().2, 0x1000 - 32 - 128 + 128 + 16);
}

#[test]
fn deallocate_refuses_unknown_addresses() {
    let mut h = fresh_heap();
    let _ = h.allocate(100).unwrap();
    assert!(!h.can_deallocate(5));
    assert!(!h.can_deallocate(0x1234));
}

#[test]
fn first_fit_takes_the_lowest_free_block() {
    let mut h = fresh_heap();
    let a = h.allocate(16).unwrap();
    let b = h.allocate(16).unwrap();
    assert_eq!((a, b), (0x1010, 0x1030));
    h.deallocate(a);
    assert_eq!(h.find_first_free_node(16), Some(0));
    assert_eq!(h.allocate(16), Ok(0x1010));
}

#[test]
fn merge_joins_both_free_neighbours() {
    let mut blocks = vec![
        node(0, HeapNodeStatus::Free, 32, None),
        node(48, HeapNodeStatus::Free, 16, Some(0)),
        node(80, HeapNodeStatus::Free, 64, Some(48)),
        node(160, HeapNodeStatus::Tail, 0, Some(80)),
    ];
    assert_eq!(HeapNode::merge(&mut blocks, 1), 2);
    assert_eq!(
        blocks,
        vec![node(0, HeapNodeStatus::Free, 32 + 16 + 64 + 32, None), node(160, HeapNodeStatus::Tail, 0, Some(0))]
    );
}

#[test]
fn merge_leaves_used_neighbours_alone() {
    let mut blocks = vec![
        node(0, HeapNodeStatus::Used, 32, None),
        node(48, HeapNodeStatus::Free, 16, Some(0)),
        node(80, HeapNodeStatus::Used, 64, Some(48)),
    ];
    assert_eq!(HeapNode::merge(&mut blocks, 1), 0);
    assert_eq!(blocks[1], node(48, HeapNodeStatus::Free, 16, Some(0)));
}

#[test]
fn merge_follows_a_back_link_past_the_block_before() {
    let mut blocks = vec![
        node(0, HeapNodeStatus::Free, 32, None),
        node(48, HeapNodeStatus::Used, 16, Some(48)),
        node(80, HeapNodeStatus::Free, 64, Some(0)),
        node(160, HeapNodeStatus::Tail, 0, Some(80)),
    ];
    // The back link of block 2 names block 0, which is free: block 0 takes
    // it in and links on to the tail, so block 1 leaves the chain.
    assert_eq!(HeapNode::merge(&mut blocks, 2), 1);
    assert_eq!(
        blocks,
        vec![node(0, HeapNodeStatus::Free, 32 + 64 + 16, None), node(160, HeapNodeStatus::Tail, 0, Some(0))]
    );
}

#[test]
fn insert_after_links_a_block_in() {
    let mut blocks = vec![node(0, HeapNodeStatus::Free, 32, None), node(64, HeapNodeStatus::Tail, 0, Some(0))];
    HeapNode::insert_after(&mut blocks, 0, node(48, HeapNodeStatus::Used, 0, None));
    assert_eq!(blocks[1], node(48, HeapNodeStatus::Used, 0, Some(48)));
    assert_eq!(blocks[2], node(64, HeapNodeStatus::Tail, 0, Some(0)));
    assert_eq!(blocks.len(), 3);
    let mut n = HeapNode::new(8, 16).unwrap();
    n.set_status(HeapNodeStatus::Tail);
    assert_eq!(n, node(8, HeapNodeStatus::Tail, 16, None));
}

#[test]
fn locked_heap_hands_out_and_takes_back() {
    let mut l = LockedHeap::new();
    l.init(0x4000, 0x400);
    let p = l.alloc_bytes(24);
    assert_eq!(p, 0x4010);
    assert_eq!(l.lock().nodes()[0], node(0x4000, HeapNodeStatus::Used, 32, None));
    l.dealloc(p);
    assert_eq!(l.lock().nodes()[0], node(0x4000, HeapNodeStatus::Free, 32 + 992 + 16, None));
    assert_eq!(l.alloc_bytes(0x1000), 0);
}

#[test]
fn heap_status_names() {
    assert_eq!(HeapNodeStatus::Used.as_str(), "Used");
    assert_eq!(HeapNodeStatus::Free.as_str(), "Free");
    assert_eq!(HeapNodeStatus::Tail.as_str(), "Tail");
}

#[test]
fn freeing_a_block_split_off_merges_it_into_itself() {
    let mut h = fresh_heap();
    let p = h.allocate(48).unwrap();
    let q = h.allocate(16).unwrap();
    assert_eq!(q, p + 48 + HEAP_NODE_SIZE);
    assert!(h.can_deallocate(q));
    h.deallocate(q);
    // The block at q was split off, so its back link names itself: after
    // taking in its free successor it merges into itself, its size doubling
    // plus a header.
    let grown = 16 + (0x1000 - 48 - 16) + 16;
    assert_eq!(
        h.nodes().clone(),
        vec![
            node(p - HEAP_NODE_SIZE, HeapNodeStatus::Used, 48, None),
            node(q - HEAP_NODE_SIZE, HeapNodeStatus::Free, grown + grown + 16, Some(q - HEAP_NODE_SIZE)),
            node(0x1FF0, HeapNodeStatus::Tail, 0, Some(q - HEAP_NODE_SIZE)),
        ]
    );
    assert_eq!(h.counts(), (0x1000, 32 + 64, 0x1000 - 32 - 64 - 32 + 32 + 32));
}

#[test]
fn self_merges_can_grow_a_block_past_the_tail() {
    let mut h = fresh_heap();
    let a = h.allocate(16).unwrap();
    let b = h.allocate(16).unwrap();
    h.deallocate(a);
    h.deallocate(b);
    assert_eq!(
        h.nodes().clone(),
        vec![
            node(0x1000, HeapNodeStatus::Free, 16, None),
            node(0x1020, HeapNodeStatus::Free, 8208, Some(0x1020)),
            node(0x1FF0, HeapNodeStatus::Tail, 0, Some(0x1020)),
        ]
    );
    assert_eq!(h.counts(), (0x1000, 32, 4096));
    assert_eq!(h.allocate(4064), Ok(0x1030));
    assert_eq!(h.nodes()[1], node(0x1020, HeapNodeStatus::Used, 4064, Some(0x1020)));
    assert_eq!(h.nodes()[2], node(0x2010, HeapNodeStatus::Free, 4144, Some(0x2010)));
    assert_eq!(h.nodes()[3], node(0x1FF0, HeapNodeStatus::Tail, 0, Some(0x1020)));
}
