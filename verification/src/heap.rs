//! The kernel heap: a first-fit allocator over a chain of blocks, each with
//! a header of `HEAP_NODE_SIZE` bytes, linked forward from the bottom and
//! ending with a tail block. Each header also holds a back link, kept as the
//! list operations write it; freeing a block merges it into the block its
//! back link names.
use vstd::prelude::*;

verus! {

/// The size of a block header on the 32-bit target.
pub const HEAP_NODE_SIZE: usize = 16;

/// Whether a block is handed out, free, or the tail that closes the chain.
#[derive(Clone, Copy, PartialEq, Eq, Structural, Debug)]
pub enum HeapNodeStatus {
    Used,
    Free,
    Tail,
}

impl HeapNodeStatus {
    /// The status as text.
    pub fn as_str(&self) -> (s: &'static str)
        ensures
            *self == HeapNodeStatus::Used ==> s@ == "Used"@,
            *self == HeapNodeStatus::Free ==> s@ == "Free"@,
            *self == HeapNodeStatus::Tail ==> s@ == "Tail"@,
    {
        match self {
            HeapNodeStatus::Used => "Used",
            HeapNodeStatus::Free => "Free",
            HeapNodeStatus::Tail => "Tail",
        }
    }
}

/// A block: the address of its header, its state, the size of the memory
/// after the header, and the back link its header holds (the address of the
/// header it names as its predecessor). The blocks of a heap are kept in the
/// order of their forward links; the back links are kept as the heap writes
/// them, which need not name the block before.
#[derive(Clone, Copy, PartialEq, Eq, Structural, Debug)]
pub struct HeapNode {
    pub addr: usize,
    pub status: HeapNodeStatus,
    pub size: usize,
    pub prev: Option<usize>,
}

/// A request rounded up to a multiple of 16 bytes.
pub open spec fn align_up_16(size: usize) -> int {
    if size % 16 == 0 {
        size as int
    } else {
        size - size % 16 + 16
    }
}

/// Rounds `size` up to a multiple of 16.
pub fn align_up_16_bit(size: usize) -> (r: usize)
    requires
        size <= usize::MAX - 15,
    ensures
        r == align_up_16(size),
{
    if size & 0x0F == 0 {
        proof {
            assert(size & 0x0F == size % 16) by (bit_vector);
        }
        size
    } else {
        proof {
            assert(size & 0x0F == size % 16) by (bit_vector);
            assert(size & !0x0Fusize == size - size % 16) by (bit_vector);
        }
        (size & !0x0Fusize) + 0x10
    }
}

/// Block `b` is free and holds at least `a` bytes.
pub open spec fn fits(b: HeapNode, a: int) -> bool {
    b.status == HeapNodeStatus::Free && b.size >= a
}

/// `i` is the first block of `blocks` that fits `a` bytes.
pub open spec fn is_first_fit(blocks: Seq<HeapNode>, a: int, i: int) -> bool {
    &&& 0 <= i < blocks.len()
    &&& fits(blocks[i], a)
    &&& forall|j: int| 0 <= j < i ==> !fits(#[trigger] blocks[j], a)
}

/// The first block of `blocks` that fits `a` bytes, if any.
pub open spec fn first_fit(blocks: Seq<HeapNode>, a: int) -> Option<int> {
    if exists|i: int| is_first_fit(blocks, a, i) {
        Some(choose|i: int| is_first_fit(blocks, a, i))
    } else {
        None
    }
}

/// There is at most one first fit.
pub proof fn lemma_first_fit_unique(blocks: Seq<HeapNode>, a: int, i: int)
    requires
        is_first_fit(blocks, a, i),
    ensures
        first_fit(blocks, a) == Some(i),
{
    let k = choose|k: int| is_first_fit(blocks, a, k);
    if k < i {
        assert(!fits(blocks[k], a));
    } else if i < k {
        assert(!fits(blocks[i], a));
    }
}

/// A first fit that exists is a first fit.
pub proof fn lemma_first_fit_some(blocks: Seq<HeapNode>, a: int)
    ensures
        first_fit(blocks, a) matches Some(i) ==> is_first_fit(blocks, a, i),
{
}

/// The blocks after handing out block `i` for `a` bytes: it becomes used
/// with size `a`, and when more than a header and 16 bytes remain, a free
/// block of the remaining size starts right after the `a` bytes. It is linked
/// in as `insert_after` does: its back link names its own header.
pub open spec fn split_blocks(blocks: Seq<HeapNode>, i: int, a: int) -> Seq<HeapNode> {
    let b = blocks[i];
    let remain = b.size - a;
    let used = HeapNode { status: HeapNodeStatus::Used, size: a as usize, ..b };
    let raddr = (b.addr + HEAP_NODE_SIZE + a) as usize;
    if remain > HEAP_NODE_SIZE + 16 {
        blocks.update(i, used).insert(
            i + 1,
            HeapNode { addr: raddr, status: HeapNodeStatus::Free, size: remain as usize, prev: Some(raddr) },
        )
    } else {
        blocks.update(i, used)
    }
}

/// The blocks after block `i` absorbed its successor, which is free: its
/// size grows by the successor's and a header, and the block after the
/// successor takes over the successor's back link.
pub open spec fn merge_next(blocks: Seq<HeapNode>, i: int) -> Seq<HeapNode> {
    let b = blocks[i];
    let n = blocks[i + 1];
    let t = blocks.update(i, HeapNode { size: (b.size + n.size + HEAP_NODE_SIZE) as usize, ..b }).remove(i + 1);
    if i + 1 < t.len() {
        t.update(i + 1, HeapNode { prev: n.prev, ..t[i + 1] })
    } else {
        t
    }
}

/// The block that the back link of block `i` names: itself when it names
/// its own header, else the first block whose header is at that address.
pub open spec fn prev_of(blocks: Seq<HeapNode>, i: int) -> Option<int> {
    match blocks[i].prev {
        None => None,
        Some(p) => if p == blocks[i].addr {
            Some(i)
        } else {
            block_at(blocks, p as int)
        },
    }
}

/// The blocks after block `i` went into block `j` (at or before it), which
/// is free: `j` grows by the size of `i` and a header and links forward to
/// what followed `i`, so the blocks after `j` up to `i` leave the chain; the
/// block after `i` takes over the back link of `i`. (When `j` is `i`, the
/// block grows by its own size.)
pub open spec fn merge_into(blocks: Seq<HeapNode>, j: int, i: int) -> Seq<HeapNode> {
    let c = blocks[i];
    let pj = blocks[j];
    let grown = HeapNode { size: (pj.size + c.size + HEAP_NODE_SIZE) as usize, ..pj };
    let rest = blocks.subrange(i + 1, blocks.len() as int);
    let rest2 = if rest.len() > 0 {
        rest.update(0, HeapNode { prev: c.prev, ..rest[0] })
    } else {
        rest
    };
    blocks.subrange(0, j).push(grown) + rest2
}

/// What absorbing the successor of block `i` leaves in each place.
pub proof fn lemma_merge_next(blocks: Seq<HeapNode>, i: int)
    requires
        0 <= i,
        i + 1 < blocks.len(),
    ensures
        merge_next(blocks, i).len() == blocks.len() - 1,
        forall|k: int| 0 <= k < i ==> #[trigger] merge_next(blocks, i)[k] == blocks[k],
        merge_next(blocks, i)[i] == (HeapNode {
            size: (blocks[i].size + blocks[i + 1].size + HEAP_NODE_SIZE) as usize,
            ..blocks[i]
        }),
        i + 2 < blocks.len() ==> merge_next(blocks, i)[i + 1] == (HeapNode { prev: blocks[i + 1].prev, ..blocks[i + 2] }),
        forall|k: int| i + 1 < k < blocks.len() - 1 ==> #[trigger] merge_next(blocks, i)[k] == blocks[k + 1],
{
    let u = blocks.update(i, HeapNode { size: (blocks[i].size + blocks[i + 1].size + HEAP_NODE_SIZE) as usize, ..blocks[i] });
    u.remove_ensures(i + 1);
}

/// The blocks after block `i` absorbed its successor, if that is free.
pub open spec fn after_next(blocks: Seq<HeapNode>, i: int) -> Seq<HeapNode> {
    if i + 1 < blocks.len() && blocks[i + 1].status == HeapNodeStatus::Free {
        merge_next(blocks, i)
    } else {
        blocks
    }
}

/// The blocks after block `i` merged: first a free successor is absorbed,
/// then the block goes into the block its back link names, if that is free
/// (itself included). Also the number of merges.
pub open spec fn merged(blocks: Seq<HeapNode>, i: int) -> (Seq<HeapNode>, nat) {
    let next_free = i + 1 < blocks.len() && blocks[i + 1].status == HeapNodeStatus::Free;
    let s1 = after_next(blocks, i);
    let n1: nat = if next_free { 1 } else { 0 };
    match prev_of(s1, i) {
        Some(j) => if s1[j].status == HeapNodeStatus::Free {
            (merge_into(s1, j, i), n1 + 1)
        } else {
            (s1, n1)
        },
        None => (s1, n1),
    }
}

/// A merge of block `i` is within what the heap keeps: the sizes it adds up
/// fit in a `usize`, and a back link of the block names its own header or a
/// block of the chain at or before it (not the header of a block merged
/// away, whose memory the heap no longer keeps).
pub open spec fn merge_fits(blocks: Seq<HeapNode>, i: int) -> bool {
    let next_free = i + 1 < blocks.len() && blocks[i + 1].status == HeapNodeStatus::Free;
    let s1 = after_next(blocks, i);
    &&& next_free ==> blocks[i].size + blocks[i + 1].size + HEAP_NODE_SIZE <= usize::MAX
    &&& s1[i].prev is Some ==> prev_of(s1, i) is Some
    &&& prev_of(s1, i) matches Some(j) ==> {
        &&& j <= i
        &&& s1[j].status == HeapNodeStatus::Free ==> s1[j].size + s1[i].size + HEAP_NODE_SIZE
            <= usize::MAX
    }
}

impl HeapNode {
    /// A free block at `addr` of `size` bytes.
    pub fn new(addr: usize, size: usize) -> (r: Option<HeapNode>)
        ensures
            r == Some(HeapNode { addr, status: HeapNodeStatus::Free, size, prev: None }),
    {
        Some(HeapNode { addr, status: HeapNodeStatus::Free, size, prev: None })
    }

    /// Sets the state of the block.
    pub fn set_status(&mut self, status: HeapNodeStatus)
        ensures
            *final(self) == (HeapNode { status, ..*old(self) }),
    {
        self.status = status;
    }

    /// Merges block `i`: a free successor is absorbed into it, then it goes
    /// into the block its back link names, if that is free. Returns the
    /// number of merges.
    pub fn merge(blocks: &mut Vec<HeapNode>, i: usize) -> (n: usize)
        requires
            i < old(blocks)@.len(),
            merge_fits(old(blocks)@, i as int),
        ensures
            (final(blocks)@, n as nat) == merged(old(blocks)@, i as int),
    {
        let ghost b0 = blocks@;
        let mut n: usize = 0;
        if absorb_next(blocks, i) {
            n = 1;
        }
        let ghost s1 = blocks@;
        proof {
            if i + 1 < b0.len() && b0[i + 1].status == HeapNodeStatus::Free {
                lemma_merge_next(b0, i as int);
            }
            assert(s1 == after_next(b0, i as int));
        }
        let cur = blocks[i];
        if let Some(p) = cur.prev {
            let found = if p == cur.addr {
                Some(i)
            } else {
                header_at(blocks, p)
            };
            if let Some(j) = found {
                if blocks[j].status == HeapNodeStatus::Free {
                    join(blocks, j, i);
                    n = n + 1;
                }
            }
        }
        n
    }

    /// Links `node` into the chain right after block `at` the way the node
    /// level insert does: its back link names its own header, and the block
    /// after it keeps its back link.
    pub fn insert_after(blocks: &mut Vec<HeapNode>, at: usize, node: HeapNode)
        requires
            at < old(blocks)@.len(),
        ensures
            final(blocks)@ == old(blocks)@.insert(at + 1, HeapNode { prev: Some(node.addr), ..node }),
    {
        let n = blocks.len();
        assert(at < n);
        blocks.insert(at + 1, HeapNode { prev: Some(node.addr), ..node });
    }
}

/// Absorbs the successor of block `i` when it is free; says whether it did.
fn absorb_next(blocks: &mut Vec<HeapNode>, i: usize) -> (m: bool)
    requires
        i < old(blocks)@.len(),
        (i + 1 < old(blocks)@.len() && old(blocks)@[i + 1].status == HeapNodeStatus::Free) ==> old(blocks)@[i as int].size
            + old(blocks)@[i + 1].size + HEAP_NODE_SIZE <= usize::MAX,
    ensures
        m == (i + 1 < old(blocks)@.len() && old(blocks)@[i + 1].status == HeapNodeStatus::Free),
        final(blocks)@ == after_next(old(blocks)@, i as int),
{
    let len = blocks.len();
    if i < len - 1 {
        let next = blocks[i + 1];
        if next.status == HeapNodeStatus::Free {
            let mut cur = blocks[i];
            cur.size = cur.size + next.size + HEAP_NODE_SIZE;
            blocks.set(i, cur);
            blocks.remove(i + 1);
            if i < len - 2 {
                let mut nn = blocks[i + 1];
                nn.prev = next.prev;
                blocks.set(i + 1, nn);
            }
            proof {
                assert(blocks@ =~= merge_next(old(blocks)@, i as int));
            }
            return true;
        }
    }
    false
}

/// Puts block `i` into block `j`, at or before it, which is free.
fn join(blocks: &mut Vec<HeapNode>, j: usize, i: usize)
    requires
        j <= i < old(blocks)@.len(),
        old(blocks)@[j as int].size + old(blocks)@[i as int].size + HEAP_NODE_SIZE <= usize::MAX,
    ensures
        final(blocks)@ == merge_into(old(blocks)@, j as int, i as int),
{
    let ghost b = blocks@;
    let len = blocks.len();
    let c = blocks[i];
    let pj = blocks[j];
    let grown = HeapNode { size: pj.size + c.size + HEAP_NODE_SIZE, ..pj };
    let ghost rest = b.subrange(i + 1, b.len() as int);
    let ghost rest2 = if rest.len() > 0 {
        rest.update(0, HeapNode { prev: c.prev, ..rest[0] })
    } else {
        rest
    };
    let mut out: Vec<HeapNode> = Vec::new();
    let mut k: usize = 0;
    while k < j
        invariant
            blocks@ == b,
            k <= j,
            j <= i < b.len(),
            out@ == b.subrange(0, k as int),
        decreases j - k,
    {
        out.push(blocks[k]);
        proof {
            assert(out@ =~= b.subrange(0, k + 1));
        }
        k = k + 1;
    }
    out.push(grown);
    let ghost head = out@;
    let mut k: usize = i + 1;
    while k < len
        invariant
            blocks@ == b,
            len == b.len(),
            i + 1 <= k <= b.len(),
            rest == b.subrange(i + 1, b.len() as int),
            rest2.len() == rest.len(),
            forall|m: int| 0 <= m < rest.len() ==> #[trigger] rest2[m] == (if m == 0 {
                HeapNode { prev: c.prev, ..rest[0] }
            } else {
                rest[m]
            }),
            out@ == head + rest2.subrange(0, k - (i + 1)),
        decreases b.len() - k,
    {
        let mut x = blocks[k];
        if k == i + 1 {
            x.prev = c.prev;
        }
        out.push(x);
        proof {
            assert(out@ =~= head + rest2.subrange(0, k + 1 - (i + 1)));
        }
        k = k + 1;
    }
    proof {
        assert(rest2.subrange(0, rest2.len() as int) =~= rest2);
        assert(out@ =~= merge_into(b, j as int, i as int));
    }
    *blocks = out;
}

/// A copy of the chain.
fn copy_blocks(blocks: &Vec<HeapNode>) -> (r: Vec<HeapNode>)
    ensures
        r@ == blocks@,
{
    let mut r: Vec<HeapNode> = Vec::new();
    let mut k: usize = 0;
    while k < blocks.len()
        invariant
            k <= blocks@.len(),
            r@ == blocks@.subrange(0, k as int),
        decreases blocks@.len() - k,
    {
        r.push(blocks[k]);
        proof {
            assert(r@ =~= blocks@.subrange(0, k + 1));
        }
        k = k + 1;
    }
    proof {
        assert(r@ =~= blocks@);
    }
    r
}

/// The first block whose header is at `addr`.
fn header_at(blocks: &Vec<HeapNode>, addr: usize) -> (r: Option<usize>)
    ensures
        match r {
            Some(i) => block_at(blocks@, addr as int) == Some(i as int),
            None => block_at(blocks@, addr as int) is None,
        },
{
    let mut i: usize = 0;
    while i < blocks.len()
        invariant
            0 <= i <= blocks@.len(),
            forall|j: int| 0 <= j < i ==> #[trigger] blocks@[j].addr != addr,
        decreases blocks@.len() - i,
    {
        if blocks[i].addr == addr {
            proof {
                lemma_block_at(blocks@, addr as int, i as int);
            }
            return Some(i);
        }
        i = i + 1;
    }
    None
}


/// The first block whose header is at `addr`, if any.
pub open spec fn block_at(blocks: Seq<HeapNode>, addr: int) -> Option<int> {
    if exists|i: int| 0 <= i < blocks.len() && blocks[i].addr == addr {
        Some(choose|i: int| 0 <= i < blocks.len() && blocks[i].addr == addr && forall|j: int| 0 <= j < i ==> #[trigger] blocks[j].addr != addr)
    } else {
        None
    }
}

proof fn lemma_block_at_some(blocks: Seq<HeapNode>, addr: int)
    ensures
        block_at(blocks, addr) matches Some(i) ==> 0 <= i < blocks.len() && blocks[i].addr == addr,
{
    if exists|i: int| 0 <= i < blocks.len() && blocks[i].addr == addr {
        let i = choose|i: int| 0 <= i < blocks.len() && blocks[i].addr == addr;
        let m = first_index(blocks, addr, i);
        lemma_block_at(blocks, addr, m);
    }
}

/// Some block at `addr` from `i` on leads to the first one.
proof fn first_index(blocks: Seq<HeapNode>, addr: int, i: int) -> (m: int)
    requires
        0 <= i < blocks.len(),
        blocks[i].addr == addr,
    ensures
        0 <= m <= i,
        blocks[m].addr == addr,
        forall|j: int| 0 <= j < m ==> #[trigger] blocks[j].addr != addr,
    decreases i,
{
    if exists|j: int| 0 <= j < i && blocks[j].addr == addr {
        let j = choose|j: int| 0 <= j < i && blocks[j].addr == addr;
        first_index(blocks, addr, j)
    } else {
        i
    }
}

proof fn lemma_block_at(blocks: Seq<HeapNode>, addr: int, i: int)
    requires
        0 <= i < blocks.len(),
        blocks[i].addr == addr,
        forall|j: int| 0 <= j < i ==> #[trigger] blocks[j].addr != addr,
    ensures
        block_at(blocks, addr) == Some(i),
{
    let k = choose|k: int| 0 <= k < blocks.len() && blocks[k].addr == addr && forall|j: int| 0 <= j < k ==> #[trigger] blocks[j].addr != addr;
    if k < i {
        assert(blocks[k].addr != addr);
    } else if i < k {
        assert(blocks[i].addr != addr);
    }
}

/// No two blocks have their header at the same address.
pub open spec fn headers_distinct(blocks: Seq<HeapNode>) -> bool {
    forall|i: int, j: int|
        0 <= i < j < blocks.len() ==> #[trigger] blocks[i].addr != #[trigger] blocks[j].addr
}

/// The block handed out for `a` bytes from the first fit `i` is the one that
/// taking back its memory finds: in the chain after the split, the first
/// block whose header is where the handed-out memory starts less a header is
/// block `i`, used and of `a` bytes. (The split gives the remaining block the
/// whole rest of the old size, so headers can come to coincide; where they
/// do, an earlier block at the same address would be found instead.)
pub proof fn lemma_allocated_block_found(blocks: Seq<HeapNode>, a: int, i: int)
    requires
        is_first_fit(blocks, a, i),
        0 <= a <= usize::MAX,
        headers_distinct(split_blocks(blocks, i, a)),
    ensures
        block_at(split_blocks(blocks, i, a), blocks[i].addr as int) == Some(i),
        split_blocks(blocks, i, a)[i] == (HeapNode { status: HeapNodeStatus::Used, size: a as usize, ..blocks[i] }),
{
    let s = split_blocks(blocks, i, a);
    let b = blocks[i];
    let used = HeapNode { status: HeapNodeStatus::Used, size: a as usize, ..b };
    let u = blocks.update(i, used);
    if b.size - a > HEAP_NODE_SIZE + 16 {
        let raddr = (b.addr + HEAP_NODE_SIZE + a) as usize;
        let rem = HeapNode { addr: raddr, status: HeapNodeStatus::Free, size: (b.size - a) as usize, prev: Some(raddr) };
        u.insert_ensures(i + 1, rem);
        assert(s == u.insert(i + 1, rem));
        assert(s[i] == used);
    } else {
        assert(s == u);
        assert(s[i] == used);
    }
    assert forall|j: int| 0 <= j < i implies #[trigger] s[j].addr != b.addr by {
        assert(s[j].addr != s[i].addr);
    }
    lemma_block_at(s, b.addr as int, i);
}

/// The heap: its memory, the bytes counted as used and free, and the chain
/// of blocks in the order of their forward links.
pub struct Heap {
    bottom: usize,
    total: usize,
    used: usize,
    free: usize,
    list: Vec<HeapNode>,
}

impl Heap {
    /// The chain of blocks.
    pub closed spec fn blocks(&self) -> Seq<HeapNode> {
        self.list@
    }

    /// The bytes counted as used.
    pub closed spec fn used_bytes(&self) -> usize {
        self.used
    }

    /// The bytes counted as free.
    pub closed spec fn free_bytes(&self) -> usize {
        self.free
    }

    /// The first address of the heap memory.
    pub closed spec fn bottom(&self) -> usize {
        self.bottom
    }

    /// The size of the heap memory.
    pub closed spec fn total(&self) -> usize {
        self.total
    }

    /// Handing out `size` bytes keeps every count and address within a
    /// `usize`.
    pub open spec fn alloc_fits(&self, size: usize) -> bool {
        let a = align_up_16(size);
        &&& size <= usize::MAX - 15
        &&& match first_fit(self.blocks(), a) {
            Some(i) => {
                &&& self.free_bytes() >= a + HEAP_NODE_SIZE
                &&& self.used_bytes() + a + HEAP_NODE_SIZE <= usize::MAX
                &&& self.blocks()[i].addr + HEAP_NODE_SIZE + a <= usize::MAX
            },
            None => true,
        }
    }

    /// Taking back the block handed out at `ptr` keeps every count within a
    /// `usize`; there must be a block whose memory starts at `ptr`.
    pub open spec fn dealloc_fits(&self, ptr: usize) -> bool {
        &&& ptr >= HEAP_NODE_SIZE
        &&& match block_at(self.blocks(), ptr - HEAP_NODE_SIZE) {
            Some(i) => {
                let b = self.blocks()[i];
                let freed = self.blocks().update(i, HeapNode { status: HeapNodeStatus::Free, ..b });
                &&& self.used_bytes() >= b.size + HEAP_NODE_SIZE
                &&& self.free_bytes() + b.size + 3 * HEAP_NODE_SIZE <= usize::MAX
                &&& merge_fits(freed, i)
            },
            None => false,
        }
    }

    /// An empty heap.
    pub fn new() -> (h: Heap)
        ensures
            h.blocks() == Seq::<HeapNode>::empty(),
            h.used_bytes() == 0,
            h.free_bytes() == 0,
            h.bottom() == 0,
            h.total() == 0,
    {
        Heap { bottom: 0, total: 0, used: 0, free: 0, list: Vec::new() }
    }

    /// Takes the memory of `size` bytes at `bottom`: one free block at the
    /// bottom, counted with the whole size, then the tail block in the last
    /// header's room. The two headers count as used.
    pub fn init(&mut self, bottom: usize, size: usize)
        requires
            size >= 2 * HEAP_NODE_SIZE,
            bottom + size <= usize::MAX,
        ensures
            final(self).bottom() == bottom,
            final(self).total() == size,
            final(self).free_bytes() == size - 2 * HEAP_NODE_SIZE,
            final(self).used_bytes() == 2 * HEAP_NODE_SIZE,
            final(self).blocks() == old(self).blocks().push(
                HeapNode { addr: bottom, status: HeapNodeStatus::Free, size, prev: None },
            ).push(
                HeapNode {
                    addr: (bottom + size - HEAP_NODE_SIZE) as usize,
                    status: HeapNodeStatus::Tail,
                    size: 0,
                    prev: Some(bottom),
                },
            ),
    {
        self.bottom = bottom;
        self.total = size;
        self.free = self.total - 2 * HEAP_NODE_SIZE;
        self.used = 2 * HEAP_NODE_SIZE;
        self.list.push(HeapNode::new(self.bottom, self.total).unwrap());
        let mut tail = HeapNode::new(self.bottom + size - HEAP_NODE_SIZE, 0).unwrap();
        tail.set_status(HeapNodeStatus::Tail);
        tail.prev = Some(self.bottom);
        self.list.push(tail);
    }

    /// The chain of blocks, from the bottom (what the heap map shows).
    pub fn nodes(&self) -> (r: &Vec<HeapNode>)
        ensures
            r@ == self.blocks(),
    {
        &self.list
    }

    /// The size of the heap memory, the bytes counted as used, and the bytes
    /// counted as free.
    pub fn counts(&self) -> (r: (usize, usize, usize))
        ensures
            r == (self.total(), self.used_bytes(), self.free_bytes()),
    {
        (self.total, self.used, self.free)
    }

    /// The first block, from the bottom, that is free and holds `size` bytes.
    pub fn find_first_free_node(&self, size: usize) -> (r: Option<usize>)
        requires
            self.blocks().len() > 0,
        ensures
            match r {
                Some(i) => first_fit(self.blocks(), size as int) == Some(i as int),
                None => first_fit(self.blocks(), size as int) is None,
            },
    {
        let mut i: usize = 0;
        loop
            invariant
                self.blocks().len() > 0,
                0 <= i < self.list@.len(),
                forall|j: int| 0 <= j < i ==> !fits(#[trigger] self.list@[j], size as int),
            decreases self.list@.len() - i,
        {
            let node = self.list[i];
            match node.status {
                HeapNodeStatus::Free => {
                    if node.size >= size {
                        proof {
                            lemma_first_fit_unique(self.list@, size as int, i as int);
                        }
                        return Some(i);
                    }
                },
                _ => {},
            }
            if i < self.list.len() - 1 {
                i = i + 1;
            } else {
                proof {
                    assert forall|j: int| 0 <= j < self.list@.len() implies !is_first_fit(self.list@, size as int, j) by {
                        if j < i {
                            assert(!fits(self.list@[j], size as int));
                        }
                    }
                }
                return None;
            }
        }
    }

    /// Whether handing out `size` bytes keeps every count within a `usize`.
    pub fn can_allocate(&self, size: usize) -> (r: bool)
        requires
            self.blocks().len() > 0,
        ensures
            r == self.alloc_fits(size),
    {
        if size > usize::MAX - 15 {
            return false;
        }
        let a = align_up_16_bit(size);
        proof {
            lemma_first_fit_some(self.list@, a as int);
        }
        match self.find_first_free_node(a) {
            Some(i) => {
                let addr = self.list[i].addr;
                a <= usize::MAX - HEAP_NODE_SIZE && self.free >= a + HEAP_NODE_SIZE && self.used
                    <= usize::MAX - (a + HEAP_NODE_SIZE) && addr <= usize::MAX - HEAP_NODE_SIZE - a
            },
            None => true,
        }
    }

    /// Hands out `size` bytes, rounded up to a multiple of 16, from the first
    /// free block that holds them; the block's memory, after its header, is
    /// returned. When more than a header and 16 bytes of the block remain, they
    /// become a free block of the remaining size. Fails when no block fits.
    pub fn allocate(&mut self, size: usize) -> (r: Result<usize, ()>)
        requires
            old(self).blocks().len() > 0,
            old(self).alloc_fits(size),
        ensures
            final(self).total() == old(self).total(),
            final(self).bottom() == old(self).bottom(),
            ({
                let a = align_up_16(size);
                match first_fit(old(self).blocks(), a) {
                    Some(i) => {
                        &&& r == Ok::<usize, ()>((old(self).blocks()[i].addr + HEAP_NODE_SIZE) as usize)
                        &&& final(self).blocks() == split_blocks(old(self).blocks(), i, a)
                        &&& final(self).free_bytes() == old(self).free_bytes() - (a + HEAP_NODE_SIZE)
                        &&& final(self).used_bytes() == old(self).used_bytes() + a + HEAP_NODE_SIZE
                    },
                    None => {
                        &&& r == Err::<usize, ()>(())
                        &&& final(self).blocks() == old(self).blocks()
                        &&& final(self).free_bytes() == old(self).free_bytes()
                        &&& final(self).used_bytes() == old(self).used_bytes()
                    },
                }
            }),
    {
        let align_size = align_up_16_bit(size);
        proof {
            lemma_first_fit_some(self.list@, align_size as int);
        }
        if let Some(i) = self.find_first_free_node(align_size) {
            let mut free_node = self.list[i];
            let remain_size = free_node.size - align_size;
            free_node.status = HeapNodeStatus::Used;
            free_node.size = align_size;
            self.list.set(i, free_node);
            if remain_size > HEAP_NODE_SIZE + 16 {
                let remain_addr = free_node.addr + HEAP_NODE_SIZE + align_size;
                if let Some(remain_node) = HeapNode::new(remain_addr, remain_size) {
                    HeapNode::insert_after(&mut self.list, i, remain_node);
                } else {
                    return Err(());
                }
            }
            let return_addr = free_node.addr + HEAP_NODE_SIZE;
            self.free = self.free - (align_size + HEAP_NODE_SIZE);
            self.used = self.used + (align_size + HEAP_NODE_SIZE);
            Ok(return_addr)
        } else {
            Err(())
        }
    }

    /// The first block whose header is at `addr`.
    fn block_at(&self, addr: usize) -> (r: Option<usize>)
        ensures
            match r {
                Some(i) => block_at(self.blocks(), addr as int) == Some(i as int),
                None => block_at(self.blocks(), addr as int) is None,
            },
    {
        header_at(&self.list, addr)
    }

    /// Whether taking back the block handed out at `ptr` keeps every count
    /// within a `usize`.
    #[verifier::rlimit(40)]
    pub fn can_deallocate(&self, ptr: usize) -> (r: bool)
        ensures
            r == self.dealloc_fits(ptr),
    {
        if ptr < HEAP_NODE_SIZE {
            return false;
        }
        proof {
            lemma_block_at_some(self.list@, ptr - HEAP_NODE_SIZE);
        }
        match self.block_at(ptr - HEAP_NODE_SIZE) {
            Some(i) => {
                let b = self.list[i];
                if self.used < b.size || self.used - b.size < HEAP_NODE_SIZE {
                    return false;
                }
                if b.size > usize::MAX - 3 * HEAP_NODE_SIZE || self.free > usize::MAX - 3 * HEAP_NODE_SIZE - b.size {
                    return false;
                }
                let mut freed = copy_blocks(&self.list);
                freed.set(i, HeapNode { status: HeapNodeStatus::Free, ..b });
                let ghost fz = freed@;
                proof {
                    assert(fz == self.list@.update(i as int, HeapNode { status: HeapNodeStatus::Free, ..b }));
                }
                let len = freed.len();
                if i < len - 1 && freed[i + 1].status == HeapNodeStatus::Free {
                    let ns = freed[i + 1].size;
                    if ns > usize::MAX - HEAP_NODE_SIZE - b.size {
                        return false;
                    }
                }
                absorb_next(&mut freed, i);
                let cur = freed[i];
                match cur.prev {
                    None => true,
                    Some(p) => {
                        let found = if p == cur.addr {
                            Some(i)
                        } else {
                            header_at(&freed, p)
                        };
                        match found {
                            None => false,
                            Some(j) => {
                                if j > i {
                                    false
                                } else if freed[j].status != HeapNodeStatus::Free {
                                    true
                                } else {
                                    freed[j].size <= usize::MAX - HEAP_NODE_SIZE && cur.size <= usize::MAX
                                        - HEAP_NODE_SIZE - freed[j].size
                                }
                            },
                        }
                    },
                }
            },
            None => false,
        }
    }

    /// Takes back the block handed out at `ptr`: it becomes free and its
    /// bytes move from the used count to the free one; then it merges with
    /// its free neighbours, and each merge adds a header to the free count.
    pub fn deallocate(&mut self, ptr: usize)
        requires
            old(self).dealloc_fits(ptr),
        ensures
            final(self).total() == old(self).total(),
            final(self).bottom() == old(self).bottom(),
            ({
                let i = block_at(old(self).blocks(), ptr - HEAP_NODE_SIZE)->Some_0;
                let b = old(self).blocks()[i];
                let freed = old(self).blocks().update(i, HeapNode { status: HeapNodeStatus::Free, ..b });
                let m = merged(freed, i);
                &&& final(self).blocks() == m.0
                &&& final(self).used_bytes() == old(self).used_bytes() - (b.size + HEAP_NODE_SIZE)
                &&& final(self).free_bytes() == old(self).free_bytes() + b.size + HEAP_NODE_SIZE + HEAP_NODE_SIZE * m.1
            }),
    {
        proof {
            lemma_block_at_some(self.list@, ptr - HEAP_NODE_SIZE);
        }
        let i = self.block_at(ptr - HEAP_NODE_SIZE).unwrap();
        let mut heap_node = self.list[i];
        heap_node.status = HeapNodeStatus::Free;
        self.list.set(i, heap_node);
        self.used = self.used - (heap_node.size + HEAP_NODE_SIZE);
        self.free = self.free + (heap_node.size + HEAP_NODE_SIZE);
        let n = HeapNode::merge(&mut self.list, i);
        self.free = self.free + HEAP_NODE_SIZE * n;
    }
}

/// The heap behind the kernel's allocator.
pub struct LockedHeap(Heap);

impl LockedHeap {
    /// The heap inside.
    pub closed spec fn heap(&self) -> Heap {
        self.0
    }

    /// An allocator over an empty heap.
    pub fn new() -> (l: LockedHeap)
        ensures
            l.heap().blocks() == Seq::<HeapNode>::empty(),
            l.heap().used_bytes() == 0,
            l.heap().free_bytes() == 0,
    {
        LockedHeap(Heap::new())
    }

    /// The heap inside, to read.
    pub fn lock(&self) -> (r: &Heap)
        ensures
            *r == self.heap(),
    {
        &self.0
    }

    /// Gives the heap the memory of `size` bytes at `bottom`.
    pub fn init(&mut self, bottom: usize, size: usize)
        requires
            size >= 2 * HEAP_NODE_SIZE,
            bottom + size <= usize::MAX,
        ensures
            final(self).heap().bottom() == bottom,
            final(self).heap().total() == size,
            final(self).heap().free_bytes() == size - 2 * HEAP_NODE_SIZE,
            final(self).heap().used_bytes() == 2 * HEAP_NODE_SIZE,
            final(self).heap().blocks() == old(self).heap().blocks().push(
                HeapNode { addr: bottom, status: HeapNodeStatus::Free, size, prev: None },
            ).push(
                HeapNode {
                    addr: (bottom + size - HEAP_NODE_SIZE) as usize,
                    status: HeapNodeStatus::Tail,
                    size: 0,
                    prev: Some(bottom),
                },
            ),
    {
        self.0.init(bottom, size)
    }

    /// Hands out `size` bytes (a layout's size padded to its alignment);
    /// the address, or 0 when no block fits.
    pub fn alloc_bytes(&mut self, size: usize) -> (r: usize)
        requires
            old(self).heap().blocks().len() > 0,
            old(self).heap().alloc_fits(size),
        ensures
            final(self).heap().total() == old(self).heap().total(),
            final(self).heap().bottom() == old(self).heap().bottom(),
            match first_fit(old(self).heap().blocks(), align_up_16(size)) {
                Some(i) => {
                    let a = align_up_16(size);
                    &&& r == old(self).heap().blocks()[i].addr + HEAP_NODE_SIZE
                    &&& final(self).heap().blocks() == split_blocks(old(self).heap().blocks(), i, a)
                    &&& final(self).heap().free_bytes() == old(self).heap().free_bytes() - (a + HEAP_NODE_SIZE)
                    &&& final(self).heap().used_bytes() == old(self).heap().used_bytes() + a + HEAP_NODE_SIZE
                },
                None => {
                    &&& r == 0
                    &&& final(self).heap().blocks() == old(self).heap().blocks()
                    &&& final(self).heap().free_bytes() == old(self).heap().free_bytes()
                    &&& final(self).heap().used_bytes() == old(self).heap().used_bytes()
                },
            },
    {
        match self.0.allocate(size) {
            Ok(addr) => addr,
            Err(_) => 0,
        }
    }

    /// Takes back the block handed out at `ptr`.
    pub fn dealloc(&mut self, ptr: usize)
        requires
            old(self).heap().dealloc_fits(ptr),
        ensures
            ({
                let i = block_at(old(self).heap().blocks(), ptr - HEAP_NODE_SIZE)->Some_0;
                let b = old(self).heap().blocks()[i];
                let freed = old(self).heap().blocks().update(i, HeapNode { status: HeapNodeStatus::Free, ..b });
                let m = merged(freed, i);
                &&& final(self).heap().blocks() == m.0
                &&& final(self).heap().used_bytes() == old(self).heap().used_bytes() - (b.size + HEAP_NODE_SIZE)
                &&& final(self).heap().free_bytes() == old(self).heap().free_bytes() + b.size + HEAP_NODE_SIZE
                    + HEAP_NODE_SIZE * m.1
            }),
            final(self).heap().total() == old(self).heap().total(),
            final(self).heap().bottom() == old(self).heap().bottom(),
    {
        self.0.deallocate(ptr)
    }
}

} // verus!
