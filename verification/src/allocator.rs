//! First-fit kernel heap allocator over an address-ordered free list.
//!
//! The free list is a sequence of `Node`s, each describing one free region
//! `[addr, addr + size)`.  Allocation takes the first region that can hold an
//! aligned block, gives the tail of the region back to the list when a node
//! header still fits there, and drops the region otherwise.  Freeing inserts
//! the block at its address-ordered position and merges it with the neighbour
//! that ends where it starts and with the one that starts where it ends.
use vstd::prelude::*;
use crate::arch::paging::{AddressSpace, tables_reserved, frames_needed, pages_backed, in_pages, table_entry};
use crate::mm::memory::{free_frames, frame_used, took_lowest, FRAME_SIZE, TOTAL_FRAMES};
use crate::mm::types::MemoryFrameAllocator;

verus! {

/// Bytes taken by a free-list node header on the 32-bit kernel target.
pub const NODE_SIZE: usize = 8;

/// Alignment of a free-list node header on the 32-bit kernel target.
pub const NODE_ALIGN: usize = 4;

/// Virtual address where the kernel heap begins.
pub const HEAP_START: usize = 0x1000_0000;

/// Size of the kernel heap in bytes.
pub const HEAP_SIZE: usize = 1 * 1024 * 1024;

/// One free region of the heap.
#[derive(Clone, Copy, PartialEq, Eq, Debug)]
pub struct Node {
    pub addr: usize,
    pub size: usize,
}

/// Size and alignment of a requested block.
#[derive(Clone, Copy, PartialEq, Eq, Debug)]
pub struct Layout {
    pub size: usize,
    pub align: usize,
}

/// The heap allocator: its free list, kept in address order.
pub struct DummyAllocator {
    free: Vec<Node>,
}

// ---------------------------------------------------------------------------
// The mathematical model
// ---------------------------------------------------------------------------

/// One past the last byte of a free region.
pub open spec fn node_end(n: Node) -> int {
    n.addr + n.size
}

/// The free list is ordered by address, its regions neither overlap nor touch
/// (touching regions are always merged), none wraps past the top of the
/// address space, and each can hold a node header.
pub open spec fn free_list_wf(s: Seq<Node>) -> bool {
    &&& forall|i: int| 0 <= i < s.len() ==> node_end(#[trigger] s[i]) <= usize::MAX
    &&& forall|i: int| 0 <= i < s.len() ==> (#[trigger] s[i]).size >= NODE_SIZE
    &&& forall|i: int, j: int| 0 <= i < j < s.len() ==> node_end(#[trigger] s[i]) < (#[trigger] s[j]).addr
}

/// Smallest multiple of `a` that is at least `x`.
pub open spec fn align_up(x: int, a: int) -> int {
    x + (a - x % a) % a
}

/// Size in bytes reserved for a request of `size` bytes: at least a node
/// header, rounded up to the node alignment.
pub open spec fn padded_size(size: int) -> int {
    let s = if size < NODE_SIZE { NODE_SIZE as int } else { size };
    align_up(s, NODE_ALIGN as int)
}

/// Size in bytes given back to the free list when `size` bytes are freed.
pub open spec fn freed_size(size: int) -> int {
    if size < NODE_SIZE { NODE_SIZE as int } else { size }
}

/// Whether region `n` can hold a block of `size` bytes aligned to `align`.
pub open spec fn fits(n: Node, size: int, align: int) -> bool {
    align_up(n.addr as int, align) + size <= node_end(n)
}

/// `i` is the first region of `s` that can hold the block.
pub open spec fn is_first_fit(s: Seq<Node>, size: int, align: int, i: int) -> bool {
    &&& 0 <= i < s.len()
    &&& fits(s[i], size, align)
    &&& forall|j: int| 0 <= j < i ==> !fits(#[trigger] s[j], size, align)
}

/// Index of the first region that can hold the block, or `s.len()` if none can.
pub open spec fn first_fit(s: Seq<Node>, size: int, align: int) -> int {
    if exists|i: int| is_first_fit(s, size, align, i) {
        choose|i: int| is_first_fit(s, size, align, i)
    } else {
        s.len() as int
    }
}

/// The free list after the block at the start of region `i` is handed out:
/// the region's tail stays free when a node header fits in it.
pub open spec fn carve(s: Seq<Node>, i: int, size: int, align: int) -> Seq<Node> {
    let start = align_up(s[i].addr as int, align);
    let end = start + size;
    let excess = node_end(s[i]) - end;
    if excess >= NODE_SIZE {
        s.update(i, Node { addr: end as usize, size: excess as usize })
    } else {
        s.remove(i)
    }
}

/// What an allocation of `layout` returns, and the free list it leaves.
pub open spec fn alloc_spec(s: Seq<Node>, layout: Layout) -> (Option<usize>, Seq<Node>) {
    let size = padded_size(layout.size as int);
    let i = first_fit(s, size, layout.align as int);
    if i < s.len() {
        (Some(align_up(s[i].addr as int, layout.align as int) as usize), carve(s, i, size, layout.align as int))
    } else {
        (None, s)
    }
}

/// `k` is the position where a block at `p` goes: the first region that starts
/// above `p`.
pub open spec fn is_insert_pos(s: Seq<Node>, p: int, k: int) -> bool {
    &&& 0 <= k < s.len()
    &&& s[k].addr > p
    &&& forall|j: int| 0 <= j < k ==> (#[trigger] s[j]).addr <= p
}

/// Index of the first region that starts above `p`, or `s.len()` if none does.
pub open spec fn insert_pos(s: Seq<Node>, p: int) -> int {
    if exists|k: int| is_insert_pos(s, p, k) {
        choose|k: int| is_insert_pos(s, p, k)
    } else {
        s.len() as int
    }
}

/// The free list after the block `[p, p + freed_size(size))` is given back.
pub open spec fn dealloc_spec(s: Seq<Node>, p: int, size: int) -> Seq<Node> {
    let sz = freed_size(size);
    let k = insert_pos(s, p);
    let merge_next = k < s.len() && p + sz == s[k].addr;
    let merged = if merge_next { sz + s[k].size } else { sz };
    let rest = if merge_next { s.skip(k + 1) } else { s.skip(k) };
    if k > 0 && node_end(s[k - 1]) == p {
        s.take(k - 1).push(Node { addr: s[k - 1].addr, size: (s[k - 1].size + merged) as usize }) + rest
    } else {
        s.take(k).push(Node { addr: p as usize, size: merged as usize }) + rest
    }
}

/// The block `[p, p + len)` overlaps no free region.
pub open spec fn disjoint_from_free(s: Seq<Node>, p: int, len: int) -> bool {
    forall|i: int| 0 <= i < s.len() ==> node_end(#[trigger] s[i]) <= p || p + len <= s[i].addr
}

// ---------------------------------------------------------------------------
// Lemmas
// ---------------------------------------------------------------------------

proof fn lemma_align_up(x: int, a: int)
    requires
        x >= 0,
        a > 0,
    ensures
        x <= align_up(x, a) < x + a,
        align_up(x, a) % a == 0,
        x % a == 0 ==> align_up(x, a) == x,
{
    let r = x % a;
    vstd::arithmetic::div_mod::lemma_mod_bound(x, a);
    vstd::arithmetic::div_mod::lemma_mod_bound(a - r, a);
    vstd::arithmetic::div_mod::lemma_fundamental_div_mod(x, a);
    if r == 0 {
        vstd::arithmetic::div_mod::lemma_mod_self_0(a);
        assert(align_up(x, a) == x);
    } else {
        vstd::arithmetic::div_mod::lemma_small_mod((a - r) as nat, a as nat);
        assert(align_up(x, a) == x + a - r);
        assert(x + a - r == a * (x / a + 1)) by (nonlinear_arith)
            requires
                x == a * (x / a) + r,
        ;
        vstd::arithmetic::div_mod::lemma_mod_multiples_basic(x / a + 1, a);
        assert((x / a + 1) * a == a * (x / a + 1)) by (nonlinear_arith);
    }
}

proof fn lemma_first_fit(s: Seq<Node>, size: int, align: int, i: int)
    requires
        is_first_fit(s, size, align, i),
    ensures
        first_fit(s, size, align) == i,
{
    let k = choose|k: int| is_first_fit(s, size, align, k);
    assert(is_first_fit(s, size, align, k));
    if k < i {
        assert(!fits(s[k], size, align));
    } else if k > i {
        assert(!fits(s[i], size, align));
    }
}

proof fn lemma_no_fit(s: Seq<Node>, size: int, align: int)
    requires
        forall|j: int| 0 <= j < s.len() ==> !fits(#[trigger] s[j], size, align),
    ensures
        first_fit(s, size, align) == s.len(),
{
    if exists|i: int| is_first_fit(s, size, align, i) {
        let k = choose|k: int| is_first_fit(s, size, align, k);
        assert(fits(s[k], size, align));
    }
}

proof fn lemma_insert_pos(s: Seq<Node>, p: int, k: int)
    requires
        0 <= k <= s.len(),
        forall|j: int| 0 <= j < k ==> (#[trigger] s[j]).addr <= p,
        k < s.len() ==> s[k].addr > p,
    ensures
        insert_pos(s, p) == k,
{
    if exists|m: int| is_insert_pos(s, p, m) {
        let m = choose|m: int| is_insert_pos(s, p, m);
        assert(is_insert_pos(s, p, m));
        if m < k {
            assert(s[m].addr <= p);
        } else if m > k {
            assert(s[k].addr > p);
        }
    } else {
        if k < s.len() {
            assert(is_insert_pos(s, p, k));
        }
    }
}

/// The region chosen by an allocation is followed, in a well-formed list, only
/// by regions above it; carving keeps the list well-formed and the handed-out
/// block is aligned, inside the region, and apart from every free region left.
proof fn lemma_carve(s: Seq<Node>, i: int, size: int, align: int)
    requires
        free_list_wf(s),
        0 <= i < s.len(),
        align > 0,
        size >= NODE_SIZE,
        fits(s[i], size, align),
    ensures
        free_list_wf(carve(s, i, size, align)),
        align_up(s[i].addr as int, align) % align == 0,
        s[i].addr <= align_up(s[i].addr as int, align),
        align_up(s[i].addr as int, align) + size <= node_end(s[i]),
        disjoint_from_free(carve(s, i, size, align), align_up(s[i].addr as int, align), size),
{
    lemma_align_up(s[i].addr as int, align);
    let start = align_up(s[i].addr as int, align);
    let end = start + size;
    let excess = node_end(s[i]) - end;
    let t = carve(s, i, size, align);
    if excess >= NODE_SIZE {
        let n = Node { addr: end as usize, size: excess as usize };
        assert(t == s.update(i, n));
        assert forall|a: int, b: int| 0 <= a < b < t.len() implies node_end(#[trigger] t[a]) < (#[trigger] t[b]).addr by {
            assert(node_end(s[a]) < s[b].addr || a == i || b == i);
            if a == i {
                assert(node_end(s[i]) < s[b].addr);
            }
            if b == i {
                assert(node_end(s[a]) < s[i].addr);
            }
        }
    } else {
        assert(t == s.remove(i));
        assert forall|a: int, b: int| 0 <= a < b < t.len() implies node_end(#[trigger] t[a]) < (#[trigger] t[b]).addr by {
            let a2 = if a < i { a } else { a + 1 };
            let b2 = if b < i { b } else { b + 1 };
            assert(t[a] == s[a2]);
            assert(t[b] == s[b2]);
            assert(node_end(s[a2]) < s[b2].addr);
        }
        assert forall|a: int| 0 <= a < t.len() implies node_end(#[trigger] t[a]) <= usize::MAX && t[a].size >= NODE_SIZE by {
            let a2 = if a < i { a } else { a + 1 };
            assert(t[a] == s[a2]);
        }
    }
    assert forall|a: int| 0 <= a < t.len() implies node_end(#[trigger] t[a]) <= start || end <= t[a].addr by {
        if excess >= NODE_SIZE {
            if a < i {
                assert(node_end(s[a]) <= s[i].addr);
            } else if a > i {
                assert(node_end(s[i]) <= s[a].addr);
            }
        } else {
            let a2 = if a < i { a } else { a + 1 };
            assert(t[a] == s[a2]);
            if a2 < i {
                assert(node_end(s[a2]) <= s[i].addr);
            } else {
                assert(node_end(s[i]) <= s[a2].addr);
            }
        }
    }
}


/// Replacing the regions `s[a..b]` of a well-formed list by one region `n`
/// that sits between `s[a - 1]` and `s[b]` keeps the list well formed.
proof fn lemma_splice_wf(s: Seq<Node>, a: int, b: int, n: Node)
    requires
        free_list_wf(s),
        0 <= a <= b <= s.len(),
        n.size >= NODE_SIZE,
        node_end(n) <= usize::MAX,
        a > 0 ==> node_end(s[a - 1]) < n.addr,
        b < s.len() ==> node_end(n) < s[b].addr,
    ensures
        free_list_wf(s.take(a).push(n) + s.skip(b)),
        (s.take(a).push(n) + s.skip(b)).len() == a + 1 + s.len() - b,
{
    let r = s.take(a).push(n) + s.skip(b);
    assert(r.len() == a + 1 + s.len() - b);
    assert forall|x: int| 0 <= x < r.len() implies #[trigger] r[x] == (if x < a { s[x] } else if x == a { n } else { s[x - a - 1 + b] }) by {
        if x < a {
            assert(r[x] == s.take(a).push(n)[x]);
        } else if x == a {
            assert(r[x] == s.take(a).push(n)[x]);
        } else {
            assert(r[x] == s.skip(b)[x - a - 1]);
        }
    }
    assert forall|x: int| 0 <= x < r.len() implies node_end(#[trigger] r[x]) <= usize::MAX && r[x].size >= NODE_SIZE by {
        if x != a {
            let x2 = if x < a { x } else { x - a - 1 + b };
            assert(r[x] == s[x2]);
        }
    }
    assert forall|x: int, y: int| 0 <= x < y < r.len() implies node_end(#[trigger] r[x]) < (#[trigger] r[y]).addr by {
        if y < a {
            assert(r[x] == s[x] && r[y] == s[y]);
        } else if y == a {
            assert(r[x] == s[x]);
            if x < a - 1 {
                assert(node_end(s[x]) < s[a - 1].addr);
            }
        } else {
            let y2 = y - a - 1 + b;
            assert(r[y] == s[y2]);
            if y2 > b {
                assert(node_end(s[b]) < s[y2].addr);
            }
            if x < a {
                assert(r[x] == s[x]);
                assert(node_end(s[x]) < s[y2].addr);
            } else if x == a {
            } else {
                let x2 = x - a - 1 + b;
                assert(r[x] == s[x2]);
            }
        }
    }
}

/// Whatever a free gives back to the list keeps it well formed, provided the
/// freed block overlaps no free region.
pub proof fn lemma_dealloc_wf(s: Seq<Node>, p: int, size: int)
    requires
        free_list_wf(s),
        p >= 0,
        p + freed_size(size) <= usize::MAX,
        disjoint_from_free(s, p, freed_size(size)),
    ensures
        free_list_wf(dealloc_spec(s, p, size)),
{
    let sz = freed_size(size);
    let k = insert_pos(s, p);
    lemma_insert_pos_props(s, p);
    let merge_next = k < s.len() && p + sz == s[k].addr;
    let merged = if merge_next { sz + s[k].size } else { sz };
    let b = if merge_next { k + 1 } else { k };
    if k < s.len() {
        assert(node_end(s[k]) <= p || p + sz <= s[k].addr);
        if merge_next && k + 1 < s.len() {
            assert(node_end(s[k]) < s[k + 1].addr);
        }
    }
    if k > 0 {
        assert(node_end(s[k - 1]) <= p || p + sz <= s[k - 1].addr);
        if k > 1 {
            assert(node_end(s[k - 2]) < s[k - 1].addr);
        }
    }
    if k > 0 && node_end(s[k - 1]) == p {
        let n = Node { addr: s[k - 1].addr, size: (s[k - 1].size + merged) as usize };
        lemma_splice_wf(s, k - 1, b, n);
        assert(s.take(k - 1).push(n) + s.skip(b) == dealloc_spec(s, p, size));
    } else {
        let n = Node { addr: p as usize, size: merged as usize };
        lemma_splice_wf(s, k, b, n);
        assert(s.take(k).push(n) + s.skip(b) == dealloc_spec(s, p, size));
    }
}

proof fn lemma_insert_pos_props(s: Seq<Node>, p: int)
    ensures
        0 <= insert_pos(s, p) <= s.len(),
        forall|j: int| 0 <= j < insert_pos(s, p) ==> (#[trigger] s[j]).addr <= p,
        insert_pos(s, p) < s.len() ==> s[insert_pos(s, p)].addr > p,
{
    if exists|k: int| is_insert_pos(s, p, k) {
        let k = choose|k: int| is_insert_pos(s, p, k);
        assert(is_insert_pos(s, p, k));
    } else {
        assert forall|j: int| 0 <= j < s.len() implies (#[trigger] s[j]).addr <= p by {
            if s[j].addr > p {
                // the first region above p would be an insert position
                lemma_first_above(s, p, j);
            }
        }
    }
}

proof fn lemma_first_above(s: Seq<Node>, p: int, j: int)
    requires
        0 <= j < s.len(),
        s[j].addr > p,
    ensures
        exists|k: int| is_insert_pos(s, p, k),
    decreases j,
{
    if forall|m: int| 0 <= m < j ==> (#[trigger] s[m]).addr <= p {
        assert(is_insert_pos(s, p, j));
    } else {
        let m = choose|m: int| 0 <= m < j && (#[trigger] s[m]).addr > p;
        lemma_first_above(s, p, m);
    }
}


// ---------------------------------------------------------------------------
// Laws
// ---------------------------------------------------------------------------

proof fn lemma_freed_le_padded(size: int)
    requires
        size >= 0,
    ensures
        NODE_SIZE <= freed_size(size) <= padded_size(size),
        padded_size(size) % (NODE_ALIGN as int) == 0,
        freed_size(size) % (NODE_ALIGN as int) == 0 ==> padded_size(size) == freed_size(size),
{
    lemma_align_up(freed_size(size), NODE_ALIGN as int);
}

/// An allocation from a well-formed free list leaves it well formed, and the
/// block it hands out is aligned, lies inside a region that was free, and
/// overlaps no region still free; so it can be freed again with the same layout.
pub proof fn lemma_alloc_sound(s: Seq<Node>, layout: Layout)
    requires
        free_list_wf(s),
        layout.align > 0,
    ensures
        free_list_wf(alloc_spec(s, layout).1),
        alloc_spec(s, layout).0 matches Some(a) ==> {
            let i = first_fit(s, padded_size(layout.size as int), layout.align as int);
            &&& 0 <= i < s.len()
            &&& a % layout.align == 0
            &&& s[i].addr <= a
            &&& a + padded_size(layout.size as int) <= node_end(s[i])
            &&& disjoint_from_free(alloc_spec(s, layout).1, a as int, padded_size(layout.size as int))
            &&& a + freed_size(layout.size as int) <= usize::MAX
            &&& disjoint_from_free(alloc_spec(s, layout).1, a as int, freed_size(layout.size as int))
        },
{
    let size = padded_size(layout.size as int);
    let align = layout.align as int;
    let i = first_fit(s, size, align);
    lemma_freed_le_padded(layout.size as int);
    if exists|k: int| is_first_fit(s, size, align, k) {
        let k = choose|k: int| is_first_fit(s, size, align, k);
        assert(is_first_fit(s, size, align, k));
        assert(i == k);
        lemma_carve(s, i, size, align);
        lemma_align_up(s[i].addr as int, align);
        let a = align_up(s[i].addr as int, align);
        let t = carve(s, i, size, align);
        assert forall|j: int| 0 <= j < t.len() implies node_end(#[trigger] t[j]) <= a || a + freed_size(layout.size as int) <= t[j].addr by {
            assert(node_end(t[j]) <= a || a + size <= t[j].addr);
        }
    }
}

/// Every free region starts on a node boundary.
pub open spec fn nodes_aligned(s: Seq<Node>) -> bool {
    forall|i: int| 0 <= i < s.len() ==> (#[trigger] s[i]).addr % NODE_ALIGN == 0
}

/// Address `x` lies in a free region of `s`.
pub open spec fn in_free(s: Seq<Node>, x: int) -> bool {
    exists|i: int| 0 <= i < s.len() && s[i].addr <= x < node_end(#[trigger] s[i])
}

/// An allocation whose alignment is a multiple or a divisor of the node
/// alignment (every power of two is one or the other) keeps every free region
/// on a node boundary.
pub proof fn lemma_alloc_keeps_nodes_aligned(s: Seq<Node>, layout: Layout)
    requires
        free_list_wf(s),
        nodes_aligned(s),
        layout.align > 0,
        layout.align % NODE_ALIGN == 0 || NODE_ALIGN % layout.align == 0,
    ensures
        nodes_aligned(alloc_spec(s, layout).1),
{
    let size = padded_size(layout.size as int);
    let al = layout.align as int;
    let i = first_fit(s, size, al);
    if i < s.len() {
        lemma_alloc_sound(s, layout);
        let a = s[i].addr as int;
        lemma_align_up(a, al);
        let s0 = if layout.size < NODE_SIZE { NODE_SIZE as int } else { layout.size as int };
        lemma_align_up(s0, NODE_ALIGN as int);
        let start = align_up(a, al);
        if layout.align % NODE_ALIGN == 0 {
            let q = start / al;
            let m = al / 4;
            vstd::arithmetic::div_mod::lemma_fundamental_div_mod(start, al);
            vstd::arithmetic::div_mod::lemma_fundamental_div_mod(al, 4);
            assert(start == (q * m) * 4) by (nonlinear_arith)
                requires start == al * q + 0, al == 4 * m + 0;
            vstd::arithmetic::div_mod::lemma_mod_multiples_basic(q * m, 4);
        } else {
            assert(a % al == 0) by (nonlinear_arith)
                requires a % 4 == 0, 4int % al == 0, al > 0;
            assert(start == a);
        }
        assert((start + size) % 4 == 0) by (nonlinear_arith)
            requires start % 4 == 0, size % 4 == 0;
        let t = alloc_spec(s, layout).1;
        assert forall|j: int| 0 <= j < t.len() implies (#[trigger] t[j]).addr % NODE_ALIGN == 0 by {
            if node_end(s[i]) - (start + size) >= NODE_SIZE {
                if j != i {
                    assert(t[j] == s[j]);
                }
            } else {
                if j < i {
                    assert(t[j] == s[j]);
                } else {
                    assert(t[j] == s[j + 1]);
                }
            }
        }
    }
}

/// Giving back a block that starts on a node boundary keeps every free region
/// on a node boundary.
pub proof fn lemma_dealloc_keeps_nodes_aligned(s: Seq<Node>, p: int, size: int)
    requires
        nodes_aligned(s),
        0 <= p <= usize::MAX,
        p % (NODE_ALIGN as int) == 0,
    ensures
        nodes_aligned(dealloc_spec(s, p, size)),
{
    let k = insert_pos(s, p);
    lemma_insert_pos_props(s, p);
    let sz = freed_size(size);
    let merge_next = k < s.len() && p + sz == s[k].addr;
    let t = dealloc_spec(s, p, size);
    let b = if merge_next { k + 1 } else { k };
    let merged = if merge_next { sz + s[k].size } else { sz };
    let rest = s.skip(b);
    if k > 0 && node_end(s[k - 1]) == p {
        let head = s.take(k - 1).push(Node { addr: s[k - 1].addr, size: (s[k - 1].size + merged) as usize });
        assert(t == head + rest);
        assert forall|j: int| 0 <= j < t.len() implies (#[trigger] t[j]).addr % NODE_ALIGN == 0 by {
            if j < k - 1 {
                assert(t[j] == s[j]);
            } else if j == k - 1 {
                assert(t[j].addr == s[k - 1].addr);
            } else {
                assert(t[j] == rest[j - k]);
                assert(rest[j - k] == s[b + j - k]);
            }
        }
    } else {
        let head = s.take(k).push(Node { addr: p as usize, size: merged as usize });
        assert(t == head + rest);
        assert forall|j: int| 0 <= j < t.len() implies (#[trigger] t[j]).addr % NODE_ALIGN == 0 by {
            if j < k {
                assert(t[j] == s[j]);
            } else if j == k {
                assert(t[j].addr == p as usize);
            } else {
                assert(t[j] == rest[j - k - 1]);
                assert(rest[j - k - 1] == s[b + j - k - 1]);
            }
        }
    }
}

/// Giving a block back adds exactly its bytes to the free memory: an address
/// is free afterwards exactly when it was free before or lies in the block.
/// As the block overlapped no free region, the free bytes grow by exactly its
/// size.
#[verifier::rlimit(80)]
pub proof fn lemma_dealloc_adds_block(s: Seq<Node>, p: int, size: int, x: int)
    requires
        free_list_wf(s),
        p >= 0,
        p + freed_size(size) <= usize::MAX,
        disjoint_from_free(s, p, freed_size(size)),
    ensures
        in_free(dealloc_spec(s, p, size), x) <==> (in_free(s, x) || p <= x < p + freed_size(size)),
{
    let k = insert_pos(s, p);
    lemma_insert_pos_props(s, p);
    let sz = freed_size(size);
    let merge_next = k < s.len() && p + sz == s[k].addr;
    let merged = if merge_next { sz + s[k].size } else { sz };
    let b = if merge_next { k + 1 } else { k };
    let rest = s.skip(b);
    let t = dealloc_spec(s, p, size);
    let prev = k > 0 && node_end(s[k - 1]) == p;
    let a = if prev { k - 1 } else { k };
    let lo = if prev { s[k - 1].addr as int } else { p };
    let hi = if merge_next { node_end(s[k]) } else { p + sz };
    if merge_next {
        assert(node_end(s[k]) <= usize::MAX);
    }
    if prev {
        let n = Node { addr: s[k - 1].addr, size: (s[k - 1].size + merged) as usize };
        assert(t == s.take(k - 1).push(n) + rest);
        assert(t[a] == n);
    } else {
        let n = Node { addr: p as usize, size: merged as usize };
        assert(t == s.take(k).push(n) + rest);
        assert(t[a] == n);
    }
    assert(t[a].addr == lo && node_end(t[a]) == hi);
    assert(t.len() == a + 1 + s.len() - b);
    assert forall|j: int| a < j < t.len() implies #[trigger] t[j] == s[b + j - a - 1] by {
        assert(t[j] == rest[j - a - 1]);
    }
    assert forall|j: int| 0 <= j < a implies #[trigger] t[j] == s[j] by {}
    if in_free(t, x) {
        let j = choose|j: int| 0 <= j < t.len() && t[j].addr <= x < node_end(#[trigger] t[j]);
        if j < a {
            assert(s[j].addr <= x < node_end(s[j]));
        } else if j == a {
            if prev && x < p {
                assert(s[k - 1].addr <= x < node_end(s[k - 1]));
            } else if merge_next && x >= p + sz {
                assert(s[k].addr <= x < node_end(s[k]));
            }
        } else {
            assert(s[b + j - a - 1].addr <= x < node_end(s[b + j - a - 1]));
        }
    }
    if p <= x < p + sz {
        assert(t[a].addr <= x < node_end(t[a]));
    }
    if in_free(s, x) {
        let i = choose|i: int| 0 <= i < s.len() && s[i].addr <= x < node_end(#[trigger] s[i]);
        if i < a {
            assert(t[i] == s[i]);
            assert(t[i].addr <= x < node_end(t[i]));
        } else if i < b {
            // the region merged with the block
            if prev && i == k - 1 {
            } else {
                assert(merge_next && i == k);
            }
            assert(t[a].addr <= x < node_end(t[a]));
        } else {
            let j = a + 1 + (i - b);
            assert(t[j] == s[i]);
            assert(t[j].addr <= x < node_end(t[j]));
        }
    }
}

/// The regions an allocation leaves free lie in memory that was free before,
/// and none of them holds a byte of the block handed out.
pub proof fn lemma_alloc_leaves_subset(s: Seq<Node>, layout: Layout, x: int)
    requires
        free_list_wf(s),
        layout.align > 0,
        in_free(alloc_spec(s, layout).1, x),
    ensures
        in_free(s, x),
        alloc_spec(s, layout).0 matches Some(a) ==> !(a <= x < a + padded_size(layout.size as int)),
{
    let size = padded_size(layout.size as int);
    let al = layout.align as int;
    let i = first_fit(s, size, al);
    let t = alloc_spec(s, layout).1;
    let j = choose|j: int| 0 <= j < t.len() && t[j].addr <= x < node_end(#[trigger] t[j]);
    if i < s.len() {
        lemma_alloc_sound(s, layout);
        let start = align_up(s[i].addr as int, al);
        lemma_align_up(s[i].addr as int, al);
        if node_end(s[i]) - (start + size) >= NODE_SIZE {
            if j != i {
                assert(t[j] == s[j]);
                assert(s[j].addr <= x < node_end(s[j]));
            } else {
                assert(s[i].addr <= x < node_end(s[i]));
            }
        } else {
            if j < i {
                assert(t[j] == s[j]);
                assert(s[j].addr <= x < node_end(s[j]));
            } else {
                assert(t[j] == s[j + 1]);
                assert(s[j + 1].addr <= x < node_end(s[j + 1]));
            }
        }
    } else {
        assert(s[j].addr <= x < node_end(s[j]));
    }
}

/// Two blocks handed out one after the other do not overlap.
pub proof fn lemma_successive_blocks_disjoint(s: Seq<Node>, first: Layout, second: Layout)
    requires
        free_list_wf(s),
        first.align > 0,
        second.align > 0,
        alloc_spec(s, first).0 is Some,
        alloc_spec(alloc_spec(s, first).1, second).0 is Some,
    ensures
        ({
            let a = alloc_spec(s, first).0.unwrap() as int;
            let b = alloc_spec(alloc_spec(s, first).1, second).0.unwrap() as int;
            a + padded_size(first.size as int) <= b || b + padded_size(second.size as int) <= a
        }),
{
    lemma_alloc_sound(s, first);
    let s1 = alloc_spec(s, first).1;
    lemma_alloc_sound(s1, second);
    let j = first_fit(s1, padded_size(second.size as int), second.align as int);
    assert(node_end(s1[j]) <= alloc_spec(s, first).0.unwrap() as int
        || alloc_spec(s, first).0.unwrap() + padded_size(first.size as int) <= s1[j].addr);
}

/// Freeing a block right after it was allocated gives back exactly the free
/// list there was before, provided the allocation neither skipped bytes to
/// align the block nor dropped a tail too small to hold a node, and the size
/// freed is the size that was reserved.
pub proof fn lemma_alloc_then_free_restores(s: Seq<Node>, layout: Layout)
    requires
        free_list_wf(s),
        layout.align > 0,
        alloc_spec(s, layout).0 is Some,
        freed_size(layout.size as int) == padded_size(layout.size as int),
        ({
            let i = first_fit(s, padded_size(layout.size as int), layout.align as int);
            let rest = node_end(s[i]) - s[i].addr - padded_size(layout.size as int);
            &&& (s[i].addr as int) % (layout.align as int) == 0
            &&& (rest == 0 || rest >= NODE_SIZE)
        }),
    ensures
        dealloc_spec(alloc_spec(s, layout).1, alloc_spec(s, layout).0.unwrap() as int, layout.size as int) == s,
{
    let size = padded_size(layout.size as int);
    let align = layout.align as int;
    let i = first_fit(s, size, align);
    lemma_alloc_sound(s, layout);
    lemma_align_up(s[i].addr as int, align);
    let p = s[i].addr as int;
    assert(alloc_spec(s, layout).0.unwrap() == p);
    let t = carve(s, i, size, align);
    let excess = node_end(s[i]) - p - size;
    assert forall|j: int| 0 <= j < i implies (#[trigger] t[j]).addr <= p by {
        assert(t[j] == s[j]);
        assert(node_end(s[j]) < s[i].addr);
    }
    if excess >= NODE_SIZE {
        assert(t[i].addr > p);
        lemma_insert_pos(t, p, i);
        let r = dealloc_spec(t, p, layout.size as int);
        assert(p + size == t[i].addr);
        if i > 0 {
            assert(node_end(s[i - 1]) < s[i].addr);
        }
        assert(r =~= s);
    } else {
        assert(excess == 0);
        if i + 1 < s.len() {
            assert(t[i] == s[i + 1]);
            assert(node_end(s[i]) < s[i + 1].addr);
        }
        lemma_insert_pos(t, p, i);
        let r = dealloc_spec(t, p, layout.size as int);
        if i > 0 {
            assert(node_end(s[i - 1]) < s[i].addr);
        }
        assert(r =~= s);
    }
}

// ---------------------------------------------------------------------------
// The allocator
// ---------------------------------------------------------------------------

impl DummyAllocator {
    /// The free list, in address order.
    pub closed spec fn view(&self) -> Seq<Node> {
        self.free@
    }

    /// The allocator's invariant: its free list is well formed.
    pub closed spec fn wf(&self) -> bool {
        free_list_wf(self.free@)
    }

    /// The invariant holds exactly when the free list is well formed, so the
    /// laws over free lists apply to a live allocator.
    pub proof fn lemma_wf(&self)
        ensures
            self.wf() <==> free_list_wf(self@),
    {
    }

    /// The free regions, in address order.
    pub fn regions(&self) -> (r: &[Node])
        ensures
            r@ == self@,
    {
        self.free.as_slice()
    }

    /// Whether `layout.size` bytes at `ptr` may be given back: the block does
    /// not wrap past the top of memory and overlaps no free region.
    pub fn can_free(&self, ptr: usize, layout: Layout) -> (r: bool)
        requires
            self.wf(),
        ensures
            r == (ptr + freed_size(layout.size as int) <= usize::MAX
                && disjoint_from_free(self@, ptr as int, freed_size(layout.size as int))),
    {
        let size = if layout.size < NODE_SIZE { NODE_SIZE } else { layout.size };
        if ptr > usize::MAX - size {
            return false;
        }
        let end = ptr + size;
        let mut i: usize = 0;
        while i < self.free.len()
            invariant
                free_list_wf(self.free@),
                i <= self.free@.len(),
                end == ptr + freed_size(layout.size as int),
                forall|j: int| 0 <= j < i ==> node_end(#[trigger] self.free@[j]) <= ptr || end <= self.free@[j].addr,
            decreases self.free@.len() - i,
        {
            let n = self.free[i];
            if !(n.addr + n.size <= ptr || end <= n.addr) {
                return false;
            }
            i = i + 1;
        }
        true
    }

    /// An allocator with no free memory.
    pub fn new() -> (a: Self)
        ensures
            a.wf(),
            a@ == Seq::<Node>::empty(),
    {
        DummyAllocator { free: Vec::new() }
    }

    /// Hands a whole region of memory to the allocator, as the heap set-up
    /// does with the mapped heap: it becomes the only free region.
    pub fn init_region(&mut self, addr: usize, size: usize)
        requires
            addr + size <= usize::MAX,
            size >= NODE_SIZE,
        ensures
            final(self).wf(),
            final(self)@ == seq![Node { addr, size }],
    {
        let mut v: Vec<Node> = Vec::new();
        v.push(Node { addr, size });
        self.free = v;
    }

    /// Allocates a block for `layout` from the first free region that can
    /// hold it, returning its address, or `None` when no region can.
    pub fn allocate(&mut self, layout: Layout) -> (r: Option<usize>)
        requires
            old(self).wf(),
            layout.align > 0,
        ensures
            final(self).wf(),
            (r, final(self)@) == alloc_spec(old(self)@, layout),
            r is None <==> forall|j: int| 0 <= j < old(self)@.len() ==> !fits(
                #[trigger] old(self)@[j],
                padded_size(layout.size as int),
                layout.align as int,
            ),
            r matches Some(a) ==> {
                &&& a % layout.align == 0
                &&& disjoint_from_free(final(self)@, a as int, padded_size(layout.size as int))
                &&& exists|i: int| 0 <= i < old(self)@.len() && (#[trigger] old(self)@[i]).addr <= a
                    && a + padded_size(layout.size as int) <= node_end(old(self)@[i])
            },
    {
        let ghost s = self.free@;
        let align = layout.align;
        // size = max(layout.size, NODE_SIZE), rounded up to NODE_ALIGN
        let mut size = if layout.size < NODE_SIZE { NODE_SIZE } else { layout.size };
        let rem = size % NODE_ALIGN;
        if rem != 0 {
            if size > usize::MAX - (NODE_ALIGN - rem) {
                // no region can hold a block this large
                proof {
                    assert forall|j: int| 0 <= j < s.len() implies !fits(#[trigger] s[j], padded_size(layout.size as int), align as int) by {
                        lemma_align_up(s[j].addr as int, align as int);
                        lemma_align_up(size as int, NODE_ALIGN as int);
                    }
                    lemma_no_fit(s, padded_size(layout.size as int), align as int);
                }
                return None;
            }
            size = size + (NODE_ALIGN - rem);
        }
        proof {
            lemma_align_up(if layout.size < NODE_SIZE { NODE_SIZE as int } else { layout.size as int }, NODE_ALIGN as int);
            assert(size == padded_size(layout.size as int));
        }
        let mut i: usize = 0;
        while i < self.free.len()
            invariant
                self.free@ == s,
                old(self)@ == s,
                free_list_wf(s),
                align > 0,
                align == layout.align,
                size == padded_size(layout.size as int),
                size >= NODE_SIZE,
                0 <= i <= s.len(),
                forall|j: int| 0 <= j < i ==> !fits(#[trigger] s[j], size as int, align as int),
            decreases s.len() - i,
        {
            let node = self.free[i];
            let pad = (align - node.addr % align) % align;
            proof {
                vstd::arithmetic::div_mod::lemma_mod_bound(node.addr as int, align as int);
                vstd::arithmetic::div_mod::lemma_mod_bound((align - node.addr % align) as int, align as int);
            }
            let end = node.addr + node.size;
            if node.addr <= usize::MAX - pad && node.addr + pad <= usize::MAX - size && node.addr + pad + size <= end {
                let alloc_start = node.addr + pad;
                let alloc_end = alloc_start + size;
                let excess = end - alloc_end;
                proof {
                    assert(alloc_start == align_up(node.addr as int, align as int));
                    assert(fits(s[i as int], size as int, align as int));
                    assert(is_first_fit(s, size as int, align as int, i as int));
                    lemma_first_fit(s, size as int, align as int, i as int);
                    lemma_carve(s, i as int, size as int, align as int);
                }
                if excess >= NODE_SIZE {
                    self.free.set(i, Node { addr: alloc_end, size: excess });
                } else {
                    self.free.remove(i);
                }
                proof {
                    assert(self.free@ == carve(s, i as int, size as int, align as int));
                    assert(old(self)@ == s);
                    assert(fits(old(self)@[i as int], padded_size(layout.size as int), layout.align as int));
                    assert(alloc_spec(s, layout).0 == Some(alloc_start));
                }
                return Some(alloc_start);
            }
            proof {
                lemma_align_up(node.addr as int, align as int);
            }
            i = i + 1;
        }
        proof {
            lemma_no_fit(s, size as int, align as int);
        }
        None
    }

    /// Gives the block `[ptr, ptr + max(layout.size, NODE_SIZE))` back to the
    /// free list at its address-ordered place, merging it with a free region
    /// that ends where it starts and with one that starts where it ends.
    pub fn dealloc(&mut self, ptr: usize, layout: Layout)
        requires
            old(self).wf(),
            ptr + freed_size(layout.size as int) <= usize::MAX,
            disjoint_from_free(old(self)@, ptr as int, freed_size(layout.size as int)),
        ensures
            final(self).wf(),
            final(self)@ == dealloc_spec(old(self)@, ptr as int, layout.size as int),
    {
        let ghost s = self.free@;
        proof {
            lemma_insert_pos_props(s, ptr as int);
            lemma_dealloc_wf(s, ptr as int, layout.size as int);
        }
        let size = if layout.size < NODE_SIZE { NODE_SIZE } else { layout.size };
        // find the first free region that starts above ptr
        let mut k: usize = 0;
        while k < self.free.len() && self.free[k].addr <= ptr
            invariant
                self.free@ == s,
                0 <= k <= s.len(),
                forall|j: int| 0 <= j < k ==> (#[trigger] s[j]).addr <= ptr,
            decreases s.len() - k,
        {
            k = k + 1;
        }
        proof {
            lemma_insert_pos(s, ptr as int, k as int);
            if k < s.len() {
                assert(node_end(s[k as int]) <= ptr || ptr + size <= s[k as int].addr);
            }
        }
        // coalesce with the region that follows
        let merge_next = k < self.free.len() && ptr + size == self.free[k].addr;
        let merged = if merge_next { size + self.free[k].size } else { size };
        if merge_next {
            self.free.set(k, Node { addr: ptr, size: merged });
        } else {
            self.free.insert(k, Node { addr: ptr, size: merged });
        }
        let ghost rest = if merge_next { s.skip(k + 1) } else { s.skip(k as int) };
        proof {
            assert(self.free@ =~= s.take(k as int).push(Node { addr: ptr, size: merged }) + rest);
        }
        // coalesce with the region that precedes
        if k > 0 {
            let prev = self.free[k - 1];
            proof {
                assert(prev == s[k - 1]);
            }
            if prev.addr + prev.size == ptr {
                proof {
                    assert(node_end(s[k - 1]) + merged <= usize::MAX) by {
                        if merge_next {
                            assert(ptr + size + s[k as int].size == node_end(s[k as int]));
                        }
                    }
                }
                self.free.set(k - 1, Node { addr: prev.addr, size: prev.size + merged });
                self.free.remove(k);
                proof {
                    assert(self.free@ =~= s.take(k - 1).push(Node { addr: prev.addr, size: (prev.size + merged) as usize }) + rest);
                }
            }
        }
    }
}

// ---------------------------------------------------------------------------
// The kernel heap
// ---------------------------------------------------------------------------

/// Pages in the kernel heap.
pub const HEAP_PAGES: u32 = 256;

/// Flags of heap pages: present and writable.
pub const HEAP_PAGE_FLAGS: u32 = 3;

/// Maps the kernel heap, `HEAP_SIZE` bytes at `HEAP_START`, page by page onto
/// frames taken from `frames`, present and writable, and hands the whole heap
/// to `allocator` as its only free region.  The frames taken are the lowest
/// that were free.
pub fn init_heap(space: &mut AddressSpace, frames: &mut MemoryFrameAllocator, allocator: &mut DummyAllocator)
    requires
        old(space).wf(),
        old(frames).wf(),
        tables_reserved(old(space).table_frames(), old(frames)@),
        free_frames(old(frames)@).len() >= frames_needed(old(space).dir(), HEAP_START as u32, HEAP_PAGES as int),
    ensures
        final(space).wf(),
        final(frames).wf(),
        tables_reserved(final(space).table_frames(), final(frames)@),
        pages_backed(&*final(space), final(frames)@, HEAP_START as u32, HEAP_PAGES as int),
        forall|v: u32| #[trigger] in_pages(v, HEAP_START as u32, HEAP_PAGES as int)
            ==> !frame_used(old(frames)@, final(space).spec_translate(v).unwrap() as int / FRAME_SIZE as int),
        forall|v: u32| #[trigger] in_pages(v, HEAP_START as u32, HEAP_PAGES as int)
            ==> final(space).spec_entry(v) == Some(table_entry(final(space).spec_translate(v).unwrap(), HEAP_PAGE_FLAGS)),
        forall|v: u32| !in_pages(v, HEAP_START as u32, HEAP_PAGES as int)
            ==> #[trigger] final(space).spec_translate(v) == old(space).spec_translate(v),
        forall|g: int| 0 <= g < TOTAL_FRAMES && frame_used(old(frames)@, g) ==> #[trigger] frame_used(final(frames)@, g),
        free_frames(final(frames)@).len() == free_frames(old(frames)@).len() - frames_needed(old(space).dir(), HEAP_START as u32, HEAP_PAGES as int),
        took_lowest(old(frames)@, final(frames)@),
        final(allocator).wf(),
        final(allocator)@ == seq![Node { addr: HEAP_START, size: HEAP_SIZE }],
{
    assert(HEAP_START as u32 & 0xFFFu32 == 0 && ((HEAP_START as u32 >> 12u32) & 0x3FFu32) + 256 <= 1024) by (bit_vector);
    assert(HEAP_PAGE_FLAGS & 1u32 == 1u32) by (bit_vector);
    space.map_fresh_pages(frames, HEAP_START as u32, HEAP_PAGES, HEAP_PAGE_FLAGS);
    allocator.init_region(HEAP_START, HEAP_SIZE);
}

} // verus!
