//! A buddy allocator for the kernel heap.
//!
//! Free memory is kept as blocks of `2^k` bytes, `k < MAX_ORDER`, each on
//! the free list of its class `k`. A block of class `k` always starts at a
//! multiple of `2^k`; its buddy is the other half of the enclosing block of
//! class `k + 1`. Allocation splits larger blocks, deallocation merges a
//! block with its free buddy.
//!
//! The free lists are modelled by the start addresses of their blocks; the
//! front of a list (where blocks are pushed and popped) is the end of the
//! sequence.
use vstd::prelude::*;
use vstd::arithmetic::power2::{pow2, lemma_pow2_pos, lemma_pow2_adds, lemma2_to64};
use crate::pow2::{
    block, floor_log2, lemma_buddy, lemma_floor_log2, lemma_lowest_bit, lemma_pow2_divides,
    lemma_pow2_le, lemma_shl_pow2, lemma_trailing_zeros_pow2, trailing_zeros,
};
use vstd::std_specs::bits::axiom_u64_trailing_zeros;
use crate::memory::{Address, MemoryRegion, PhysicalMemoryRegion, VirtualAddress};

verus! {

/// Number of block size classes: class `k` holds free blocks of `2^k` bytes.
pub const MAX_ORDER: usize = 20;

/// Smallest block the heap hands out: room for the bookkeeping of a free
/// block (two list links and its size).
pub const MIN_BLOCK_SIZE: usize = 24;

/// The smaller of two naturals.
pub open spec fn min_nat(a: nat, b: nat) -> nat {
    if a <= b {
        a
    } else {
        b
    }
}

/// Class of the largest block that an address is aligned to, as the
/// allocator computes it from the lowest set bit (64 bytes for address 0).
pub open spec fn align_class(a: u64) -> nat {
    if a > 0 {
        trailing_zeros(a)
    } else {
        6
    }
}

/// Class of the first block cut from `[cur, end)`: as large as the
/// alignment of `cur`, the room left and the largest class allow.
pub open spec fn block_class(cur: u64, end: u64) -> nat {
    min_nat(min_nat(align_class(cur), floor_log2((end - cur) as u64)), (MAX_ORDER - 1) as nat)
}

/// The blocks, as `(start, class)`, that `[cur, end)` is cut into.
pub open spec fn blocks(cur: u64, end: u64) -> Seq<(u64, nat)>
    decreases end - cur,
{
    if cur < end {
        let k = block_class(cur, end);
        let next = cur + pow2(k);
        if cur < next <= end {
            seq![(cur, k)] + blocks(next as u64, end)
        } else {
            seq![(cur, k)]
        }
    } else {
        Seq::empty()
    }
}

/// Free lists after pushing block `b` on the front of the list of its class.
pub open spec fn push_block(lists: Seq<Seq<u64>>, b: (u64, nat)) -> Seq<Seq<u64>> {
    lists.update(b.1 as int, lists[b.1 as int].push(b.0))
}

/// Free lists after pushing the blocks `bs`, in order.
pub open spec fn push_blocks(lists: Seq<Seq<u64>>, bs: Seq<(u64, nat)>) -> Seq<Seq<u64>>
    decreases bs.len(),
{
    if bs.len() == 0 {
        lists
    } else {
        push_blocks(push_block(lists, bs[0]), bs.drop_first())
    }
}

/// There are `MAX_ORDER` lists, and every block on list `k` starts at a
/// multiple of `2^k` and ends within the address space.
pub open spec fn aligned_lists(lists: Seq<Seq<u64>>) -> bool {
    &&& lists.len() == MAX_ORDER
    &&& forall|k: int, i: int|
        0 <= k < MAX_ORDER && 0 <= i < lists[k].len() ==> {
            &&& (#[trigger] lists[k][i]) as int % (pow2(k as nat) as int) == 0
            &&& lists[k][i] + pow2(k as nat) <= 0x1_0000_0000_0000_0000
        }
}

/// Bytes held by the lists of the classes below `n`.
pub open spec fn free_bytes_below(lists: Seq<Seq<u64>>, n: int) -> nat
    decreases n,
{
    if n <= 0 {
        0
    } else {
        free_bytes_below(lists, n - 1) + lists[n - 1].len() * pow2((n - 1) as nat)
    }
}

/// Bytes held by all free lists.
pub open spec fn free_bytes(lists: Seq<Seq<u64>>) -> nat {
    free_bytes_below(lists, lists.len() as int)
}

/// Number of blocks on the lists of the classes below `n`.
pub open spec fn count_below(lists: Seq<Seq<u64>>, n: int) -> nat
    decreases n,
{
    if n <= 0 {
        0
    } else {
        count_below(lists, n - 1) + lists[n - 1].len()
    }
}

/// Number of blocks on all free lists.
pub open spec fn block_count(lists: Seq<Seq<u64>>) -> nat {
    count_below(lists, lists.len() as int)
}

/// Replacing one list changes the block count by the change of its length.
pub proof fn lemma_block_count_update(lists: Seq<Seq<u64>>, k: int, l: Seq<u64>)
    requires
        0 <= k < lists.len(),
    ensures
        block_count(lists.update(k, l)) + lists[k].len() == block_count(lists) + l.len(),
{
    lemma_count_below_update(lists, k, l, lists.len() as int);
}

proof fn lemma_count_below_update(lists: Seq<Seq<u64>>, k: int, l: Seq<u64>, n: int)
    requires
        0 <= k < lists.len(),
        0 <= n <= lists.len(),
    ensures
        n <= k ==> count_below(lists.update(k, l), n) == count_below(lists, n),
        n > k ==> count_below(lists.update(k, l), n) + lists[k].len() == count_below(lists, n) + l.len(),
    decreases n,
{
    if n > 0 {
        lemma_count_below_update(lists, k, l, n - 1);
    }
}

/// Total size of a sequence of blocks.
pub open spec fn blocks_bytes(bs: Seq<(u64, nat)>) -> nat
    decreases bs.len(),
{
    if bs.len() == 0 {
        0
    } else {
        pow2(bs[0].1) + blocks_bytes(bs.drop_first())
    }
}

/// Replacing one list changes the free bytes by the change of its length.
pub proof fn lemma_free_bytes_update(lists: Seq<Seq<u64>>, k: int, l: Seq<u64>)
    requires
        0 <= k < lists.len(),
    ensures
        free_bytes(lists.update(k, l)) + lists[k].len() * pow2(k as nat) == free_bytes(lists)
            + l.len() * pow2(k as nat),
{
    lemma_free_bytes_below_update(lists, k, l, lists.len() as int);
}

proof fn lemma_free_bytes_below_update(lists: Seq<Seq<u64>>, k: int, l: Seq<u64>, n: int)
    requires
        0 <= k < lists.len(),
        0 <= n <= lists.len(),
    ensures
        n <= k ==> free_bytes_below(lists.update(k, l), n) == free_bytes_below(lists, n),
        n > k ==> free_bytes_below(lists.update(k, l), n) + lists[k].len() * pow2(k as nat)
            == free_bytes_below(lists, n) + l.len() * pow2(k as nat),
    decreases n,
{
    if n > 0 {
        lemma_free_bytes_below_update(lists, k, l, n - 1);
    }
}

/// Cutting `[cur, end)` into blocks: the first block is aligned to its size,
/// no larger than the largest class and fits in the range.
pub proof fn lemma_block_class(cur: u64, end: u64)
    requires
        cur < end,
    ensures
        block_class(cur, end) < MAX_ORDER,
        cur as int % (pow2(block_class(cur, end)) as int) == 0,
        0 < pow2(block_class(cur, end)),
        cur + pow2(block_class(cur, end)) <= end,
{
    let k = block_class(cur, end);
    lemma_floor_log2((end - cur) as u64);
    lemma_pow2_le(k, floor_log2((end - cur) as u64));
    lemma_pow2_pos(k);
    assert(0int % (pow2(k) as int) == 0);
    if cur > 0 {
        lemma_lowest_bit(cur);
        lemma_pow2_divides(cur as int, k, trailing_zeros(cur));
    }
}

/// The blocks of `[cur, end)` tile it exactly: they follow each other
/// without gap or overlap, start at `cur`, end at `end`, and each is aligned
/// to its power-of-two size of at most `2^(MAX_ORDER - 1)` bytes.
pub proof fn lemma_blocks_tile(cur: u64, end: u64)
    requires
        cur <= end,
    ensures
        ({
            let bs = blocks(cur, end);
            &&& blocks_bytes(bs) == end - cur
            &&& bs.len() > 0 ==> bs[0].0 == cur
            &&& forall|i: int|
                0 <= i < bs.len() ==> {
                    &&& (#[trigger] bs[i]).1 < MAX_ORDER
                    &&& bs[i].0 as int % (pow2(bs[i].1) as int) == 0
                    &&& bs[i].0 + pow2(bs[i].1) <= end
                    &&& i + 1 < bs.len() ==> bs[i + 1].0 == bs[i].0 + pow2(bs[i].1)
                    &&& i + 1 == bs.len() ==> bs[i].0 + pow2(bs[i].1) == end
                }
        }),
    decreases end - cur,
{
    if cur < end {
        lemma_block_class(cur, end);
        let k = block_class(cur, end);
        let next = (cur + pow2(k)) as u64;
        lemma_blocks_tile(next, end);
        let bs = blocks(cur, end);
        let rest = blocks(next, end);
        assert(bs == seq![(cur, k)] + rest);
        assert(bs.drop_first() =~= rest);
        assert forall|i: int| 0 <= i < bs.len() implies {
            &&& (#[trigger] bs[i]).1 < MAX_ORDER
            &&& bs[i].0 as int % (pow2(bs[i].1) as int) == 0
            &&& bs[i].0 + pow2(bs[i].1) <= end
            &&& i + 1 < bs.len() ==> bs[i + 1].0 == bs[i].0 + pow2(bs[i].1)
            &&& i + 1 == bs.len() ==> bs[i].0 + pow2(bs[i].1) == end
        } by {
            if i > 0 {
                assert(bs[i] == rest[i - 1]);
            } else if rest.len() > 0 {
                assert(bs[1] == rest[0]);
            }
        }
    }
}

/// A range is cut into at most as many blocks as it has bytes.
pub proof fn lemma_blocks_len(cur: u64, end: u64)
    requires
        cur <= end,
    ensures
        blocks(cur, end).len() <= end - cur,
    decreases end - cur,
{
    if cur < end {
        lemma_block_class(cur, end);
        let k = block_class(cur, end);
        lemma_blocks_len((cur + pow2(k)) as u64, end);
    }
}

/// Pushing the blocks of a region keeps every list aligned.
proof fn lemma_push_block_aligned(lists: Seq<Seq<u64>>, b: (u64, nat))
    requires
        aligned_lists(lists),
        b.1 < MAX_ORDER,
        b.0 as int % (pow2(b.1) as int) == 0,
        b.0 + pow2(b.1) <= 0x1_0000_0000_0000_0000,
    ensures
        aligned_lists(push_block(lists, b)),
        free_bytes(push_block(lists, b)) == free_bytes(lists) + pow2(b.1),
{
    let r = push_block(lists, b);
    assert forall|k: int, i: int| 0 <= k < MAX_ORDER && 0 <= i < r[k].len() implies {
        &&& (#[trigger] r[k][i]) as int % (pow2(k as nat) as int) == 0
        &&& r[k][i] + pow2(k as nat) <= 0x1_0000_0000_0000_0000
    } by {
        if k == b.1 && i == lists[k].len() {
        } else {
            assert(r[k][i] == lists[k][i]);
        }
    }
    lemma_free_bytes_update(lists, b.1 as int, lists[b.1 as int].push(b.0));
    assert(lists[b.1 as int].push(b.0).len() * pow2(b.1) == lists[b.1 as int].len() * pow2(b.1)
        + pow2(b.1)) by (nonlinear_arith);
}


/// `n` is a power of two.
pub open spec fn is_power_of_two(n: nat) -> bool {
    exists|k: nat| n == pow2(k)
}

/// `2^k` is the least power of two not below `n`.
pub open spec fn is_ceil_class(k: nat, n: nat) -> bool {
    &&& n <= pow2(k)
    &&& (k == 0 || pow2((k - 1) as nat) < n)
}

/// Exponent of the least power of two not below `n`.
pub open spec fn ceil_class(n: nat) -> nat {
    choose|k: nat| is_ceil_class(k, n)
}

/// The class of the block the heap hands out for `size` bytes aligned to
/// `align`: large enough for the size, the alignment and the bookkeeping.
pub open spec fn layout_class(size: usize, align: usize) -> nat {
    ceil_class(max3(size as nat, align as nat, MIN_BLOCK_SIZE as nat))
}

/// The largest of three naturals.
pub open spec fn max3(a: nat, b: nat, c: nat) -> nat {
    if a >= b && a >= c {
        a
    } else if b >= c {
        b
    } else {
        c
    }
}

/// There is exactly one least power of two not below `n`, and it is `2^ceil_class(n)`.
pub proof fn lemma_ceil_class(k: nat, n: nat)
    requires
        is_ceil_class(k, n),
    ensures
        ceil_class(n) == k,
{
    let c = ceil_class(n);
    assert(is_ceil_class(c, n));
    if c < k {
        lemma_pow2_le(c, (k - 1) as nat);
    } else if k < c {
        lemma_pow2_le(k, (c - 1) as nat);
    }
}

/// Smallest class at or above `class` with a free block (`MAX_ORDER` if none).
pub open spec fn first_nonempty(lists: Seq<Seq<u64>>, class: int) -> int
    decreases MAX_ORDER - class,
{
    if class >= MAX_ORDER {
        MAX_ORDER as int
    } else if lists[class].len() > 0 {
        class
    } else {
        first_nonempty(lists, class + 1)
    }
}

/// The first class with a free block lies between `class` and `MAX_ORDER`.
pub proof fn lemma_first_nonempty_bounds(lists: Seq<Seq<u64>>, class: int)
    requires
        0 <= class <= MAX_ORDER,
    ensures
        class <= first_nonempty(lists, class) <= MAX_ORDER,
        first_nonempty(lists, class) < MAX_ORDER ==> lists[first_nonempty(lists, class)].len() > 0,
    decreases MAX_ORDER - class,
{
    if class < MAX_ORDER && lists[class].len() == 0 {
        lemma_first_nonempty_bounds(lists, class + 1);
    }
}

/// Free lists after the front block of class `j` is split into its halves,
/// pushed on list `j - 1` lower half first, so that the upper half is in front.
pub open spec fn split_once(lists: Seq<Seq<u64>>, j: int) -> Seq<Seq<u64>> {
    let a = lists[j].last();
    let l = lists.update(j, lists[j].drop_last());
    l.update(j - 1, l[j - 1].push(a).push((a + pow2((j - 1) as nat)) as u64))
}

/// Free lists after splitting front blocks from class `j` down to class `class`.
pub open spec fn split_down(lists: Seq<Seq<u64>>, j: int, class: int) -> Seq<Seq<u64>>
    decreases j - class,
{
    if j <= class {
        lists
    } else {
        split_down(split_once(lists, j), j - 1, class)
    }
}


/// Whether the block of class `k` at `a` and the block of class `l` at `b`
/// share a byte.
pub open spec fn blocks_overlap(a: u64, k: int, b: u64, l: int) -> bool {
    a < b + pow2(l as nat) && b < a + pow2(k as nat)
}

/// No two free blocks share a byte.
pub open spec fn blocks_apart(lists: Seq<Seq<u64>>) -> bool {
    forall|k1: int, i1: int, k2: int, i2: int|
        0 <= k1 < lists.len() && 0 <= i1 < lists[k1].len() && 0 <= k2 < lists.len() && 0 <= i2 < lists[k2].len() && (k1
            != k2 || i1 != i2) ==> !blocks_overlap(#[trigger] lists[k1][i1], k1, #[trigger] lists[k2][i2], k2)
}

/// Every free block ends within the address space.
pub open spec fn blocks_fit(lists: Seq<Seq<u64>>) -> bool {
    forall|k: int, i: int| 0 <= k < lists.len() && 0 <= i < lists[k].len() ==> #[trigger] lists[k][i] + pow2(k as nat) <= 0x1_0000_0000_0000_0000
}

/// Where block `i` of class `k` comes from when the front block (index `n`)
/// of class `j` is split, `m` blocks being of class `j - 1` before: the two
/// halves come from that block, every other block from itself.
spec fn split_origin(j: int, n: int, m: int, k: int, i: int) -> (int, int) {
    if k == j - 1 && i >= m {
        (j, n)
    } else {
        (k, i)
    }
}

/// Splitting the front block of class `j` into its two halves keeps the
/// free blocks apart: each half lies within the block it came from.
proof fn lemma_split_once_apart(lists: Seq<Seq<u64>>, j: int)
    requires
        blocks_apart(lists),
        blocks_fit(lists),
        1 <= j < lists.len(),
        lists[j].len() > 0,
    ensures
        blocks_apart(split_once(lists, j)),
        blocks_fit(split_once(lists, j)),
        split_once(lists, j).len() == lists.len(),
        split_once(lists, j)[j - 1].len() > 0,
{
    let a = lists[j].last();
    let h = pow2((j - 1) as nat);
    let n = lists[j].len() - 1;
    let m = lists[j - 1].len() as int;
    let s = split_once(lists, j);
    lemma_pow2_adds((j - 1) as nat, 1);
    vstd::arithmetic::power2::lemma2_to64();
    lemma_pow2_pos((j - 1) as nat);
    assert(a + pow2(j as nat) <= 0x1_0000_0000_0000_0000);
    assert(pow2(j as nat) == 2 * h);
    // Where each block of `s` comes from in `lists`, and the offset of its
    // start within that block.
    let origin = |k: int, i: int| split_origin(j, n, m, k, i);
    assert forall|k: int, i: int| #![trigger s[k][i]] 0 <= k < s.len() && 0 <= i < s[k].len() implies {
        let (ok, oi) = origin(k, i);
        &&& 0 <= ok < lists.len() && 0 <= oi < lists[ok].len()
        &&& lists[ok][oi] <= s[k][i]
        &&& s[k][i] + pow2(k as nat) <= lists[ok][oi] + pow2(ok as nat)
        &&& (ok == k && oi == i) || (ok == j && oi == n && k == j - 1 && (i == m || i == m + 1))
    } by {
        if k == j - 1 && i == m {
            assert(s[k][i] == a);
        } else if k == j - 1 && i == m + 1 {
            assert(s[k][i] == a + h);
        } else if k == j {
            assert(s[k][i] == lists[k][i]);
        } else if k == j - 1 {
            assert(s[k][i] == lists[k][i]);
        } else {
            assert(s[k][i] == lists[k][i]);
        }
    }
    assert forall|k1: int, i1: int, k2: int, i2: int|
        0 <= k1 < s.len() && 0 <= i1 < s[k1].len() && 0 <= k2 < s.len() && 0 <= i2 < s[k2].len() && (k1 != k2 || i1
            != i2) implies !blocks_overlap(#[trigger] s[k1][i1], k1, #[trigger] s[k2][i2], k2) by {
        let (o1k, o1i) = origin(k1, i1);
        let (o2k, o2i) = origin(k2, i2);
        if o1k == o2k && o1i == o2i {
            assert(k1 == j - 1 && k2 == j - 1);
            if i1 == m {
                assert(s[k1][i1] == a && s[k2][i2] == a + h);
            } else {
                assert(s[k1][i1] == a + h && s[k2][i2] == a);
            }
        } else {
            assert(!blocks_overlap(lists[o1k][o1i], o1k, lists[o2k][o2i], o2k));
        }
    }
    assert forall|k: int, i: int| 0 <= k < s.len() && 0 <= i < s[k].len() implies #[trigger] s[k][i] + pow2(k as nat)
        <= 0x1_0000_0000_0000_0000 by {
        let (ok, oi) = origin(k, i);
        assert(lists[ok][oi] + pow2(ok as nat) <= 0x1_0000_0000_0000_0000);
    }
}

/// Splitting down from class `j` to class `class` keeps the free blocks
/// apart and leaves a block of class `class`.
proof fn lemma_split_down_apart(lists: Seq<Seq<u64>>, j: int, class: int)
    requires
        blocks_apart(lists),
        blocks_fit(lists),
        0 <= class <= j < lists.len(),
        lists[j].len() > 0,
    ensures
        blocks_apart(split_down(lists, j, class)),
        split_down(lists, j, class).len() == lists.len(),
        split_down(lists, j, class)[class].len() > 0,
    decreases j - class,
{
    if j > class {
        lemma_split_once_apart(lists, j);
        lemma_split_down_apart(split_once(lists, j), j - 1, class);
    }
}

/// Handing out a block keeps the free blocks apart: if no two free blocks
/// share a byte, then after the splits that `allocate` makes from the first
/// class `i` with a free block down to `class`, and the block it hands out
/// taken off, still no two free blocks share a byte, and the block handed
/// out shares none with any of them.
pub proof fn lemma_allocation_keeps_blocks_apart(lists: Seq<Seq<u64>>, i: int, class: int)
    requires
        aligned_lists(lists),
        blocks_apart(lists),
        0 <= class <= i < MAX_ORDER,
        lists[i].len() > 0,
    ensures
        ({
            let s = split_down(lists, i, class);
            let after = s.update(class, s[class].drop_last());
            &&& s[class].len() > 0
            &&& blocks_apart(after)
            &&& forall|k: int, x: int|
                0 <= k < after.len() && 0 <= x < after[k].len() ==> !blocks_overlap(
                    s[class].last(),
                    class,
                    #[trigger] after[k][x],
                    k,
                )
        }),
{
    lemma_aligned_fit(lists);
    lemma_split_down_apart(lists, i, class);
    let s = split_down(lists, i, class);
    let after = s.update(class, s[class].drop_last());
    let last = s[class].len() - 1;
    assert forall|k1: int, i1: int, k2: int, i2: int|
        0 <= k1 < after.len() && 0 <= i1 < after[k1].len() && 0 <= k2 < after.len() && 0 <= i2 < after[k2].len() && (k1
            != k2 || i1 != i2) implies !blocks_overlap(#[trigger] after[k1][i1], k1, #[trigger] after[k2][i2], k2) by {
        assert(after[k1][i1] == s[k1][i1]);
        assert(after[k2][i2] == s[k2][i2]);
    }
    assert forall|k: int, x: int| 0 <= k < after.len() && 0 <= x < after[k].len() implies !blocks_overlap(
        s[class].last(),
        class,
        #[trigger] after[k][x],
        k,
    ) by {
        assert(after[k][x] == s[k][x]);
        assert(s[class].last() == s[class][last]);
        assert(!blocks_overlap(s[class][last], class, s[k][x], k));
    }
}

/// List `s` without its frontmost occurrence of `a` (unchanged if `a` is absent).
pub open spec fn remove_front(s: Seq<u64>, a: u64) -> Seq<u64>
    decreases s.len(),
{
    if s.len() == 0 {
        s
    } else if s.last() == a {
        s.drop_last()
    } else {
        remove_front(s.drop_last(), a).push(s.last())
    }
}

/// The buddy of the block at `start` of class `c`.
pub open spec fn buddy_of(start: u64, c: nat) -> u64 {
    start ^ (1u64 << (c as u64))
}

/// Free lists after a block at `start` of class `c` is given back: while its
/// buddy is free, the buddy is taken off its list and the two are merged
/// into the enclosing block of the next class; the block is pushed on the
/// list of the class where that stops. A block merged up to `MAX_ORDER` is
/// not kept.
pub open spec fn merge(lists: Seq<Seq<u64>>, start: u64, c: nat) -> Seq<Seq<u64>>
    decreases MAX_ORDER - c,
{
    if c >= MAX_ORDER {
        lists
    } else {
        let b = buddy_of(start, c);
        if lists[c as int].contains(b) {
            merge(
                lists.update(c as int, remove_front(lists[c as int], b)),
                if start <= b { start } else { b },
                c + 1,
            )
        } else {
            lists.update(c as int, lists[c as int].push(start))
        }
    }
}

/// Bytes that giving back a block at `start` of class `c` loses because the
/// merged block reached `MAX_ORDER` (0 when it is kept).
pub open spec fn merge_dropped(lists: Seq<Seq<u64>>, start: u64, c: nat) -> nat
    decreases MAX_ORDER - c,
{
    if c >= MAX_ORDER {
        pow2(c)
    } else {
        let b = buddy_of(start, c);
        if lists[c as int].contains(b) {
            merge_dropped(
                lists.update(c as int, remove_front(lists[c as int], b)),
                if start <= b { start } else { b },
                c + 1,
            )
        } else {
            0
        }
    }
}

/// Number of merges when giving back a block at `start` of class `c`.
pub open spec fn merge_count(lists: Seq<Seq<u64>>, start: u64, c: nat) -> nat
    decreases MAX_ORDER - c,
{
    if c >= MAX_ORDER {
        0
    } else {
        let b = buddy_of(start, c);
        if lists[c as int].contains(b) {
            1 + merge_count(
                lists.update(c as int, remove_front(lists[c as int], b)),
                if start <= b { start } else { b },
                c + 1,
            )
        } else {
            0
        }
    }
}

/// Removing the frontmost `a`, found at index `i`, is removing index `i`.
proof fn lemma_remove_front_at(s: Seq<u64>, a: u64, i: int)
    requires
        0 <= i < s.len(),
        s[i] == a,
        forall|j: int| i < j < s.len() ==> s[j] != a,
    ensures
        remove_front(s, a) == s.remove(i),
    decreases s.len(),
{
    if i == s.len() - 1 {
        assert(s.drop_last() =~= s.remove(i));
    } else {
        lemma_remove_front_at(s.drop_last(), a, i);
        assert(s.drop_last().remove(i).push(s.last()) =~= s.remove(i));
    }
}

/// Removing an absent value changes nothing.
proof fn lemma_remove_front_absent(s: Seq<u64>, a: u64)
    requires
        !s.contains(a),
    ensures
        remove_front(s, a) == s,
    decreases s.len(),
{
    if s.len() > 0 {
        assert(!s.drop_last().contains(a)) by {
            if s.drop_last().contains(a) {
                let j = choose|j: int| 0 <= j < s.drop_last().len() && s.drop_last()[j] == a;
                assert(s[j] == a);
            }
        }
        lemma_remove_front_absent(s.drop_last(), a);
        assert(s.drop_last().push(s.last()) =~= s);
    }
}

/// The block of class `c` at `start` shares no byte with any free block.
pub open spec fn apart_from_free(lists: Seq<Seq<u64>>, start: u64, c: int) -> bool {
    forall|k: int, x: int| 0 <= k < lists.len() && 0 <= x < lists[k].len() ==> !blocks_overlap(start, c, #[trigger] lists[k][x], k)
}

/// Taking entry `i` off list `k` keeps the free blocks apart and within the
/// address space; each remaining block is one that was there.
proof fn lemma_remove_entry_apart(lists: Seq<Seq<u64>>, k: int, i: int)
    requires
        blocks_apart(lists),
        blocks_fit(lists),
        0 <= k < lists.len(),
        0 <= i < lists[k].len(),
    ensures
        ({
            let after = lists.update(k, lists[k].remove(i));
            &&& blocks_apart(after)
            &&& blocks_fit(after)
            &&& forall|k2: int, x: int| 0 <= k2 < after.len() && 0 <= x < after[k2].len() ==> !blocks_overlap(
                lists[k][i],
                k,
                #[trigger] after[k2][x],
                k2,
            )
        }),
{
    let after = lists.update(k, lists[k].remove(i));
    assert forall|k2: int, x: int| #![trigger after[k2][x]] 0 <= k2 < after.len() && 0 <= x < after[k2].len() implies {
        let ox = if k2 == k && x >= i { x + 1 } else { x };
        &&& 0 <= ox < lists[k2].len()
        &&& after[k2][x] == lists[k2][ox]
        &&& (k2 != k || ox != i)
    } by {
    }
    assert forall|k1: int, i1: int, k2: int, i2: int|
        0 <= k1 < after.len() && 0 <= i1 < after[k1].len() && 0 <= k2 < after.len() && 0 <= i2 < after[k2].len() && (k1
            != k2 || i1 != i2) implies !blocks_overlap(#[trigger] after[k1][i1], k1, #[trigger] after[k2][i2], k2) by {
        let o1 = if k1 == k && i1 >= i { i1 + 1 } else { i1 };
        let o2 = if k2 == k && i2 >= i { i2 + 1 } else { i2 };
        assert(!blocks_overlap(lists[k1][o1], k1, lists[k2][o2], k2));
    }
    assert forall|k2: int, x: int| 0 <= k2 < after.len() && 0 <= x < after[k2].len() implies #[trigger] after[k2][x]
        + pow2(k2 as nat) <= 0x1_0000_0000_0000_0000 by {
        let ox = if k2 == k && x >= i { x + 1 } else { x };
        assert(lists[k2][ox] + pow2(k2 as nat) <= 0x1_0000_0000_0000_0000);
    }
    assert forall|k2: int, x: int| 0 <= k2 < after.len() && 0 <= x < after[k2].len() implies !blocks_overlap(
        lists[k][i],
        k,
        #[trigger] after[k2][x],
        k2,
    ) by {
        let ox = if k2 == k && x >= i { x + 1 } else { x };
        assert(!blocks_overlap(lists[k2][ox], k2, lists[k][i], k));
    }
}

/// Aligned lists hold blocks within the address space.
proof fn lemma_aligned_fit(lists: Seq<Seq<u64>>)
    requires
        aligned_lists(lists),
    ensures
        blocks_fit(lists),
{
    assert forall|k: int, x: int| 0 <= k < lists.len() && 0 <= x < lists[k].len() implies #[trigger] lists[k][x]
        + pow2(k as nat) <= 0x1_0000_0000_0000_0000 by {
        assert(lists[k][x] + pow2(k as nat) <= 0x1_0000_0000_0000_0000);
    }
}

/// Giving back a block keeps the free blocks apart: if no two free blocks
/// share a byte and the aligned block of class `c` at `start` shares none
/// with any of them, then after it is merged with its free buddies still
/// no two free blocks share a byte.
pub proof fn lemma_merge_keeps_blocks_apart(lists: Seq<Seq<u64>>, start: u64, c: nat)
    requires
        aligned_lists(lists),
        blocks_apart(lists),
        c <= MAX_ORDER,
        start as int % (pow2(c) as int) == 0,
        start + pow2(c) <= 0x1_0000_0000_0000_0000,
        apart_from_free(lists, start, c as int),
    ensures
        blocks_apart(merge(lists, start, c)),
{
    lemma_aligned_fit(lists);
    lemma_merge_apart(lists, start, c);
}

proof fn lemma_merge_apart(lists: Seq<Seq<u64>>, start: u64, c: nat)
    requires
        lists.len() == MAX_ORDER,
        blocks_apart(lists),
        blocks_fit(lists),
        c <= MAX_ORDER,
        start as int % (pow2(c) as int) == 0,
        start + pow2(c) <= 0x1_0000_0000_0000_0000,
        apart_from_free(lists, start, c as int),
    ensures
        blocks_apart(merge(lists, start, c)),
    decreases MAX_ORDER - c,
{
    if c < MAX_ORDER {
        let b = buddy_of(start, c);
        let l = lists[c as int];
        lemma_pow2_pos(c);
        if l.contains(b) {
            let i = choose|i: int| 0 <= i < l.len() && l[i] == b;
            assert forall|j: int| i < j < l.len() implies l[j] != b by {
                assert(!blocks_overlap(lists[c as int][i], c as int, lists[c as int][j], c as int));
            }
            lemma_remove_front_at(l, b, i);
            let after = lists.update(c as int, l.remove(i));
            lemma_remove_entry_apart(lists, c as int, i);
            lemma_buddy(start, c as u64);
            lemma_pow2_adds(c, 1);
            lemma2_to64();
            assert(pow2((c + 1) as nat) == 2 * pow2(c));
            let m = if start <= b { start } else { b };
            assert forall|k: int, x: int| 0 <= k < after.len() && 0 <= x < after[k].len() implies !blocks_overlap(
                m,
                (c + 1) as int,
                #[trigger] after[k][x],
                k,
            ) by {
                let ox = if k == c && x >= i { x + 1 } else { x };
                assert(after[k][x] == lists[k][ox]);
                assert(!blocks_overlap(start, c as int, lists[k][ox], k));
                assert(!blocks_overlap(b, c as int, after[k][x], k));
            }
            lemma_merge_apart(after, m, c + 1);
        } else {
            let after = lists.update(c as int, l.push(start));
            assert forall|k1: int, i1: int, k2: int, i2: int|
                0 <= k1 < after.len() && 0 <= i1 < after[k1].len() && 0 <= k2 < after.len() && 0 <= i2 < after[k2].len()
                    && (k1 != k2 || i1 != i2) implies !blocks_overlap(#[trigger] after[k1][i1], k1, #[trigger] after[k2][i2], k2) by {
                let new1 = k1 == c && i1 == l.len();
                let new2 = k2 == c && i2 == l.len();
                if new1 {
                    assert(!blocks_overlap(start, c as int, lists[k2][i2], k2));
                } else if new2 {
                    assert(!blocks_overlap(start, c as int, lists[k1][i1], k1));
                } else {
                    assert(after[k1][i1] == lists[k1][i1]);
                    assert(after[k2][i2] == lists[k2][i2]);
                }
            }
        }
    }
}

/// Giving back a block conserves memory: the free bytes grow by its size,
/// less what a merge up to `MAX_ORDER` drops.
pub proof fn lemma_merge_free_bytes(lists: Seq<Seq<u64>>, start: u64, c: nat)
    requires
        lists.len() == MAX_ORDER,
    ensures
        free_bytes(merge(lists, start, c)) + merge_dropped(lists, start, c) == free_bytes(lists)
            + pow2(c),
    decreases MAX_ORDER - c,
{
    if c < MAX_ORDER {
        let b = buddy_of(start, c);
        let l = lists[c as int];
        if l.contains(b) {
            let i = choose|i: int| 0 <= i < l.len() && l[i] == b && forall|j: int| i < j < l.len() ==> l[j] != b;
            assert(exists|i: int| 0 <= i < l.len() && l[i] == b && forall|j: int| i < j < l.len() ==> l[j] != b) by {
                lemma_last_index(l, b);
            }
            lemma_remove_front_at(l, b, i);
            let l2 = lists.update(c as int, remove_front(l, b));
            lemma_free_bytes_update(lists, c as int, remove_front(l, b));
            lemma_merge_free_bytes(l2, if start <= b { start } else { b }, c + 1);
            lemma_pow2_adds(c, 1);
            lemma2_to64();
            assert(remove_front(l, b).len() * pow2(c) + pow2(c) == l.len() * pow2(c)) by (nonlinear_arith)
                requires
                    remove_front(l, b).len() + 1 == l.len(),
            ;
        } else {
            lemma_free_bytes_update(lists, c as int, l.push(start));
            assert(l.push(start).len() * pow2(c) == l.len() * pow2(c) + pow2(c)) by (nonlinear_arith);
        }
    }
}

/// A value in a sequence has a last index holding it.
proof fn lemma_last_index(l: Seq<u64>, b: u64)
    requires
        l.contains(b),
    ensures
        exists|i: int| 0 <= i < l.len() && l[i] == b && forall|j: int| i < j < l.len() ==> l[j] != b,
    decreases l.len(),
{
    if l.last() == b {
        let i = l.len() - 1;
        assert(l[i] == b);
        assert(forall|j: int| i < j < l.len() ==> l[j] != b);
    } else {
        let j = choose|j: int| 0 <= j < l.len() && l[j] == b;
        assert(l.drop_last()[j] == b);
        lemma_last_index(l.drop_last(), b);
        let i = choose|i: int| 0 <= i < l.drop_last().len() && l.drop_last()[i] == b && forall|j: int| i < j < l.drop_last().len() ==> l.drop_last()[j] != b;
        assert(l[i] == b);
        assert forall|j: int| i < j < l.len() implies l[j] != b by {
            if j < l.len() - 1 {
                assert(l[j] == l.drop_last()[j]);
            }
        }
    }
}


/// The blocks added for a memory map: for each usable region, the blocks
/// from its start up to its last byte (the last byte itself is left out).
pub open spec fn map_blocks(regions: Seq<PhysicalMemoryRegion>) -> Seq<(u64, nat)>
    decreases regions.len(),
{
    if regions.len() == 0 {
        Seq::empty()
    } else {
        let r = regions[0];
        let own = if r.usable_spec() {
            blocks(r.start, (r.start + r.size - 1) as u64)
        } else {
            Seq::empty()
        };
        own + map_blocks(regions.drop_first())
    }
}

/// Every usable region of the map is non-empty and ends within the address space.
pub open spec fn usable_regions_fit(regions: Seq<PhysicalMemoryRegion>) -> bool {
    forall|i: int|
        0 <= i < regions.len() && (#[trigger] regions[i]).usable_spec() ==> regions[i].size >= 1
            && regions[i].start + regions[i].size <= u64::MAX
}

/// Pushing two runs of blocks is pushing their concatenation.
pub proof fn lemma_push_blocks_append(lists: Seq<Seq<u64>>, a: Seq<(u64, nat)>, b: Seq<(u64, nat)>)
    ensures
        push_blocks(push_blocks(lists, a), b) == push_blocks(lists, a + b),
    decreases a.len(),
{
    if a.len() > 0 {
        lemma_push_blocks_append(push_block(lists, a[0]), a.drop_first(), b);
        assert((a + b).drop_first() =~= a.drop_first() + b);
        assert((a + b)[0] == a[0]);
    } else {
        assert(a + b =~= b);
    }
}

/// A block of the heap, given by the address it starts at and its size.
#[derive(Clone, Copy, Debug)]
pub struct Chunk {
    pub start: u64,
    pub size: usize,
}

impl Chunk {
    /// A chunk of `size` bytes at `address`.
    pub fn new(address: u64, size: usize) -> (r: Self)
        ensures
            r.start == address,
            r.size == size,
    {
        Chunk { start: address, size }
    }

    pub fn size(&self) -> (r: usize)
        ensures
            r == self.size,
    {
        self.size
    }

    pub fn start(&self) -> (r: u64)
        ensures
            r == self.start,
    {
        self.start
    }

    /// The start address as a `usize`.
    pub fn address(&self) -> (r: usize)
        requires
            self.start <= usize::MAX,
        ensures
            r == self.start,
    {
        self.start as usize
    }
}

/// The largest power of two not above `num`.
pub fn previous_power_of_two(num: u64) -> (r: u64)
    requires
        num > 0,
    ensures
        r == pow2(floor_log2(num)),
        r <= num < 2 * r,
        floor_log2(num) < 64,
{
    proof {
        lemma_floor_log2(num);
    }
    let shift: u64 = (u64::BITS - num.leading_zeros() - 1) as u64;
    1u64 << shift
}

/// The least power of two not below `n`.
pub fn next_power_of_two(n: u64) -> (r: u64)
    requires
        n <= 0x8000_0000_0000_0000,
    ensures
        r == pow2(ceil_class(n as nat)),
        ceil_class(n as nat) < 64,
        is_ceil_class(ceil_class(n as nat), n as nat),
{
    let mut p: u64 = 1;
    let ghost mut k: nat = 0;
    proof {
        lemma2_to64();
    }
    while p < n
        invariant
            n <= 0x8000_0000_0000_0000,
            p == pow2(k),
            k < 64,
            k == 0 || pow2((k - 1) as nat) < n,
        decreases 64 - k,
    {
        proof {
            lemma2_to64();
            vstd::arithmetic::power2::lemma2_to64_rest();
            if k >= 63 {
                lemma_pow2_le(63, k);
            }
            lemma_pow2_adds(k, 1);
        }
        p = p * 2;
        proof {
            k = k + 1;
        }
    }
    proof {
        lemma_ceil_class(k, n as nat);
    }
    p
}

/// The buddy allocator of the kernel heap.
pub struct BuddyAllocator {
    buddies: Vec<Vec<u64>>,
}

impl View for BuddyAllocator {
    type V = Seq<Seq<u64>>;

    /// The free lists, by class.
    closed spec fn view(&self) -> Seq<Seq<u64>> {
        Seq::new(self.buddies@.len(), |k: int| self.buddies@[k]@)
    }
}

impl BuddyAllocator {
    /// The allocator's invariant: every free block is aligned to its size.
    pub open spec fn wf(&self) -> bool {
        aligned_lists(self@)
    }

    /// An allocator with no free memory.
    pub fn new() -> (r: Self)
        ensures
            r.wf(),
            r@ == Seq::new(MAX_ORDER as nat, |k: int| Seq::<u64>::empty()),
    {
        let mut buddies: Vec<Vec<u64>> = Vec::new();
        let mut k: usize = 0;
        while k < MAX_ORDER
            invariant
                k <= MAX_ORDER,
                buddies@.len() == k,
                forall|j: int| 0 <= j < k ==> (#[trigger] buddies@[j])@.len() == 0,
            decreases MAX_ORDER - k,
        {
            buddies.push(Vec::new());
            k = k + 1;
        }
        let r = BuddyAllocator { buddies };
        assert forall|j: int| 0 <= j < MAX_ORDER implies r@[j] == Seq::<u64>::empty() by {
            assert(r@[j] =~= Seq::<u64>::empty());
        }
        assert(r@ =~= Seq::new(MAX_ORDER as nat, |k: int| Seq::<u64>::empty()));
        r
    }

    /// Push a block on the front of list `k`.
    fn push_front(&mut self, k: usize, a: u64)
        requires
            k < old(self).buddies@.len(),
        ensures
            final(self)@ == old(self)@.update(k as int, old(self)@[k as int].push(a)),
            final(self).buddies@.len() == old(self).buddies@.len(),
            block_count(final(self)@) == block_count(old(self)@) + 1,
    {
        proof {
            lemma_block_count_update(old(self)@, k as int, old(self)@[k as int].push(a));
        }
        let mut list: Vec<u64> = Vec::new();
        std::mem::swap(&mut list, &mut self.buddies[k]);
        list.push(a);
        std::mem::swap(&mut list, &mut self.buddies[k]);
        proof {
            assert(self@ =~= old(self)@.update(k as int, old(self)@[k as int].push(a)));
        }
    }


    /// Pop the front block of list `k`.
    fn pop_front(&mut self, k: usize) -> (r: u64)
        requires
            k < old(self).buddies@.len(),
            old(self)@[k as int].len() > 0,
        ensures
            r == old(self)@[k as int].last(),
            final(self)@ == old(self)@.update(k as int, old(self)@[k as int].drop_last()),
            final(self).buddies@.len() == old(self).buddies@.len(),
            block_count(final(self)@) + 1 == block_count(old(self)@),
    {
        proof {
            lemma_block_count_update(old(self)@, k as int, old(self)@[k as int].drop_last());
        }
        let mut list: Vec<u64> = Vec::new();
        std::mem::swap(&mut list, &mut self.buddies[k]);
        let r = list.pop().unwrap();
        std::mem::swap(&mut list, &mut self.buddies[k]);
        proof {
            assert(self@ =~= old(self)@.update(k as int, old(self)@[k as int].drop_last()));
        }
        r
    }

    /// The size of the block handed out for `size` bytes aligned to `align`.
    pub fn align_layout_size(size: usize, align: usize) -> (r: usize)
        requires
            size <= isize::MAX,
            align <= isize::MAX + 1,
            is_power_of_two(align as nat),
        ensures
            r == pow2(layout_class(size, align)),
            is_ceil_class(layout_class(size, align), max3(size as nat, align as nat, MIN_BLOCK_SIZE as nat)),
            size <= 0x8_0000 && align <= 0x8_0000 ==> layout_class(size, align) < MAX_ORDER,
    {
        let ghost b: nat = (usize::BITS - 1) as nat;
        proof {
            lemma2_to64();
            vstd::arithmetic::power2::lemma2_to64_rest();
            assert(isize::MAX + 1 == pow2(b));
            lemma_pow2_le(b, 63);
        }
        let a = next_power_of_two(size as u64);
        proof {
            let ka = ceil_class(size as nat);
            if ka > b {
                lemma_pow2_le(b, (ka - 1) as nat);
            }
            lemma_pow2_le(ka, b);
        }
        let m0: u64 = if (align as u64) > (MIN_BLOCK_SIZE as u64) {
            align as u64
        } else {
            MIN_BLOCK_SIZE as u64
        };
        let m: u64 = if a > m0 {
            a
        } else {
            m0
        };
        let r = next_power_of_two(m);
        proof {
            let n = max3(size as nat, align as nat, MIN_BLOCK_SIZE as nat);
            let c = ceil_class(m as nat);
            let ka = ceil_class(size as nat);
            if a > m0 {
                if ka > 0 {
                    vstd::arithmetic::power2::lemma_pow2_strictly_increases((ka - 1) as nat, ka);
                }
                assert(is_ceil_class(ka, m as nat));
                lemma_ceil_class(ka, m as nat);
                assert(is_ceil_class(c, n));
            } else {
                assert(is_ceil_class(c, n));
            }
            lemma_ceil_class(c, n);
            if c > b {
                lemma_pow2_le(b, (c - 1) as nat);
            }
            lemma_pow2_le(c, b);
            if size <= 0x8_0000 && align <= 0x8_0000 {
                if ka > 19 {
                    lemma_pow2_le(19, (ka - 1) as nat);
                }
                lemma_pow2_le(ka, 19);
                if c > 19 {
                    lemma_pow2_le(19, (c - 1) as nat);
                }
            }
        }
        r as usize
    }

    /// Takes a block of class `class` off the free lists: the front block of
    /// that list, after splitting the front block of the first larger class
    /// with a free block down to it; `None` when no class at or above it has
    /// one. Each split uses two list nodes from `nodes`.
    pub fn alloc_class(&mut self, class: usize, nodes: &mut u64) -> (r: Option<u64>)
        requires
            old(self).wf(),
            class < MAX_ORDER,
            first_nonempty(old(self)@, class as int) < MAX_ORDER ==> *old(nodes) >= 2 * (first_nonempty(
                old(self)@,
                class as int,
            ) - class),
        ensures
            final(self).wf(),
            ({
                let i = first_nonempty(old(self)@, class as int);
                let s = split_down(old(self)@, i, class as int);
                &&& i == MAX_ORDER ==> r is None && final(self)@ == old(self)@ && *final(nodes) == *old(nodes)
                &&& i < MAX_ORDER ==> r == Some(s[class as int].last()) && final(self)@ == s.update(
                    class as int,
                    s[class as int].drop_last(),
                ) && *final(nodes) == *old(nodes) - 2 * (i - class)
                    && block_count(final(self)@) + 1 == block_count(old(self)@) + (i - class)
            }),
            r matches Some(a) ==> {
                &&& a as int % (pow2(class as nat) as int) == 0
                &&& a + pow2(class as nat) <= 0x1_0000_0000_0000_0000
                &&& free_bytes(final(self)@) + pow2(class as nat) == free_bytes(old(self)@)
            },
    {
        let mut i: usize = class;
        while i < MAX_ORDER && self.buddies[i].len() == 0
            invariant
                class <= i <= MAX_ORDER,
                *self == *old(self),
                self.wf(),
                first_nonempty(self@, class as int) == first_nonempty(self@, i as int),
                class < MAX_ORDER,
            decreases MAX_ORDER - i,
        {
            i = i + 1;
        }
        if i == MAX_ORDER {
            return None;
        }
        assert(first_nonempty(self@, i as int) == i);
        let mut j: usize = i;
        while j > class
            invariant
                class <= j <= i < MAX_ORDER,
                self.wf(),
                self@[j as int].len() > 0,
                split_down(self@, j as int, class as int) == split_down(old(self)@, i as int, class as int),
                free_bytes(self@) == free_bytes(old(self)@),
                i == first_nonempty(old(self)@, class as int),
                *nodes + 2 * (i - j) == *old(nodes),
                *nodes >= 2 * (j - class),
                block_count(self@) == block_count(old(self)@) + (i - j),
            decreases j,
        {
            let ghost before = self@;
            let a = self.pop_front(j);
            proof {
                lemma_shl_pow2((j - 1) as u64);
                lemma_pow2_adds((j - 1) as nat, 1);
                lemma2_to64();
                assert(before[j as int].last() == before[j as int][before[j as int].len() - 1]);
                lemma_pow2_divides(a as int, (j - 1) as nat, j as nat);
            }
            let half: u64 = 1u64 << ((j - 1) as u64);
            let b = a + half;
            self.push_front(j - 1, a);
            self.push_front(j - 1, b);
            proof {
                let p = pow2((j - 1) as nat);
                vstd::arithmetic::div_mod::lemma_mod_add_multiples_vanish(a as int, p as int);
                assert(self@ =~= split_once(before, j as int));
                assert forall|k: int, x: int| 0 <= k < MAX_ORDER && 0 <= x < self@[k].len() implies {
                    &&& (#[trigger] self@[k][x]) as int % (pow2(k as nat) as int) == 0
                    &&& self@[k][x] + pow2(k as nat) <= 0x1_0000_0000_0000_0000
                } by {
                    if k == j as int {
                        assert(self@[k][x] == before[k][x]);
                    } else if k == j - 1 && x >= before[k].len() {
                    } else {
                        assert(self@[k][x] == before[k][x]);
                    }
                }
                let l1 = before.update(j as int, before[j as int].drop_last());
                lemma_free_bytes_update(before, j as int, before[j as int].drop_last());
                lemma_free_bytes_update(l1, j - 1, l1[j - 1].push(a).push(b));
                assert(before[j as int].drop_last().len() * pow2(j as nat) + pow2(j as nat)
                    == before[j as int].len() * pow2(j as nat)) by (nonlinear_arith)
                    requires
                        before[j as int].drop_last().len() + 1 == before[j as int].len(),
                ;
                assert(l1[j - 1].push(a).push(b).len() * p == l1[j - 1].len() * p + 2 * p)
                    by (nonlinear_arith);
            }
            *nodes = *nodes - 2;
            j = j - 1;
        }
        let ghost before = self@;
        let a = self.pop_front(class);
        proof {
            lemma_free_bytes_update(before, class as int, before[class as int].drop_last());
            assert(before[class as int].drop_last().len() * pow2(class as nat) + pow2(class as nat)
                == before[class as int].len() * pow2(class as nat)) by (nonlinear_arith)
                requires
                    before[class as int].drop_last().len() + 1 == before[class as int].len(),
            ;
            assert(before[class as int].last() == before[class as int][before[class as int].len() - 1]);
            assert forall|k: int, x: int| 0 <= k < MAX_ORDER && 0 <= x < self@[k].len() implies {
                &&& (#[trigger] self@[k][x]) as int % (pow2(k as nat) as int) == 0
                &&& self@[k][x] + pow2(k as nat) <= 0x1_0000_0000_0000_0000
            } by {
                assert(self@[k][x] == before[k][x]);
            }
        }
        Some(a)
    }

    /// Allocates a block for `size` bytes aligned to `align`: a block of the
    /// least class that fits them and the bookkeeping of a free block.
    pub fn allocate(&mut self, size: usize, align: usize) -> (r: Option<Chunk>)
        requires
            old(self).wf(),
            size <= 0x8_0000,
            align <= 0x8_0000,
            is_power_of_two(align as nat),
        ensures
            final(self).wf(),
            ({
                let class = layout_class(size, align) as int;
                let i = first_nonempty(old(self)@, class);
                let s = split_down(old(self)@, i, class);
                &&& i == MAX_ORDER ==> r is None && final(self)@ == old(self)@
                &&& i < MAX_ORDER ==> r == Some(Chunk { start: s[class].last(), size: pow2(class as nat) as usize })
                    && final(self)@ == s.update(class, s[class].drop_last())
            }),
            r matches Some(c) ==> {
                &&& c.size >= size
                &&& c.size >= align
                &&& c.start as int % (c.size as int) == 0
                &&& c.start as int % (align as int) == 0
                &&& free_bytes(final(self)@) + c.size == free_bytes(old(self)@)
            },
            blocks_apart(old(self)@) ==> blocks_apart(final(self)@),
            blocks_apart(old(self)@) && r is Some ==> forall|k: int, x: int|
                0 <= k < final(self)@.len() && 0 <= x < final(self)@[k].len() ==> !blocks_overlap(
                    r->0.start,
                    layout_class(size, align) as int,
                    #[trigger] final(self)@[k][x],
                    k,
                ),
    {
        let size_b = Self::align_layout_size(size, align);
        let ghost class_n = layout_class(size, align);
        proof {
            lemma_shl_pow2(class_n as u64);
            lemma_trailing_zeros_pow2(class_n as u64);
            lemma_pow2_le(class_n, 19);
            lemma2_to64();
        }
        let class: usize = (size_b as u64).trailing_zeros() as usize;
        assert(class == class_n);
        let mut nodes: u64 = 2 * (MAX_ORDER as u64);
        let ghost before = self@;
        proof {
            lemma_first_nonempty_bounds(before, class as int);
        }
        match self.alloc_class(class, &mut nodes) {
            None => None,
            Some(a) => {
                proof {
                    if blocks_apart(before) {
                        lemma_allocation_keeps_blocks_apart(before, first_nonempty(before, class as int), class as int);
                    }
                    let ka = choose|ka: nat| align as nat == pow2(ka);
                    if ka > class_n {
                        lemma_pow2_le((class_n + 1) as nat, ka);
                        lemma_pow2_adds(class_n, 1);
                        lemma_pow2_pos(class_n);
                    }
                    lemma_pow2_divides(a as int, ka, class_n);
                    let n = max3(size as nat, align as nat, MIN_BLOCK_SIZE as nat);
                    assert(is_ceil_class(class_n, n));
                }
                Some(Chunk::new(a, size_b))
            }
        }
    }

    /// Take the frontmost `a` off list `k`; whether it was there.
    fn remove_from(&mut self, k: usize, a: u64) -> (found: bool)
        requires
            k < old(self).buddies@.len(),
        ensures
            found == old(self)@[k as int].contains(a),
            final(self)@ == old(self)@.update(k as int, remove_front(old(self)@[k as int], a)),
            final(self).buddies@.len() == old(self).buddies@.len(),
            block_count(final(self)@) + (if found { 1int } else { 0int }) == block_count(old(self)@),
    {
        let mut list: Vec<u64> = Vec::new();
        std::mem::swap(&mut list, &mut self.buddies[k]);
        let ghost l = list@;
        let mut i: usize = list.len();
        let mut found = false;
        while i > 0 && !found
            invariant
                list@ == l,
                i <= l.len(),
                found ==> i < l.len() && l[i as int] == a,
                forall|j: int| i < j < l.len() ==> l[j] != a,
                !found ==> forall|j: int| i <= j < l.len() ==> l[j] != a,
            decreases i + (if found { 0int } else { 1int }),
        {
            if list[i - 1] == a {
                found = true;
            }
            i = i - 1;
        }
        if found {
            proof {
                lemma_remove_front_at(l, a, i as int);
            }
            list.remove(i);
        } else {
            proof {
                assert(!l.contains(a)) by {
                    if l.contains(a) {
                        let j = choose|j: int| 0 <= j < l.len() && l[j] == a;
                    }
                }
                lemma_remove_front_absent(l, a);
            }
        }
        std::mem::swap(&mut list, &mut self.buddies[k]);
        proof {
            assert(self@ =~= old(self)@.update(k as int, remove_front(old(self)@[k as int], a)));
            lemma_block_count_update(old(self)@, k as int, remove_front(l, a));
        }
        found
    }

    /// Gives back the block at `start` of class `class`: while its buddy is
    /// free, takes the buddy off its list and moves on to the merged block of
    /// the next class, then pushes the block on its list. Each merge frees a
    /// list node into `nodes`, the push takes one.
    pub fn give_back(&mut self, start: u64, class: usize, nodes: &mut u64)
        requires
            old(self).wf(),
            class < 64,
            start as int % (pow2(class as nat) as int) == 0,
            start + pow2(class as nat) <= 0x1_0000_0000_0000_0000,
            *old(nodes) + MAX_ORDER <= u64::MAX,
            merge_dropped(old(self)@, start, class as nat) > 0 || *old(nodes) + merge_count(
                old(self)@,
                start,
                class as nat,
            ) >= 1,
        ensures
            final(self).wf(),
            final(self)@ == merge(old(self)@, start, class as nat),
            free_bytes(final(self)@) + merge_dropped(old(self)@, start, class as nat) == free_bytes(
                old(self)@,
            ) + pow2(class as nat),
            *final(nodes) + (if merge_dropped(old(self)@, start, class as nat) == 0 { 1int } else { 0int })
                == *old(nodes) + merge_count(old(self)@, start, class as nat),
            block_count(final(self)@) + merge_count(old(self)@, start, class as nat) == block_count(old(self)@)
                + (if merge_dropped(old(self)@, start, class as nat) == 0 { 1int } else { 0int }),
    {
        let ghost c0 = class as nat;
        let ghost s0 = start;
        proof {
            lemma_merge_free_bytes(old(self)@, start, c0);
        }
        let mut current_class: usize = class;
        let mut start: u64 = start;
        let mut done = false;
        while current_class < MAX_ORDER && !done
            invariant
                self.wf(),
                start as int % (pow2(current_class as nat) as int) == 0,
                start + pow2(current_class as nat) <= 0x1_0000_0000_0000_0000,
                current_class <= 64,
                done ==> self@ == merge(old(self)@, s0, c0),
                !done ==> merge(self@, start, current_class as nat) == merge(old(self)@, s0, c0),
                c0 <= current_class,
                *old(nodes) + MAX_ORDER <= u64::MAX,
                *nodes <= *old(nodes) + (current_class - c0),
                done ==> *nodes + 1 == *old(nodes) + merge_count(old(self)@, s0, c0) && merge_dropped(old(self)@, s0, c0) == 0,
                !done ==> *nodes + merge_count(self@, start, current_class as nat) == *old(nodes) + merge_count(old(self)@, s0, c0),
                *nodes + block_count(self@) == *old(nodes) + block_count(old(self)@),
                !done ==> merge_dropped(self@, start, current_class as nat) == merge_dropped(old(self)@, s0, c0),
                merge_dropped(old(self)@, s0, c0) > 0 || *old(nodes) + merge_count(old(self)@, s0, c0) >= 1,
            decreases MAX_ORDER - current_class + (if done { 0int } else { 1int }),
        {
            let ghost before = self@;
            proof {
                lemma_shl_pow2(current_class as u64);
                lemma_buddy(start, current_class as u64);
            }
            let buddy: u64 = start ^ (1u64 << (current_class as u64));
            if self.remove_from(current_class, buddy) {
                proof {
                    let l = before[current_class as int];
                    lemma_last_index(l, buddy);
                    let i = choose|i: int| 0 <= i < l.len() && l[i] == buddy && forall|j: int| i < j < l.len() ==> l[j] != buddy;
                    lemma_remove_front_at(l, buddy, i);
                    assert forall|k: int, x: int| 0 <= k < MAX_ORDER && 0 <= x < self@[k].len() implies {
                        &&& (#[trigger] self@[k][x]) as int % (pow2(k as nat) as int) == 0
                        &&& self@[k][x] + pow2(k as nat) <= 0x1_0000_0000_0000_0000
                    } by {
                        if k == current_class as int {
                            if x < i {
                                assert(self@[k][x] == before[k][x]);
                            } else {
                                assert(self@[k][x] == before[k][x + 1]);
                            }
                        } else {
                            assert(self@[k][x] == before[k][x]);
                        }
                    }
                }
                start = if start <= buddy {
                    start
                } else {
                    buddy
                };
                current_class = current_class + 1;
                *nodes = *nodes + 1;
            } else {
                proof {
                    lemma_remove_front_absent(before[current_class as int], buddy);
                    assert(self@ =~= before);
                    lemma_push_block_aligned(before, (start, current_class as nat));
                }
                self.push_front(current_class, start);
                *nodes = *nodes - 1;
                done = true;
            }
        }
        proof {
            if !done {
                lemma_pow2_pos(current_class as nat);
            }
        }
    }


    /// Gives a block back, merging it with its free buddies.
    pub fn dealloc(&mut self, chunk: Chunk)
        requires
            old(self).wf(),
            chunk.size == pow2(trailing_zeros(chunk.size as u64)),
            chunk.size > 0,
            chunk.start as int % (chunk.size as int) == 0,
            chunk.start + chunk.size <= 0x1_0000_0000_0000_0000,
        ensures
            final(self).wf(),
            final(self)@ == merge(old(self)@, chunk.start, trailing_zeros(chunk.size as u64)),
            free_bytes(final(self)@) + merge_dropped(old(self)@, chunk.start, trailing_zeros(chunk.size as u64))
                == free_bytes(old(self)@) + chunk.size,
            blocks_apart(old(self)@) && apart_from_free(old(self)@, chunk.start, trailing_zeros(chunk.size as u64) as int)
                ==> blocks_apart(final(self)@),
    {
        proof {
            axiom_u64_trailing_zeros(chunk.size as u64);
            let c = trailing_zeros(chunk.size as u64);
            if blocks_apart(self@) && apart_from_free(self@, chunk.start, c as int) && c <= MAX_ORDER {
                lemma_merge_keeps_blocks_apart(self@, chunk.start, c);
            }
        }
        let class: usize = (chunk.size() as u64).trailing_zeros() as usize;
        let mut nodes: u64 = 1;
        self.give_back(chunk.start(), class, &mut nodes);
    }

    /// Adds the usable regions of a memory map, each from its start up to its
    /// last byte.
    pub fn init_from_memory_map(&mut self, memory_map: Vec<PhysicalMemoryRegion>)
        requires
            old(self).wf(),
            usable_regions_fit(memory_map@),
        ensures
            final(self).wf(),
            final(self)@ == push_blocks(old(self)@, map_blocks(memory_map@)),
    {
        let mut i: usize = 0;
        assert(memory_map@.skip(0) =~= memory_map@);
        while i < memory_map.len()
            invariant
                i <= memory_map@.len(),
                self.wf(),
                usable_regions_fit(memory_map@),
                push_blocks(self@, map_blocks(memory_map@.skip(i as int))) == push_blocks(old(self)@, map_blocks(memory_map@)),
            decreases memory_map@.len() - i,
        {
            let region = memory_map[i];
            let ghost rest = memory_map@.skip(i as int);
            proof {
                assert(rest[0] == region);
                assert(rest.drop_first() =~= memory_map@.skip(i + 1));
            }
            if region.is_usable() {
                let start = VirtualAddress::new(region.start());
                let end = VirtualAddress::new(region.end() - 1);
                let ghost before = self@;
                self.add_region(start, end);
                proof {
                    lemma_push_blocks_append(before, blocks(region.start, (region.start + region.size - 1) as u64), map_blocks(rest.drop_first()));
                }
            } else {
                proof {
                    assert(map_blocks(rest) =~= map_blocks(rest.drop_first()));
                }
            }
            i = i + 1;
        }
        proof {
            assert(memory_map@.skip(i as int) =~= Seq::<PhysicalMemoryRegion>::empty());
        }
    }

    /// Adds the memory `[start, end)`, cut into blocks as large as their
    /// alignment allows; each block takes a list node from `nodes`.
    pub fn add_blocks(&mut self, start: u64, end: u64, nodes: &mut u64)
        requires
            old(self).wf(),
            start <= end,
            *old(nodes) >= blocks(start, end).len(),
        ensures
            final(self).wf(),
            final(self)@ == push_blocks(old(self)@, blocks(start, end)),
            free_bytes(final(self)@) == free_bytes(old(self)@) + (end - start),
            *final(nodes) == *old(nodes) - blocks(start, end).len(),
            block_count(final(self)@) == block_count(old(self)@) + blocks(start, end).len(),
    {
        let mut current_start: u64 = start;
        proof {
            lemma_blocks_tile(current_start, end);
        }
        while current_start < end
            invariant
                start <= current_start <= end,
                self.wf(),
                push_blocks(self@, blocks(current_start, end)) == push_blocks(old(self)@, blocks(start, end)),
                free_bytes(self@) + (end - current_start) == free_bytes(old(self)@) + (end - start),
                *nodes + blocks(start, end).len() == *old(nodes) + blocks(current_start, end).len(),
                *nodes >= blocks(current_start, end).len(),
                *nodes + block_count(self@) == *old(nodes) + block_count(old(self)@),
            decreases end - current_start,
        {
            let lowbit: u64 = if current_start > 0 {
                assert(!current_start < 0xffff_ffff_ffff_ffffu64) by (bit_vector)
                    requires
                        current_start > 0,
                ;
                current_start & (!current_start + 1)
            } else {
                64
            };
            let prev = previous_power_of_two(end - current_start);
            let top: u64 = 1u64 << 19u64;
            let size0: u64 = if lowbit < prev { lowbit } else { prev };
            let size: u64 = if size0 < top { size0 } else { top };
            let ghost k = block_class(current_start, end);
            proof {
                lemma_block_class(current_start, end);
                lemma_shl_pow2(19);
                lemma2_to64();
                if current_start > 0 {
                    lemma_lowest_bit(current_start);
                }
                let a = align_class(current_start);
                let f = floor_log2((end - current_start) as u64);
                assert(lowbit == pow2(a));
                if a <= f {
                    lemma_pow2_le(a, f);
                } else {
                    lemma_pow2_le(f, a);
                }
                if min_nat(a, f) <= 19 {
                    lemma_pow2_le(min_nat(a, f), 19);
                } else {
                    lemma_pow2_le(19, min_nat(a, f));
                }
                assert(size == pow2(k));
                lemma_shl_pow2(k as u64);
                lemma_trailing_zeros_pow2(k as u64);
                lemma_blocks_tile(current_start, end);
            }
            let class: usize = size.trailing_zeros() as usize;
            assert(class == k);
            proof {
                let bs = blocks(current_start, end);
                let next = (current_start + pow2(k)) as u64;
                assert(bs == seq![(current_start, k)] + blocks(next, end));
                assert(bs.drop_first() =~= blocks(next, end));
                assert(bs[0] == (current_start, k));
                lemma_push_block_aligned(self@, (current_start, k));
            }
            self.push_front(class, current_start);
            *nodes = *nodes - 1;
            current_start = current_start + size;
        }
        proof {
            assert(blocks(current_start, end) =~= Seq::<(u64, nat)>::empty());
        }
    }

    /// Adds the memory `[start, end)` to the allocator, cut into blocks as
    /// large as their alignment allows.
    pub fn add_region(&mut self, start: VirtualAddress, end: VirtualAddress)
        requires
            old(self).wf(),
            start.0 <= end.0,
        ensures
            final(self).wf(),
            final(self)@ == push_blocks(old(self)@, blocks(start.0, end.0)),
            free_bytes(final(self)@) == free_bytes(old(self)@) + (end.0 - start.0),
    {
        proof {
            lemma_blocks_len(start.0, end.0);
        }
        let mut nodes: u64 = u64::MAX;
        self.add_blocks(start.as_u64(), end.as_u64(), &mut nodes);
    }

    /// Adds `size` bytes starting at `start`.
    pub fn init(&mut self, start: VirtualAddress, size: usize)
        requires
            old(self).wf(),
            start.0 + size <= u64::MAX,
        ensures
            final(self).wf(),
            final(self)@ == push_blocks(old(self)@, blocks(start.0, (start.0 + size) as u64)),
            free_bytes(final(self)@) == free_bytes(old(self)@) + size,
    {
        let end = start + size;
        self.add_region(start, end);
    }
}

} // verus!
