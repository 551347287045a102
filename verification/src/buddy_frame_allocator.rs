//! A buddy allocator for physical memory whose free lists draw their nodes
//! from a fixed pool.
//!
//! The blocks and the way they are split and merged are those of the heap
//! allocator (`allocator::buddy_allocator`); in addition every block on a
//! free list occupies one node of a pool of `LIST_SIZE` nodes, and running
//! out of nodes is an error the caller must rule out.
use vstd::prelude::*;
use vstd::arithmetic::power2::{pow2, lemma2_to64};
use crate::allocator::buddy_allocator::{
    apart_from_free, block_count, blocks, blocks_apart, blocks_overlap, ceil_class, first_nonempty, free_bytes, lemma_push_blocks_append,
    map_blocks, merge, merge_count, merge_dropped, next_power_of_two, push_blocks, split_down,
    usable_regions_fit, BuddyAllocator, MAX_ORDER,
};
use crate::memory::{MemoryRegion, PhysicalMemoryRegion, PhysicalMemoryRegionType};
use crate::pow2::{lemma_pow2_le, lemma_shl_pow2, lemma_trailing_zeros_pow2, trailing_zeros};
use vstd::std_specs::bits::axiom_u64_trailing_zeros;

verus! {

/// Number of list nodes in the pool.
pub const LIST_SIZE: u64 = 512;

/// A buddy allocator of physical memory with a pool of `LIST_SIZE` list nodes.
pub struct BuddyFrameAllocator {
    buddies: BuddyAllocator,
    free_nodes: u64,
}

impl BuddyFrameAllocator {
    /// The free lists, by class: start addresses, front last.
    pub closed spec fn lists(&self) -> Seq<Seq<u64>> {
        self.buddies@
    }

    /// Nodes left in the pool.
    pub closed spec fn pool(&self) -> nat {
        self.free_nodes as nat
    }

    /// Free blocks are aligned to their size, and the nodes in the pool and
    /// on the lists are no more than the pool was made with.
    pub closed spec fn wf(&self) -> bool {
        &&& self.buddies.wf()
        &&& self.free_nodes + block_count(self.buddies@) <= LIST_SIZE
    }

    /// An allocator with empty free lists and a full pool.
    pub fn new() -> (r: Self)
        ensures
            r.wf(),
            r.lists() == Seq::new(MAX_ORDER as nat, |k: int| Seq::<u64>::empty()),
            r.pool() == LIST_SIZE,
    {
        let buddies = BuddyAllocator::new();
        proof {
            let l = buddies@;
            assert(block_count(l) == 0) by {
                lemma_count_empty(l, MAX_ORDER as int);
            }
        }
        BuddyFrameAllocator { buddies, free_nodes: LIST_SIZE }
    }

    /// Adds the usable regions of a memory map, each from its start up to its
    /// last byte.
    pub fn init(&mut self, memory_map: Vec<PhysicalMemoryRegion>)
        requires
            old(self).wf(),
            usable_regions_fit(memory_map@),
            old(self).pool() >= map_blocks(memory_map@).len(),
        ensures
            final(self).wf(),
            final(self).lists() == push_blocks(old(self).lists(), map_blocks(memory_map@)),
            final(self).pool() == old(self).pool() - map_blocks(memory_map@).len(),
    {
        let mut i: usize = 0;
        assert(memory_map@.skip(0) =~= memory_map@);
        while i < memory_map.len()
            invariant
                i <= memory_map@.len(),
                self.wf(),
                usable_regions_fit(memory_map@),
                push_blocks(self.lists(), map_blocks(memory_map@.skip(i as int))) == push_blocks(
                    old(self).lists(),
                    map_blocks(memory_map@),
                ),
                self.pool() >= map_blocks(memory_map@.skip(i as int)).len(),
                self.pool() + map_blocks(memory_map@).len() == old(self).pool() + map_blocks(
                    memory_map@.skip(i as int),
                ).len(),
            decreases memory_map@.len() - i,
        {
            let region = memory_map[i];
            let ghost rest = memory_map@.skip(i as int);
            proof {
                assert(rest[0] == region);
                assert(rest.drop_first() =~= memory_map@.skip(i + 1));
            }
            if region.is_usable() {
                let start = region.start();
                let end = region.end() - 1;
                let ghost before = self.lists();
                self.add_frame(start, end);
                proof {
                    lemma_push_blocks_append(
                        before,
                        blocks(region.start, (region.start + region.size - 1) as u64),
                        map_blocks(rest.drop_first()),
                    );
                }
            } else {
                proof {
                    assert(map_blocks(rest) =~= map_blocks(rest.drop_first()));
                }
            }
            i = i + 1;
        }
        proof {
            assert(memory_map@.skip(i as int) =~= Seq::<PhysicalMemoryRegion>::empty());
        }
    }

    /// Adds the memory `[start, end)`, cut into blocks as large as their
    /// alignment allows, each taking a node from the pool.
    pub fn add_frame(&mut self, start: u64, end: u64)
        requires
            old(self).wf(),
            start <= end,
            old(self).pool() >= blocks(start, end).len(),
        ensures
            final(self).wf(),
            final(self).lists() == push_blocks(old(self).lists(), blocks(start, end)),
            final(self).pool() == old(self).pool() - blocks(start, end).len(),
            free_bytes(final(self).lists()) == free_bytes(old(self).lists()) + (end - start),
    {
        self.buddies.add_blocks(start, end, &mut self.free_nodes);
    }

    /// Allocates a block of the least power of two not below `size` bytes,
    /// aligned to its size: the front block of that class, split from the
    /// first larger class with a free block; `None` when there is none. Each
    /// split takes two nodes from the pool; the node of the block handed
    /// out goes back to it.
    pub fn allocate(&mut self, size: u64) -> (r: Option<PhysicalMemoryRegion>)
        requires
            old(self).wf(),
            size <= 0x8_0000,
            first_nonempty(old(self).lists(), ceil_class(size as nat) as int) < MAX_ORDER ==> old(
                self,
            ).pool() >= 2 * (first_nonempty(old(self).lists(), ceil_class(size as nat) as int) - ceil_class(
                size as nat,
            )),
        ensures
            final(self).wf(),
            ({
                let class = ceil_class(size as nat) as int;
                let i = first_nonempty(old(self).lists(), class);
                let s = split_down(old(self).lists(), i, class);
                &&& i == MAX_ORDER ==> r is None && final(self).lists() == old(self).lists()
                    && final(self).pool() == old(self).pool()
                &&& i < MAX_ORDER ==> r == Some(
                    PhysicalMemoryRegion {
                        start: s[class].last(),
                        size: pow2(class as nat) as u64,
                        typ: PhysicalMemoryRegionType::Reserved,
                    },
                ) && final(self).lists() == s.update(class, s[class].drop_last()) && final(self).pool()
                    == old(self).pool() - 2 * (i - class) + 1
            }),
            r matches Some(region) ==> {
                &&& region.size >= size
                &&& region.start as int % (region.size as int) == 0
                &&& free_bytes(final(self).lists()) + region.size == free_bytes(old(self).lists())
            },
            blocks_apart(old(self).lists()) ==> blocks_apart(final(self).lists()),
            blocks_apart(old(self).lists()) && r is Some ==> forall|k: int, x: int|
                0 <= k < final(self).lists().len() && 0 <= x < final(self).lists()[k].len() ==> !blocks_overlap(
                    r->0.start,
                    ceil_class(size as nat) as int,
                    #[trigger] final(self).lists()[k][x],
                    k,
                ),
    {
        let ghost c = ceil_class(size as nat);
        let size = next_power_of_two(size);
        proof {
            if c > 19 {
                lemma2_to64();
                lemma_pow2_le(19, (c - 1) as nat);
            }
            lemma_shl_pow2(c as u64);
            lemma_trailing_zeros_pow2(c as u64);
        }
        let class: usize = size.trailing_zeros() as usize;
        proof {
            crate::allocator::buddy_allocator::lemma_first_nonempty_bounds(self.lists(), class as int);
        }
        match self.buddies.alloc_class(class, &mut self.free_nodes) {
            None => None,
            Some(start) => {
                proof {
                    let before = old(self).lists();
                    if blocks_apart(before) {
                        crate::allocator::buddy_allocator::lemma_allocation_keeps_blocks_apart(
                            before,
                            first_nonempty(before, class as int),
                            class as int,
                        );
                    }
                }
                self.free_nodes = self.free_nodes + 1;
                Some(PhysicalMemoryRegion::new(start, size, PhysicalMemoryRegionType::default()))
            },
        }
    }

    /// Gives a block back, merging it with its free buddies.
    pub fn dealloc(&mut self, region: PhysicalMemoryRegion)
        requires
            old(self).wf(),
            region.size % 2 == 0,
            region.size > 0,
            region.size == pow2(trailing_zeros(region.size)),
            region.start as int % (region.size as int) == 0,
            region.start + region.size <= 0x1_0000_0000_0000_0000,
            merge_dropped(old(self).lists(), region.start, trailing_zeros(region.size)) > 0
                || old(self).pool() + merge_count(old(self).lists(), region.start, trailing_zeros(region.size)) >= 1,
        ensures
            final(self).wf(),
            final(self).lists() == merge(old(self).lists(), region.start, trailing_zeros(region.size)),
            final(self).pool() + (if merge_dropped(old(self).lists(), region.start, trailing_zeros(region.size)) == 0 {
                1int
            } else {
                0int
            }) == old(self).pool() + merge_count(old(self).lists(), region.start, trailing_zeros(region.size)),
            free_bytes(final(self).lists()) + merge_dropped(old(self).lists(), region.start, trailing_zeros(region.size))
                == free_bytes(old(self).lists()) + region.size,
            blocks_apart(old(self).lists()) && apart_from_free(old(self).lists(), region.start, trailing_zeros(region.size) as int)
                ==> blocks_apart(final(self).lists()),
    {
        proof {
            axiom_u64_trailing_zeros(region.size);
            let c = trailing_zeros(region.size);
            if blocks_apart(self.lists()) && apart_from_free(self.lists(), region.start, c as int) && c <= MAX_ORDER {
                crate::allocator::buddy_allocator::lemma_merge_keeps_blocks_apart(self.lists(), region.start, c);
            }
        }
        let class: usize = region.size.trailing_zeros() as usize;
        self.buddies.give_back(region.start(), class, &mut self.free_nodes);
    }
}

proof fn lemma_count_empty(l: Seq<Seq<u64>>, n: int)
    requires
        0 <= n <= l.len(),
        forall|k: int| 0 <= k < l.len() ==> (#[trigger] l[k]).len() == 0,
    ensures
        crate::allocator::buddy_allocator::count_below(l, n) == 0,
    decreases n,
{
    if n > 0 {
        lemma_count_empty(l, n - 1);
    }
}

} // verus!
