//! The pool: one free list for each power of two between the smallest and the
//! largest block, under one byte budget.

use crate::block::{generation_bits, zeros, Block, BlockOps, BlockView};
use crate::config::AtomAllocConfig;
use crate::error::AtomAllocError;
use crate::queue::BlockQueue;
use crate::sizing::{
    checked_next_power_of_two, floor_log2, is_pow2, is_power_of_two, lemma_log2_of_pow2,
    lemma_next_pow2, lemma_next_pow2_of_pow2, lemma_pow2_double, lemma_pow2_gap,
    lemma_pow2_positive, lemma_pow2_ratio, log2, next_pow2, pow2, wrap_add, wrap_sub,
};
use crate::stats::{AtomAllocStats, Stats};
use vstd::prelude::*;

verus! {

/// The free list of one exact size, with two counters that are kept for
/// observation only.
struct SizePool {
    free_blocks: BlockQueue,
    block_size: usize,
    allocated_blocks: usize,
    total_blocks: usize,
}

/// What one free list is.
pub struct SizePoolView {
    /// The released blocks, the oldest first.
    pub free: Seq<BlockView>,
    pub block_size: usize,
    /// The blocks of this size that callers hold.
    pub allocated_blocks: usize,
    /// The blocks of this size that were ever created.
    pub total_blocks: usize,
}

/// What a pool is.
pub struct MemoryPoolView {
    pub config: AtomAllocConfig,
    /// The bytes that count against the budget.
    pub total_memory: usize,
    /// The free lists, by rising block size.
    pub pools: Seq<SizePoolView>,
}

pub struct MemoryPool {
    pools: Vec<SizePool>,
    config: AtomAllocConfig,
    total_memory: usize,
}

/// The part of the budget that can be handed out: three quarters of it.
pub open spec fn effective_max(max_memory: usize) -> int {
    (max_memory * 3) / 4
}

/// The free list that serves a request of `requested` bytes: the one of the
/// round-up to a power of two, where that lies between the two block sizes.
pub open spec fn pool_index(config: AtomAllocConfig, requested: usize) -> Option<int> {
    let rounded = next_pow2(requested as nat);
    if config.min_block_size <= rounded <= config.max_block_size {
        Some(log2(rounded) - log2(config.min_block_size as nat))
    } else {
        None
    }
}

/// `list` without its head.
pub open spec fn without_head(list: SizePoolView) -> SizePoolView {
    SizePoolView {
        free: list.free.drop_first(),
        allocated_blocks: wrap_add(list.allocated_blocks, 1),
        ..list
    }
}

/// `list` after a block was created for it.
pub open spec fn with_created(list: SizePoolView) -> SizePoolView {
    SizePoolView {
        allocated_blocks: wrap_add(list.allocated_blocks, 1),
        total_blocks: wrap_add(list.total_blocks, 1),
        ..list
    }
}

/// `list` with `block` at its tail.
pub open spec fn with_returned(list: SizePoolView, block: BlockView) -> SizePoolView {
    SizePoolView {
        free: list.free.push(block),
        allocated_blocks: wrap_sub(list.allocated_blocks, 1),
        ..list
    }
}

impl MemoryPoolView {
    /// The pool of `config` before anything was asked of it: an empty free list
    /// for each power of two from the smallest block to the largest.
    pub open spec fn empty(config: AtomAllocConfig) -> MemoryPoolView {
        MemoryPoolView {
            config,
            total_memory: 0,
            pools: Seq::new(
                (log2(config.max_block_size as nat) - log2(config.min_block_size as nat)
                    + 1) as nat,
                |i: int|
                    SizePoolView {
                        free: Seq::<BlockView>::empty(),
                        block_size: (config.min_block_size * pow2(i as nat)) as usize,
                        allocated_blocks: 0,
                        total_blocks: 0,
                    },
            ),
        }
    }

    /// The block sizes are valid, there is one free list for each power of two
    /// from the smallest block to the largest, and every block in a free list is
    /// of the list's size and held by nobody.
    pub open spec fn wf(self) -> bool {
        &&& self.config.block_sizes_valid()
        &&& self.pools.len() == log2(self.config.max_block_size as nat) - log2(
            self.config.min_block_size as nat,
        ) + 1
        &&& forall|i: int|
            0 <= i < self.pools.len() ==> (#[trigger] self.pools[i]).block_size
                == self.config.min_block_size * pow2(i as nat)
        &&& forall|i: int, j: int|
            0 <= i < self.pools.len() && 0 <= j < self.pools[i].free.len() ==> {
                let b = #[trigger] self.pools[i].free[j];
                &&& b.bytes.len() == self.pools[i].block_size
                &&& !b.in_use
            }
    }

    /// Every block in a free list holds only zero bytes and is marked so.
    pub open spec fn scrubbed(self) -> bool {
        forall|i: int, j: int|
            0 <= i < self.pools.len() && 0 <= j < self.pools[i].free.len() ==> (
            #[trigger] self.pools[i].free[j]).is_scrubbed()
    }

    /// The request cannot be served: its round-up is above the largest block or
    /// below the smallest, or the budget does not allow it.
    pub open spec fn refusal(self, size: usize) -> Option<AtomAllocError> {
        let rounded = next_pow2(size as nat);
        if rounded > self.config.max_block_size {
            Some(AtomAllocError::OutOfMemory)
        } else if rounded < self.config.min_block_size {
            Some(
                AtomAllocError::InvalidSize {
                    requested: size,
                    max_allowed: self.config.max_block_size,
                },
            )
        } else if self.total_memory + rounded > effective_max(self.config.max_memory) {
            Some(AtomAllocError::OutOfMemory)
        } else {
            None
        }
    }

    /// The request is served from a free list.
    pub open spec fn reuses(self, size: usize) -> bool {
        &&& self.refusal(size) is None
        &&& self.pools[pool_index(self.config, size).unwrap()].free.len() > 0
    }

    /// The pool after it has served a request of `size` bytes, or refused it.
    pub open spec fn after_allocate(self, size: usize) -> MemoryPoolView {
        if self.refusal(size) is Some {
            self
        } else {
            let i = pool_index(self.config, size).unwrap();
            if self.pools[i].free.len() > 0 {
                MemoryPoolView { pools: self.pools.update(i, without_head(self.pools[i])), ..self }
            } else {
                MemoryPoolView {
                    total_memory: (self.total_memory + next_pow2(size as nat)) as usize,
                    pools: self.pools.update(i, with_created(self.pools[i])),
                    ..self
                }
            }
        }
    }

    /// The counters after the pool has served a request of `size` bytes, or
    /// refused it: only a block that is created is counted.
    pub open spec fn stats_after_allocate(self, size: usize, stats: Stats) -> Stats {
        if self.refusal(size) is Some || self.reuses(size) {
            stats
        } else {
            stats.with_allocation(next_pow2(size as nat) as usize)
        }
    }

    /// What the block is that a request of `size` bytes gets: the head of the free
    /// list, now in use, or a new block of zero bytes with the generation given.
    pub open spec fn allocated_block(self, size: usize, generation: u64) -> BlockView {
        if self.reuses(size) {
            self.pools[pool_index(self.config, size).unwrap()].free[0].acquired()
        } else {
            BlockView {
                in_use: false,
                zeroed: true,
                generation: generation_bits(generation),
                bytes: zeros(next_pow2(size as nat)),
            }
        }
    }

    /// The pool after `block`, released, came back; a block that no free list takes
    /// is dropped, and nothing changes.
    pub open spec fn after_deallocate(self, block: BlockView) -> MemoryPoolView {
        match pool_index(self.config, block.size()) {
            Some(i) => MemoryPoolView {
                total_memory: wrap_sub(self.total_memory, block.size()),
                pools: self.pools.update(i, with_returned(self.pools[i], block.released())),
                ..self
            },
            None => self,
        }
    }

    /// The counters after a block of `size` bytes came back.
    pub open spec fn stats_after_deallocate(self, size: usize, stats: Stats) -> Stats {
        if pool_index(self.config, size) is Some {
            stats.with_deallocation(size)
        } else {
            stats
        }
    }
}

impl MemoryPoolView {
    /// Serving or refusing a request keeps the pool well formed, and scrubbed where
    /// it was; a refusal changes nothing, and the budget is kept.
    pub proof fn lemma_after_allocate(self, size: usize)
        requires
            self.wf(),
        ensures
            self.after_allocate(size).wf(),
            self.after_allocate(size).config == self.config,
            self.scrubbed() ==> self.after_allocate(size).scrubbed(),
            self.refusal(size) is Some ==> self.after_allocate(size) == self,
            self.reuses(size) ==> self.after_allocate(size).total_memory == self.total_memory,
            self.refusal(size) is None && !self.reuses(size) ==> self.after_allocate(
                size,
            ).total_memory == self.total_memory + next_pow2(size as nat),
            self.total_memory <= effective_max(self.config.max_memory) ==> self.after_allocate(
                size,
            ).total_memory <= effective_max(self.config.max_memory),
    {
        if self.refusal(size) is None {
            lemma_pool_index(self, size);
            let i = pool_index(self.config, size).unwrap();
            let after = self.after_allocate(size);
            assert forall|m: int, j: int|
                0 <= m < after.pools.len() && 0 <= j < after.pools[m].free.len() implies {
                let b = #[trigger] after.pools[m].free[j];
                &&& b.bytes.len() == after.pools[m].block_size
                &&& !b.in_use
                &&& (self.scrubbed() ==> b.is_scrubbed())
            } by {
                if m == i && self.pools[i].free.len() > 0 {
                    assert(after.pools[m].free[j] == self.pools[m].free[j + 1]);
                } else {
                    assert(after.pools[m].free[j] == self.pools[m].free[j]);
                }
            }
            assert forall|m: int| 0 <= m < after.pools.len() implies (
            #[trigger] after.pools[m]).block_size
                == after.config.min_block_size * pow2(m as nat) by {
                assert(after.pools[m].block_size == self.pools[m].block_size);
            }
        }
    }

    /// The block that a request gets is of the round-up of the size asked. One
    /// that comes out of a free list is in use; a new one holds only zero bytes,
    /// and so does one out of a scrubbed pool.
    pub proof fn lemma_allocated_block(self, size: usize, generation: u64)
        requires
            self.wf(),
            self.refusal(size) is None,
        ensures
            self.allocated_block(size, generation).bytes.len() == next_pow2(size as nat),
            self.reuses(size) ==> self.allocated_block(size, generation).in_use
                && self.allocated_block(size, generation).generation
                == self.pools[pool_index(self.config, size).unwrap()].free[0].generation,
            !self.reuses(size) ==> self.allocated_block(size, generation).is_scrubbed()
                && self.allocated_block(size, generation).generation == generation_bits(
                generation,
            ),
            self.scrubbed() ==> self.allocated_block(size, generation).is_scrubbed(),
    {
        lemma_pool_index(self, size);
        let i = pool_index(self.config, size).unwrap();
        if self.reuses(size) {
            let head = self.pools[i].free[0];
            assert(head.acquired().bytes == head.bytes);
        } else {
            assert(zeros(next_pow2(size as nat)).len() == next_pow2(size as nat));
        }
    }

    /// Taking back a block of the size of its free list keeps the pool well
    /// formed, and scrubbed where it was and the block is.
    pub proof fn lemma_after_deallocate(self, block: BlockView)
        requires
            self.wf(),
            block.bytes.len() <= usize::MAX,
            pool_index(self.config, block.size()) is Some ==> is_pow2(block.bytes.len() as int),
        ensures
            self.after_deallocate(block).wf(),
            self.after_deallocate(block).config == self.config,
            self.scrubbed() && block.is_scrubbed() ==> self.after_deallocate(block).scrubbed(),
            pool_index(self.config, block.size()) is None ==> self.after_deallocate(block)
                == self,
    {
        if pool_index(self.config, block.size()) is Some {
            lemma_pool_index(self, block.size());
            let k = choose|k: nat| block.bytes.len() as int == #[trigger] pow2(k);
            lemma_next_pow2_of_pow2(k);
            let i = pool_index(self.config, block.size()).unwrap();
            let after = self.after_deallocate(block);
            assert forall|m: int, j: int|
                0 <= m < after.pools.len() && 0 <= j < after.pools[m].free.len() implies {
                let b = #[trigger] after.pools[m].free[j];
                &&& b.bytes.len() == after.pools[m].block_size
                &&& !b.in_use
                &&& (self.scrubbed() && block.is_scrubbed() ==> b.is_scrubbed())
            } by {
                if m == i && j == self.pools[i].free.len() {
                    assert(after.pools[m].free[j] == block.released());
                } else {
                    assert(after.pools[m].free[j] == self.pools[m].free[j]);
                }
            }
            assert forall|m: int| 0 <= m < after.pools.len() implies (
            #[trigger] after.pools[m]).block_size
                == after.config.min_block_size * pow2(m as nat) by {
                assert(after.pools[m].block_size == self.pools[m].block_size);
            }
        }
    }
}

impl SizePool {
    spec fn view(&self) -> SizePoolView {
        SizePoolView {
            free: self.free_blocks@,
            block_size: self.block_size,
            allocated_blocks: self.allocated_blocks,
            total_blocks: self.total_blocks,
        }
    }

    /// Every block in the free list is well formed.
    spec fn blocks_wf(&self) -> bool {
        self.free_blocks.wf()
    }

    fn new(block_size: usize) -> (p: Self)
        ensures
            p.blocks_wf(),
            p.view() == (SizePoolView {
                free: Seq::<BlockView>::empty(),
                block_size,
                allocated_blocks: 0,
                total_blocks: 0,
            }),
    {
        SizePool {
            free_blocks: BlockQueue::new(),
            block_size,
            allocated_blocks: 0,
            total_blocks: 0,
        }
    }

    fn get_free_block(&mut self) -> (r: Option<Block>)
        requires
            old(self).blocks_wf(),
        ensures
            final(self).blocks_wf(),
            old(self).view().free.len() == 0 ==> r is None && final(self).view() == old(
                self,
            ).view(),
            old(self).view().free.len() > 0 ==> r is Some && r->Some_0.wf() && r->Some_0@ == old(
                self,
            ).view().free[0] && final(self).view() == (SizePoolView {
                free: old(self).view().free.drop_first(),
                ..old(self).view()
            }),
    {
        self.free_blocks.pop()
    }

    fn push_free_block(&mut self, block: Block)
        requires
            old(self).blocks_wf(),
            block.wf(),
        ensures
            final(self).blocks_wf(),
            final(self).view() == (SizePoolView {
                free: old(self).view().free.push(block@),
                ..old(self).view()
            }),
    {
        self.free_blocks.push(block);
    }
}

/// Three quarters of `max_memory`.
fn budget(max_memory: usize) -> (r: usize)
    ensures
        r == effective_max(max_memory),
{
    max_memory / 4 * 3 + (max_memory % 4) * 3 / 4
}

/// Puts `new` into `word` where it holds `current`, and says with `Ok` that it
/// did; the value that `word` held is returned either way.
fn compare_exchange(word: &mut usize, current: usize, new: usize) -> (r: Result<usize, usize>)
    ensures
        *old(word) == current ==> r == Ok::<usize, usize>(current) && *final(word) == new,
        *old(word) != current ==> r == Err::<usize, usize>(*old(word)) && *final(word) == *old(
            word,
        ),
{
    let held = *word;
    if held == current {
        *word = new;
        Ok(held)
    } else {
        Err(held)
    }
}

/// In a well-formed pool the free list that serves a size exists and is of the
/// size's round-up.
pub proof fn lemma_pool_index(pool: MemoryPoolView, size: usize)
    requires
        pool.wf(),
        pool_index(pool.config, size) is Some,
    ensures
        0 <= pool_index(pool.config, size).unwrap() < pool.pools.len(),
        pool.pools[pool_index(pool.config, size).unwrap()].block_size == next_pow2(size as nat),
{
    let rounded = next_pow2(size as nat);
    let min = pool.config.min_block_size as nat;
    let max = pool.config.max_block_size as nat;
    lemma_next_pow2(size as nat);
    lemma_pow2_ratio(min, rounded);
    lemma_pow2_ratio(rounded, max);
    lemma_pow2_ratio(min, max);
}

impl View for MemoryPool {
    type V = MemoryPoolView;

    closed spec fn view(&self) -> MemoryPoolView {
        MemoryPoolView {
            config: self.config,
            total_memory: self.total_memory,
            pools: Seq::new(self.pools@.len(), |i: int| self.pools@[i].view()),
        }
    }
}

impl MemoryPool {
    /// The pool is as `MemoryPoolView::wf` says, and every block in a free list is
    /// well formed.
    pub closed spec fn wf(&self) -> bool {
        &&& self@.wf()
        &&& forall|i: int| 0 <= i < self.pools@.len() ==> (#[trigger] self.pools@[i]).blocks_wf()
    }

    /// What `wf` says of the pool's view.
    pub proof fn lemma_wf_view(&self)
        requires
            self.wf(),
        ensures
            self@.wf(),
    {
    }

    /// A pool with an empty free list for each power of two from the smallest block
    /// to the largest, and nothing counted against the budget.
    pub fn new(config: &AtomAllocConfig) -> (p: Self)
        requires
            config.block_sizes_valid(),
        ensures
            p.wf(),
            p@ == MemoryPoolView::empty(*config),
    {
        let pools = Self::create_size_pools(config);
        let p = MemoryPool { pools, config: *config, total_memory: 0 };
        proof {
            assert forall|i: int| 0 <= i < p@.pools.len() implies (#[trigger] p@.pools[i])
                == MemoryPoolView::empty(*config).pools[i] by {
                assert(p@.pools[i] == p.pools@[i].view());
            }
            assert(p@.pools =~= MemoryPoolView::empty(*config).pools);
        }
        p
    }

    fn create_size_pools(config: &AtomAllocConfig) -> (pools: Vec<SizePool>)
        requires
            config.block_sizes_valid(),
        ensures
            pools@.len() == log2(config.max_block_size as nat) - log2(
                config.min_block_size as nat,
            ) + 1,
            forall|i: int|
                0 <= i < pools@.len() ==> (#[trigger] pools@[i]).blocks_wf() && pools@[i].view()
                    == (SizePoolView {
                    free: Seq::<BlockView>::empty(),
                    block_size: (config.min_block_size * pow2(i as nat)) as usize,
                    allocated_blocks: 0,
                    total_blocks: 0,
                }) && config.min_block_size * pow2(i as nat) <= config.max_block_size,
    {
        let min = config.min_block_size;
        let max = config.max_block_size;
        let mut pools: Vec<SizePool> = Vec::new();
        let mut size: usize = min;
        proof {
            lemma_pow2_ratio(min as nat, max as nat);
            assert(pow2(0) == 1);
            assert(min * pow2(0) == min) by (nonlinear_arith)
                requires
                    pow2(0) == 1,
            ;
        }
        while size < max
            invariant
                config.block_sizes_valid(),
                min == config.min_block_size,
                max == config.max_block_size,
                is_pow2(size as int),
                min <= size <= max,
                size == min * pow2(pools@.len()),
                pools@.len() == log2(size as nat) - log2(min as nat),
                forall|i: int|
                    0 <= i < pools@.len() ==> (#[trigger] pools@[i]).blocks_wf()
                        && pools@[i].view() == (SizePoolView {
                        free: Seq::<BlockView>::empty(),
                        block_size: (min * pow2(i as nat)) as usize,
                        allocated_blocks: 0,
                        total_blocks: 0,
                    }) && min * pow2(i as nat) <= max,
            decreases max - size,
        {
            proof {
                let k = choose|k: nat| size as int == #[trigger] pow2(k);
                let m = choose|m: nat| max as int == #[trigger] pow2(m);
                lemma_pow2_gap(k, m);
                lemma_pow2_double(k);
                lemma_pow2_double(pools@.len());
                lemma_log2_of_pow2(k);
                lemma_log2_of_pow2(k + 1);
                lemma_pow2_positive(k);
                assert(is_pow2(2 * size));
                assert(min * (2 * pow2(pools@.len())) == 2 * (min * pow2(pools@.len())))
                    by (nonlinear_arith);
            }
            let ghost earlier = pools@;
            pools.push(SizePool::new(size));
            proof {
                assert forall|i: int| 0 <= i < pools@.len() implies (
                #[trigger] pools@[i]).blocks_wf()
                    && pools@[i].view() == (SizePoolView {
                    free: Seq::<BlockView>::empty(),
                    block_size: (min * pow2(i as nat)) as usize,
                    allocated_blocks: 0,
                    total_blocks: 0,
                }) && min * pow2(i as nat) <= max by {
                    if i < earlier.len() {
                        assert(pools@[i] == earlier[i]);
                    }
                }
            }
            size = size * 2;
        }
        let ghost earlier = pools@;
        pools.push(SizePool::new(size));
        proof {
            assert forall|i: int| 0 <= i < pools@.len() implies (#[trigger] pools@[i]).blocks_wf()
                && pools@[i].view() == (SizePoolView {
                free: Seq::<BlockView>::empty(),
                block_size: (min * pow2(i as nat)) as usize,
                allocated_blocks: 0,
                total_blocks: 0,
            }) && min * pow2(i as nat) <= max by {
                if i < earlier.len() {
                    assert(pools@[i] == earlier[i]);
                }
            }
        }
        pools
    }

    /// The index of the free list that serves `requested_size`.
    fn get_size_pool(&self, requested_size: usize) -> (r: Result<usize, AtomAllocError>)
        requires
            self.wf(),
        ensures
            match pool_index(self@.config, requested_size) {
                Some(i) => r is Ok && r->Ok_0 == i && i < self@.pools.len(),
                None => r == Err::<usize, AtomAllocError>(
                    AtomAllocError::InvalidSize {
                        requested: requested_size,
                        max_allowed: self@.config.max_block_size,
                    },
                ),
            },
    {
        proof {
            lemma_next_pow2(requested_size as nat);
        }
        let size = match checked_next_power_of_two(requested_size) {
            Some(size) => size,
            None => {
                return Err(
                    AtomAllocError::InvalidSize {
                        requested: requested_size,
                        max_allowed: self.config.max_block_size,
                    },
                );
            },
        };
        if size < self.config.min_block_size {
            return Err(
                AtomAllocError::InvalidSize {
                    requested: requested_size,
                    max_allowed: self.config.max_block_size,
                },
            );
        }
        proof {
            lemma_pow2_ratio(self.config.min_block_size as nat, size as nat);
            lemma_pow2_ratio(
                self.config.min_block_size as nat,
                self.config.max_block_size as nat,
            );
            if size <= self.config.max_block_size {
                lemma_pow2_ratio(size as nat, self.config.max_block_size as nat);
            } else {
                lemma_pow2_ratio(self.config.max_block_size as nat, size as nat);
            }
        }
        let min_bits = floor_log2(self.config.min_block_size);
        let size_bits = floor_log2(size);
        let index = size_bits - min_bits;
        if index < self.pools.len() {
            Ok(index)
        } else {
            Err(
                AtomAllocError::InvalidSize {
                    requested: requested_size,
                    max_allowed: self.config.max_block_size,
                },
            )
        }
    }

    /// Whether `deallocate` can take the block: it can, unless a free list serves
    /// the block's size and the size is no power of two.
    pub fn accepts(&self, block: &Block) -> (r: bool)
        requires
            self.wf(),
            block.wf(),
        ensures
            r == (pool_index(self@.config, block@.size()) is Some ==> is_pow2(
                block@.bytes.len() as int,
            )),
    {
        let size = block.size();
        match self.get_size_pool(size) {
            Ok(_) => is_power_of_two(size),
            Err(_) => true,
        }
    }

    /// Serves a request of `size` bytes with a block of the round-up to a power of
    /// two: the head of the matching free list where there is one, else a new
    /// block with the generation given, whose bytes are counted against the budget
    /// and in `stats`. Refuses, and changes nothing, where `refusal` says so.
    pub fn allocate_with_generation(
        &mut self,
        size: usize,
        generation: u64,
        stats: &mut AtomAllocStats,
    ) -> (r: Result<Block, AtomAllocError>)
        requires
            old(self).wf(),
        ensures
            final(self).wf(),
            final(self)@ == old(self)@.after_allocate(size),
            final(stats)@ == old(self)@.stats_after_allocate(size, old(stats)@),
            match r {
                Ok(block) => old(self)@.refusal(size) is None && block.wf() && block@ == old(
                    self,
                )@.allocated_block(size, generation),
                Err(e) => old(self)@.refusal(size) == Some(e),
            },
            r is Ok ==> r->Ok_0@.bytes.len() == next_pow2(size as nat),
    {
        proof {
            lemma_next_pow2(size as nat);
        }
        let rounded_size = match checked_next_power_of_two(size) {
            Some(rounded) => rounded,
            None => {
                return Err(AtomAllocError::OutOfMemory);
            },
        };
        if rounded_size > self.config.max_block_size {
            return Err(AtomAllocError::OutOfMemory);
        }
        let index = match self.get_size_pool(size) {
            Ok(index) => index,
            Err(e) => {
                return Err(e);
            },
        };
        proof {
            lemma_pool_index(self@, size);
            assert(self@.pools[index as int] == self.pools@[index as int].view());
        }
        let actual_size = self.pools[index].block_size;
        let current_total = self.total_memory;
        let effective_max = budget(self.config.max_memory);
        if actual_size > effective_max || current_total > effective_max - actual_size {
            return Err(AtomAllocError::OutOfMemory);
        }
        if let Some(block) = self.pools[index].get_free_block() {
            let mut block = block;
            if block.try_acquire() {
                let held = self.pools[index].allocated_blocks;
                self.pools[index].allocated_blocks = held.wrapping_add(1);
                proof {
                    let before = old(self)@;
                    let after = self@;
                    assert(after.pools =~= before.pools.update(
                        index as int,
                        without_head(before.pools[index as int]),
                    ));
                }
                return Ok(block);
            }
        }
        let new_total = current_total + actual_size;
        match compare_exchange(&mut self.total_memory, current_total, new_total) {
            Ok(_) => {
                let block = Block::new(actual_size, generation);
                stats.record_allocation(actual_size);
                let created = self.pools[index].total_blocks;
                self.pools[index].total_blocks = created.wrapping_add(1);
                let held = self.pools[index].allocated_blocks;
                self.pools[index].allocated_blocks = held.wrapping_add(1);
                proof {
                    let before = old(self)@;
                    let after = self@;
                    assert(after.pools =~= before.pools.update(
                        index as int,
                        with_created(before.pools[index as int]),
                    ));
                }
                Ok(block)
            },
            Err(_) => Err(AtomAllocError::OutOfMemory),
        }
    }

    /// Takes a block back: releases it, puts it at the tail of the free list of
    /// its size, and takes its bytes off the budget and off the bytes held in
    /// `stats`. A block whose size no free list serves is dropped.
    pub fn deallocate(&mut self, block: Block, stats: &mut AtomAllocStats)
        requires
            old(self).wf(),
            block.wf(),
            pool_index(old(self)@.config, block@.size()) is Some ==> is_pow2(
                block@.bytes.len() as int,
            ),
        ensures
            final(self).wf(),
            final(self)@ == old(self)@.after_deallocate(block@),
            final(stats)@ == old(self)@.stats_after_deallocate(
                block@.size(),
                old(stats)@,
            ),
    {
        let mut block = block;
        let size = block.size();
        if let Ok(index) = self.get_size_pool(size) {
            proof {
                lemma_pool_index(self@, size);
                assert(self@.pools[index as int] == self.pools@[index as int].view());
                let k = choose|k: nat| size as int == #[trigger] pow2(k);
                lemma_next_pow2_of_pow2(k);
            }
            self.total_memory = self.total_memory.wrapping_sub(size);
            block.release();
            self.pools[index].push_free_block(block);
            stats.record_deallocation(size);
            let held = self.pools[index].allocated_blocks;
            self.pools[index].allocated_blocks = held.wrapping_sub(1);
            proof {
                let before = old(self)@;
                let after = self@;
                assert(after.pools =~= before.pools.update(
                    index as int,
                    with_returned(before.pools[index as int], block@),
                ));
            }
        }
    }
}

} // verus!
