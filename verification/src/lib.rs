//! A block allocator: requests are rounded up to a power of two and served from a
//! cache of size classes, or from a pool under a byte budget.

pub mod block;
pub mod cache;
pub mod config;
pub mod error;
pub mod guarantees;
pub mod manager;
pub mod model;
pub mod pool;
pub mod queue;
pub mod sizing;
pub mod stats;
pub mod text;

pub use crate::stats::Stats;

use crate::block::{Block, BlockOps, BlockView};
use crate::cache::{world, BlockCache};
use crate::config::AtomAllocConfig;
use crate::error::AtomAllocError;
use crate::guarantees::{
    lemma_allocate_scrubbed, lemma_allocated_size, lemma_allocate_within_budget, lemma_deallocate_scrubbed,
    lemma_deallocate_within_budget, lemma_initial_scrubbed, lemma_initial_within_budget,
};
use crate::manager::BlockManager;
use crate::model::AllocatorView;
use crate::pool::MemoryPool;
use crate::sizing::{is_power_of_two, next_pow2, pow2};
use crate::stats::AtomAllocStats;
use vstd::prelude::*;

verus! {

/// The allocator: the cache in front, the pool behind it, the manager that
/// issues generations, and the counters.
pub struct AtomAlloc {
    pool: MemoryPool,
    cache: BlockCache,
    block_manager: BlockManager,
    stats: AtomAllocStats,
    config: AtomAllocConfig,
}

impl View for AtomAlloc {
    type V = AllocatorView;

    closed spec fn view(&self) -> AllocatorView {
        world(self.cache, self.block_manager, self.pool, self.stats)
    }
}

impl AtomAlloc {
    /// The cache and the pool are well formed, the settings are valid, the pool
    /// and the manager go by them, and with scrubbing switched on every block that
    /// waits is scrubbed.
    pub closed spec fn wf(&self) -> bool {
        &&& self.cache.wf()
        &&& self.pool.wf()
        &&& self.config.valid()
        &&& self.pool@.config == self.config
        &&& self.block_manager.zeroing() == self.config.zero_on_dealloc
        &&& self.block_manager.zeroing() ==> self@.scrubbed()
    }

    /// What `wf` says of the allocator's view.
    pub proof fn lemma_wf_view(&self)
        requires
            self.wf(),
        ensures
            self@.wf(),
            self@.pool.config.valid(),
            self@.zeroing == self@.pool.config.zero_on_dealloc,
            self@.zeroing ==> self@.scrubbed(),
    {
        self.cache.lemma_wf_view();
        self.pool.lemma_wf_view();
    }

    /// An allocator with the default settings.
    pub fn new() -> (a: Self)
        ensures
            a.wf(),
            a@.pool.config.is_default(),
            a@ == AllocatorView::initial(a@.pool.config),
            a@.within_budget(),
    {
        let config = AtomAllocConfig::default();
        proof {
            reveal_with_fuel(pow2, 17);
            assert(64 == pow2(6));
            assert(65536 == pow2(16));
            assert(16 == pow2(4));
        }
        Self::with_config(config)
    }

    /// An allocator with the settings given, which have to be valid.
    pub fn with_config(config: AtomAllocConfig) -> (a: Self)
        requires
            config.valid(),
        ensures
            a.wf(),
            a@ == AllocatorView::initial(config),
            a@.within_budget(),
    {
        let stats = AtomAllocStats::new();
        let pool = MemoryPool::new(&config);
        let block_manager = BlockManager::new(&config);
        let cache = BlockCache::new();
        proof {
            lemma_initial_scrubbed(config);
            lemma_initial_within_budget(config);
        }
        AtomAlloc { pool, cache, block_manager, stats, config }
    }

    /// Serves a request of `size` bytes. `alignment` has to be a power of two and
    /// has no other effect. A block that does not come out of the cache is of the
    /// round-up of `size` to a power of two. With scrubbing switched on, the block
    /// that is handed out holds only zero bytes; and an allocator within its
    /// budget stays within it.
    pub fn allocate(&mut self, size: usize, alignment: usize) -> (r: Result<Block, AtomAllocError>)
        requires
            old(self).wf(),
        ensures
            final(self).wf(),
            final(self)@ == old(self)@.after_allocate(size, alignment),
            match r {
                Ok(block) => block.wf() && old(self)@.allocated(size, alignment) == Ok::<
                    BlockView,
                    AtomAllocError,
                >(block@),
                Err(e) => old(self)@.allocated(size, alignment) == Err::<
                    BlockView,
                    AtomAllocError,
                >(e),
            },
            r is Ok && old(self)@.hit_class(size) is None ==> r->Ok_0@.bytes.len() == next_pow2(
                size as nat,
            ),
            old(self)@.zeroing && r is Ok ==> r->Ok_0@.is_scrubbed(),
            old(self)@.within_budget() ==> final(self)@.within_budget(),
    {
        proof {
            if old(self)@.allocated(size, alignment) is Ok {
                self.cache.lemma_wf_view();
                self.pool.lemma_wf_view();
                lemma_allocated_size(self@, size, alignment);
            }
            self.cache.lemma_wf_view();
            self.pool.lemma_wf_view();
            if self@.zeroing {
                lemma_allocate_scrubbed(self@, size, alignment);
            }
            if self@.within_budget() {
                lemma_allocate_within_budget(self@, size, alignment);
            }
        }
        if !is_power_of_two(alignment) {
            return Err(
                AtomAllocError::InvalidAlignment {
                    requested: alignment,
                    supported: self.config.alignment,
                },
            );
        }
        match self.cache.allocate(size, &mut self.block_manager, &mut self.pool, &mut self.stats) {
            Ok(block) => {
                match self.block_manager.verify_generation(&block) {
                    Ok(_) => Ok(block),
                    Err(e) => Err(e),
                }
            },
            Err(_) => {
                let generation = self.block_manager.new_generation();
                self.pool.allocate_with_generation(size, generation, &mut self.stats)
            },
        }
    }

    /// Whether `deallocate` can take the block: the block has to be of the size of
    /// the class or of the free list that it goes to.
    pub fn accepts(&self, block: &Block) -> (r: bool)
        requires
            self.wf(),
            block.wf(),
        ensures
            r == self@.takes_back(block@),
    {
        self.cache.accepts(block, &self.pool)
    }

    /// Takes a block back. The block has to be of the size of the class or of the
    /// free list that it goes to. An allocator within its budget stays within it
    /// where the bytes of the block were counted as held.
    pub fn deallocate(&mut self, block: Block)
        requires
            old(self).wf(),
            block.wf(),
            old(self)@.takes_back(block@),
        ensures
            final(self).wf(),
            final(self)@ == old(self)@.after_cache_deallocate(block@),
            old(self)@.within_budget() && old(self)@.stats.current >= block@.bytes.len()
                ==> final(self)@.within_budget(),
    {
        proof {
            self.cache.lemma_wf_view();
            self.pool.lemma_wf_view();
            block.lemma_size_fits();
            if self@.zeroing {
                lemma_deallocate_scrubbed(self@, block@);
            }
            if self@.within_budget() && self@.stats.current >= block@.bytes.len() {
                lemma_deallocate_within_budget(self@, block@);
            }
        }
        self.cache.deallocate(block, &self.block_manager, &mut self.pool, &mut self.stats);
    }

    /// The five counters.
    pub fn stats(&self) -> (r: Stats)
        ensures
            r == self@.stats,
    {
        Stats {
            allocated: self.stats.allocated_bytes(),
            freed: self.stats.freed_bytes(),
            current: self.stats.current_bytes(),
            cache_hits: self.stats.cache_hits(),
            cache_misses: self.stats.cache_misses(),
        }
    }

    /// The settings.
    pub fn config(&self) -> (r: &AtomAllocConfig)
        ensures
            self.wf() ==> *r == self@.pool.config,
    {
        &self.config
    }
}

} // verus!
