//! The allocator as a mathematical value, and what each operation makes of it.
//! The contracts of the cache and of the allocator are stated over this model.

use crate::block::BlockView;
use crate::cache::{class_index, classes_wf, empty_classes, takes_back, SizeClassView};
use crate::config::AtomAllocConfig;
use crate::error::{AtomAllocError, BlockError};
use crate::manager::next_generation;
use crate::pool::MemoryPoolView;
use crate::sizing::is_pow2;
use crate::stats::Stats;
use vstd::prelude::*;

verus! {

/// The allocator: the classes of the cache, the pool behind them, the generation
/// that is issued next, whether blocks are scrubbed, and the counters.
pub struct AllocatorView {
    pub classes: Seq<SizeClassView>,
    pub pool: MemoryPoolView,
    pub generation: u64,
    pub zeroing: bool,
    pub stats: Stats,
}

impl AllocatorView {
    /// The classes and the pool are well formed.
    pub open spec fn wf(self) -> bool {
        &&& classes_wf(self.classes)
        &&& self.pool.wf()
    }

    /// The class that serves a request of `size` bytes: the class of the size,
    /// where it holds a block.
    pub open spec fn hit_class(self, size: usize) -> Option<int> {
        match class_index(size) {
            Some(i) => if self.classes[i].hot.len() > 0 || self.classes[i].cold.len() > 0 {
                Some(i)
            } else {
                None
            },
            None => None,
        }
    }

    /// The allocator after the cache was asked for `size` bytes. A hit takes a
    /// block out of its class and counts its bytes and the hit; a miss counts the
    /// miss, issues a generation and leaves the rest to the pool.
    pub open spec fn after_cache_allocate(self, size: usize) -> AllocatorView {
        match self.hit_class(size) {
            Some(i) => AllocatorView {
                classes: self.classes.update(i, self.classes[i].after_get()),
                stats: self.stats.with_allocation(self.classes[i].size).with_hit(),
                ..self
            },
            None => AllocatorView {
                generation: next_generation(self.generation),
                pool: self.pool.after_allocate(size),
                stats: self.pool.stats_after_allocate(size, self.stats.with_miss()),
                ..self
            },
        }
    }

    /// What the cache answers to a request of `size` bytes: on a hit the block
    /// taken, now in use; on a miss what the pool answers, a new block getting the
    /// generation issued.
    pub open spec fn cache_allocated(self, size: usize) -> Result<BlockView, AtomAllocError> {
        match self.hit_class(size) {
            Some(i) => Ok(self.classes[i].taken().unwrap().acquired()),
            None => match self.pool.refusal(size) {
                Some(e) => Err(e),
                None => Ok(self.pool.allocated_block(size, self.generation)),
            },
        }
    }

    /// The block as it is stored when it comes back: released, and scrubbed where
    /// scrubbing is switched on.
    pub open spec fn stored(self, block: BlockView) -> BlockView {
        if self.zeroing {
            block.released().cleared()
        } else {
            block.released()
        }
    }

    /// The allocator after `block` came back: it is stored in the class of its
    /// size, or in the pool where it has no class.
    pub open spec fn after_cache_deallocate(self, block: BlockView) -> AllocatorView {
        match class_index(block.size()) {
            Some(i) => AllocatorView {
                classes: self.classes.update(i, self.classes[i].after_return(self.stored(block))),
                stats: self.stats.with_deallocation(block.size()),
                ..self
            },
            None => AllocatorView {
                pool: self.pool.after_deallocate(self.stored(block)),
                stats: self.pool.stats_after_deallocate(block.size(), self.stats),
                ..self
            },
        }
    }

    /// The cache and the pool can take `block` back.
    pub open spec fn takes_back(self, block: BlockView) -> bool {
        takes_back(self.pool.config, block)
    }

    /// The allocator of `config` before anything was asked of it.
    pub open spec fn initial(config: AtomAllocConfig) -> AllocatorView {
        AllocatorView {
            classes: empty_classes(),
            pool: MemoryPoolView::empty(config),
            generation: 0,
            zeroing: config.zero_on_dealloc,
            stats: Stats { allocated: 0, freed: 0, current: 0, cache_hits: 0, cache_misses: 0 },
        }
    }

    /// The allocator after the pool was asked once more for `size` bytes, with a
    /// new generation.
    pub open spec fn after_pool_allocate(self, size: usize) -> AllocatorView {
        AllocatorView {
            generation: next_generation(self.generation),
            pool: self.pool.after_allocate(size),
            stats: self.pool.stats_after_allocate(size, self.stats),
            ..self
        }
    }

    /// The allocator after a request of `size` bytes with `alignment`. An
    /// alignment that is no power of two changes nothing; else the cache is asked,
    /// and where it refuses, the pool once more.
    pub open spec fn after_allocate(self, size: usize, alignment: usize) -> AllocatorView {
        if !is_pow2(alignment as int) {
            self
        } else if self.cache_allocated(size) is Ok {
            self.after_cache_allocate(size)
        } else {
            self.after_cache_allocate(size).after_pool_allocate(size)
        }
    }

    /// The answer to a request of `size` bytes with `alignment`: the block that
    /// the cache found, unless its generation is above the counter while
    /// scrubbing is on; where the cache refused, what the pool answers when it is
    /// asked once more.
    pub open spec fn allocated(self, size: usize, alignment: usize) -> Result<
        BlockView,
        AtomAllocError,
    > {
        let asked = self.after_cache_allocate(size);
        if !is_pow2(alignment as int) {
            Err(
                AtomAllocError::InvalidAlignment {
                    requested: alignment,
                    supported: self.pool.config.alignment,
                },
            )
        } else {
            match self.cache_allocated(size) {
                Ok(block) => if self.zeroing && block.generation > asked.generation {
                    Err(
                        AtomAllocError::BlockError(
                            BlockError::InvalidGeneration {
                                block: block.generation,
                                expected: asked.generation,
                            },
                        ),
                    )
                } else {
                    Ok(block)
                },
                Err(_) => match asked.pool.refusal(size) {
                    Some(e) => Err(e),
                    None => Ok(asked.pool.allocated_block(size, asked.generation)),
                },
            }
        }
    }
}

} // verus!
