//! The five counters of an allocator.

use crate::sizing::{wrap_add, wrap_sub};
use vstd::prelude::*;

verus! {

/// The five counters as plain numbers, read at one moment.
#[derive(Debug, Clone, Copy, PartialEq, Eq, Structural)]
pub struct Stats {
    pub allocated: usize,
    pub freed: usize,
    pub current: usize,
    pub cache_hits: usize,
    pub cache_misses: usize,
}

impl Stats {
    /// The counters after `size` bytes were handed out.
    pub open spec fn with_allocation(self, size: usize) -> Stats {
        Stats {
            allocated: wrap_add(self.allocated, size),
            current: wrap_add(self.current, size),
            ..self
        }
    }

    /// The counters after `size` bytes were taken back.
    pub open spec fn with_deallocation(self, size: usize) -> Stats {
        Stats { freed: wrap_add(self.freed, size), current: wrap_sub(self.current, size), ..self }
    }

    /// The counters after the cache served a request.
    pub open spec fn with_hit(self) -> Stats {
        Stats { cache_hits: wrap_add(self.cache_hits, 1), ..self }
    }

    /// The counters after the cache did not serve a request.
    pub open spec fn with_miss(self) -> Stats {
        Stats { cache_misses: wrap_add(self.cache_misses, 1), ..self }
    }
}

/// Bytes handed out, bytes taken back, bytes held at present, and the hits and
/// misses of the cache. Each counter goes round at `usize::MAX`.
pub struct AtomAllocStats {
    total_allocated: usize,
    total_freed: usize,
    current_allocated: usize,
    cache_hits: usize,
    cache_misses: usize,
}

impl View for AtomAllocStats {
    type V = Stats;

    closed spec fn view(&self) -> Stats {
        Stats {
            allocated: self.total_allocated,
            freed: self.total_freed,
            current: self.current_allocated,
            cache_hits: self.cache_hits,
            cache_misses: self.cache_misses,
        }
    }
}

impl AtomAllocStats {
    /// All counters at zero.
    pub fn new() -> (s: Self)
        ensures
            s@ == (Stats { allocated: 0, freed: 0, current: 0, cache_hits: 0, cache_misses: 0 }),
    {
        AtomAllocStats {
            total_allocated: 0,
            total_freed: 0,
            current_allocated: 0,
            cache_hits: 0,
            cache_misses: 0,
        }
    }

    /// `size` more bytes are handed out and held.
    pub fn record_allocation(&mut self, size: usize)
        ensures
            final(self)@ == old(self)@.with_allocation(size),
    {
        self.total_allocated = self.total_allocated.wrapping_add(size);
        self.current_allocated = self.current_allocated.wrapping_add(size);
    }

    /// `size` bytes are taken back and no longer held.
    pub fn record_deallocation(&mut self, size: usize)
        ensures
            final(self)@ == old(self)@.with_deallocation(size),
    {
        self.total_freed = self.total_freed.wrapping_add(size);
        self.current_allocated = self.current_allocated.wrapping_sub(size);
    }

    /// One more request that the cache served.
    pub fn record_cache_hit(&mut self)
        ensures
            final(self)@ == old(self)@.with_hit(),
    {
        self.cache_hits = self.cache_hits.wrapping_add(1);
    }

    /// One more request that the cache did not serve.
    pub fn record_cache_miss(&mut self)
        ensures
            final(self)@ == old(self)@.with_miss(),
    {
        self.cache_misses = self.cache_misses.wrapping_add(1);
    }

    /// The bytes handed out so far.
    pub fn allocated_bytes(&self) -> (r: usize)
        ensures
            r == self@.allocated,
    {
        self.total_allocated
    }

    /// The bytes taken back so far.
    pub fn freed_bytes(&self) -> (r: usize)
        ensures
            r == self@.freed,
    {
        self.total_freed
    }

    /// The bytes held at present.
    pub fn current_bytes(&self) -> (r: usize)
        ensures
            r == self@.current,
    {
        self.current_allocated
    }

    /// The requests that the cache served.
    pub fn cache_hits(&self) -> (r: usize)
        ensures
            r == self@.cache_hits,
    {
        self.cache_hits
    }

    /// The requests that the cache did not serve.
    pub fn cache_misses(&self) -> (r: usize)
        ensures
            r == self@.cache_misses,
    {
        self.cache_misses
    }
}

} // verus!
