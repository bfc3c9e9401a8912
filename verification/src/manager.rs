//! The issuer of generations, and the keeper of the scrubbing rule.

use crate::block::{Block, BlockOps};
use crate::config::AtomAllocConfig;
use crate::error::{AtomAllocError, BlockError};
use vstd::prelude::*;

verus! {

pub struct BlockManager {
    config: AtomAllocConfig,
    current_generation: u64,
}

/// The generation after `g`; the counter goes round at `u64::MAX`.
pub open spec fn next_generation(g: u64) -> u64 {
    if g == u64::MAX {
        0
    } else {
        (g + 1) as u64
    }
}

impl BlockManager {
    /// The generation that the next call of `new_generation` returns.
    pub closed spec fn current(&self) -> u64 {
        self.current_generation
    }

    /// Whether blocks are scrubbed on their way back, and generations verified.
    pub closed spec fn zeroing(&self) -> bool {
        self.config.zero_on_dealloc
    }

    /// A manager that has issued nothing yet.
    pub fn new(config: &AtomAllocConfig) -> (m: Self)
        ensures
            m.current() == 0,
            m.zeroing() == config.zero_on_dealloc,
    {
        BlockManager { config: *config, current_generation: 0 }
    }

    /// Refuses a block whose generation is above the counter. Without scrubbing
    /// nothing is refused.
    pub fn verify_generation(&self, block: &Block) -> (r: Result<(), AtomAllocError>)
        ensures
            self.zeroing() && block@.generation > self.current() ==> r == Err::<
                (),
                AtomAllocError,
            >(
                AtomAllocError::BlockError(
                    BlockError::InvalidGeneration {
                        block: block@.generation,
                        expected: self.current(),
                    },
                ),
            ),
            !(self.zeroing() && block@.generation > self.current()) ==> r is Ok,
    {
        if !self.config.zero_on_dealloc {
            return Ok(());
        }
        let block_gen = block.generation();
        let current_gen = self.current_generation;
        if block_gen > current_gen {
            return Err(
                AtomAllocError::BlockError(
                    BlockError::InvalidGeneration { block: block_gen, expected: current_gen },
                ),
            );
        }
        Ok(())
    }

    /// Issues the counter's value and moves the counter on by one.
    pub fn new_generation(&mut self) -> (g: u64)
        ensures
            g == old(self).current(),
            final(self).current() == next_generation(old(self).current()),
            final(self).zeroing() == old(self).zeroing(),
    {
        let g = self.current_generation;
        self.current_generation = g.wrapping_add(1);
        g
    }

    /// Scrubs the block where scrubbing is switched on, and leaves it alone where
    /// it is not.
    pub fn zero_block(&self, block: &mut Block)
        requires
            old(block).wf(),
        ensures
            final(block).wf(),
            self.zeroing() ==> final(block)@ == old(block)@.cleared(),
            !self.zeroing() ==> final(block)@ == old(block)@,
    {
        if self.config.zero_on_dealloc {
            block.clear();
        }
    }

    /// Of two generations issued one after the other, the second is the greater,
    /// as long as the counter has not reached `u64::MAX`.
    pub proof fn lemma_generations_increase(before: Self, between: Self, first: u64, second: u64)
        requires
            first == before.current(),
            between.current() == next_generation(before.current()),
            second == between.current(),
            before.current() < u64::MAX,
        ensures
            first < second,
    {
    }
}

} // verus!
