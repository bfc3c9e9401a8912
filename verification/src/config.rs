//! The settings of an allocator and the rules that they must meet.

use crate::sizing::{is_pow2, is_power_of_two};
use crate::text::{around_number, around_two_numbers, decimal};
use std::time::Duration;
use vstd::prelude::*;

verus! {

/// The whole seconds that a duration holds.
pub uninterp spec fn whole_secs(d: Duration) -> u64;

/// `Duration::from_secs`: a duration of `secs` whole seconds.
pub assume_specification[ Duration::from_secs ](secs: u64) -> (d: Duration)
    ensures
        whole_secs(d) == secs,
;

#[derive(Clone, Copy, Debug)]
pub struct AtomAllocConfig {
    /// The byte budget; three quarters of it can be handed out.
    pub max_memory: usize,
    /// The largest block.
    pub max_block_size: usize,
    /// The smallest block.
    pub min_block_size: usize,
    pub alignment: usize,
    pub cache_ttl: Duration,
    pub max_caches: usize,
    pub initial_pool_size: usize,
    /// Whether a block is scrubbed when it comes back.
    pub zero_on_dealloc: bool,
}

impl Default for AtomAllocConfig {
    fn default() -> (c: Self)
        ensures
            c.is_default(),
    {
        AtomAllocConfig {
            max_memory: 1073741824,
            max_block_size: 65536,
            min_block_size: 64,
            alignment: 16,
            cache_ttl: Duration::from_secs(300),
            max_caches: 1000,
            initial_pool_size: 1048576,
            zero_on_dealloc: true,
        }
    }
}

impl AtomAllocConfig {
    /// The default settings: a budget of 1 GiB, blocks from 64 bytes to 64 KiB,
    /// scrubbing switched on.
    pub open spec fn is_default(&self) -> bool {
        &&& self.max_memory == 1073741824
        &&& self.max_block_size == 65536
        &&& self.min_block_size == 64
        &&& self.alignment == 16
        &&& whole_secs(self.cache_ttl) == 300
        &&& self.max_caches == 1000
        &&& self.initial_pool_size == 1048576
        &&& self.zero_on_dealloc
    }

    /// The two block sizes are powers of two, and the smallest is not above the
    /// largest.
    pub open spec fn block_sizes_valid(&self) -> bool {
        &&& is_pow2(self.min_block_size as int)
        &&& is_pow2(self.max_block_size as int)
        &&& self.min_block_size <= self.max_block_size
    }

    /// Every rule holds.
    pub open spec fn valid(&self) -> bool {
        &&& self.max_memory >= self.initial_pool_size
        &&& self.block_sizes_valid()
        &&& is_pow2(self.alignment as int)
        &&& self.max_caches > 0
    }

    /// The complaint about the first rule that does not hold, in the order in which
    /// `validate` tests them.
    pub open spec fn complaint(&self) -> Option<Seq<char>> {
        if self.max_memory < self.initial_pool_size {
            Some(
                "max_memory ("@ + decimal(self.max_memory as nat)
                    + ") must be >= initial_pool_size ("@ + decimal(
                    self.initial_pool_size as nat,
                ) + ")"@,
            )
        } else if !is_pow2(self.min_block_size as int) {
            Some(
                "min_block_size ("@ + decimal(self.min_block_size as nat)
                    + ") must be a power of 2"@,
            )
        } else if !is_pow2(self.max_block_size as int) {
            Some(
                "max_block_size ("@ + decimal(self.max_block_size as nat)
                    + ") must be a power of 2"@,
            )
        } else if self.max_block_size < self.min_block_size {
            Some(
                "max_block_size ("@ + decimal(self.max_block_size as nat)
                    + ") must be >= min_block_size ("@ + decimal(self.min_block_size as nat)
                    + ")"@,
            )
        } else if !is_pow2(self.alignment as int) {
            Some("alignment ("@ + decimal(self.alignment as nat) + ") must be a power of 2"@)
        } else if self.max_caches == 0 {
            Some("max_caches must be > 0"@)
        } else {
            None
        }
    }

    /// A complaint is made exactly where a rule does not hold.
    pub proof fn lemma_complaint_iff_invalid(&self)
        ensures
            self.valid() <==> self.complaint() is None,
    {
    }

    /// `Ok` where every rule holds, else the complaint about the first that does not.
    pub fn validate(&self) -> (r: Result<(), String>)
        ensures
            match r {
                Ok(_) => self.valid() && self.complaint() is None,
                Err(message) => !self.valid() && self.complaint() == Some(message@),
            },
    {
        if self.max_memory < self.initial_pool_size {
            return Err(
                around_two_numbers(
                    "max_memory (",
                    self.max_memory as u64,
                    ") must be >= initial_pool_size (",
                    self.initial_pool_size as u64,
                    ")",
                ),
            );
        }
        if !is_power_of_two(self.min_block_size) {
            return Err(
                around_number(
                    "min_block_size (",
                    self.min_block_size as u64,
                    ") must be a power of 2",
                ),
            );
        }
        if !is_power_of_two(self.max_block_size) {
            return Err(
                around_number(
                    "max_block_size (",
                    self.max_block_size as u64,
                    ") must be a power of 2",
                ),
            );
        }
        if self.max_block_size < self.min_block_size {
            return Err(
                around_two_numbers(
                    "max_block_size (",
                    self.max_block_size as u64,
                    ") must be >= min_block_size (",
                    self.min_block_size as u64,
                    ")",
                ),
            );
        }
        if !is_power_of_two(self.alignment) {
            return Err(
                around_number("alignment (", self.alignment as u64, ") must be a power of 2"),
            );
        }
        if self.max_caches == 0 {
            return Err("max_caches must be > 0".to_string());
        }
        Ok(())
    }

    /// Small limits, for trying the allocator out.
    pub fn get_default_for_tests() -> (c: Self)
        ensures
            c.max_memory == 16384,
            c.max_block_size == 1024,
            c.min_block_size == 64,
            c.alignment == 8,
            whole_secs(c.cache_ttl) == 60,
            c.max_caches == 100,
            c.initial_pool_size == 4096,
            c.zero_on_dealloc,
    {
        AtomAllocConfig {
            max_memory: 16384,
            max_block_size: 1024,
            min_block_size: 64,
            alignment: 8,
            cache_ttl: Duration::from_secs(60),
            max_caches: 100,
            initial_pool_size: 4096,
            zero_on_dealloc: true,
        }
    }
}

} // verus!
