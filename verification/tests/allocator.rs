use atomalloc::block::{Block, BlockOps};
use atomalloc::config::AtomAllocConfig;
use atomalloc::error::{AtomAllocError, BlockError};
use atomalloc::AtomAlloc;
use std::time::Duration;

fn small_config(max_memory: usize) -> AtomAllocConfig {
    AtomAllocConfig {
        max_memory,
        max_block_size: 512,
        min_block_size: 64,
        alignment: 8,
        cache_ttl: Duration::from_secs(60),
        max_caches: 100,
        initial_pool_size: 512,
        zero_on_dealloc: true,
    }
}

#[test]
fn test_basic_alloc_dealloc() {
    let config = AtomAllocConfig::get_default_for_tests();
    let mut allocator = AtomAlloc::with_config(config);

    let stats_before = allocator.stats();
    let block = allocator.allocate(64, 8).unwrap();
    assert_eq!(block.size(), 64);

    allocator.deallocate(block);
    let stats_final = allocator.stats();

    assert_eq!(stats_final.allocated - stats_before.allocated, 64);
    assert_eq!(stats_final.freed - stats_before.freed, 64);
}

#[test]
fn test_concurrent_allocations() {
    let mut allocator = AtomAlloc::new();
    let mut held = vec![];
    for _ in 0..100 {
        held.push(allocator.allocate(64, 8).unwrap());
    }
    assert_eq!(allocator.stats().current, 6400);
    for block in held {
        allocator.deallocate(block);
    }
    assert_eq!(allocator.stats().current, 0);
    for _ in 0..100 {
        let block = allocator.allocate(64, 8).unwrap();
        allocator.deallocate(block);
    }
    assert_eq!(allocator.stats().current, 0);
}

#[test]
fn test_pool_reuse() {
    let mut allocator = AtomAlloc::new();

    let block1 = allocator.allocate(64, 8).unwrap();
    let gen1 = block1.generation();
    allocator.deallocate(block1);

    let block2 = allocator.allocate(64, 8).unwrap();
    let gen2 = block2.generation();
    assert_eq!(gen1, gen2, "Block should be reused");
    allocator.deallocate(block2);
}

#[test]
fn test_memory_limits() {
    let mut allocator = AtomAlloc::with_config(small_config(2048));

    let block1 = allocator.allocate(400, 8).unwrap();
    let stats1 = allocator.stats();
    assert_eq!(stats1.current, 512);

    let result = allocator.allocate(600, 8);
    assert!(
        matches!(result.as_ref(), Err(AtomAllocError::OutOfMemory)),
        "Expected OutOfMemory for too-large block"
    );

    allocator.deallocate(block1);
}

#[test]
fn test_strict_memory_limits() {
    let mut allocator = AtomAlloc::with_config(small_config(1024));

    let block1 = allocator.allocate(300, 8).unwrap();
    let stats1 = allocator.stats();
    assert_eq!(stats1.current, 512);

    let result = allocator.allocate(400, 8);
    assert!(matches!(result.as_ref(), Err(AtomAllocError::OutOfMemory)));

    allocator.deallocate(block1);
    let stats2 = allocator.stats();
    assert_eq!(stats2.current, 0);

    let block2 = allocator.allocate(400, 8).unwrap();
    let stats3 = allocator.stats();
    assert_eq!(stats3.current, 512);

    allocator.deallocate(block2);
}

#[test]
fn large_block_passes_the_cache_by() {
    let mut allocator = AtomAlloc::new();
    let block = allocator.allocate(16384, 8).unwrap();
    assert_eq!(block.size(), 16384);
    let generation = block.generation();
    assert_eq!(allocator.stats().allocated, 16384);
    allocator.deallocate(block);
    assert_eq!(allocator.stats().freed, 16384);
    assert_eq!(allocator.stats().current, 0);

    let again = allocator.allocate(16384, 8).unwrap();
    let stats = allocator.stats();
    assert_eq!(again.generation(), generation);
    assert_eq!(stats.cache_hits, 0);
    assert_eq!(stats.cache_misses, 2);
    // a block out of the pool's free list is not counted a second time
    assert_eq!(stats.allocated, 16384);
    assert_eq!(stats.current, 0);
}

#[test]
fn each_request_is_counted_once() {
    let mut allocator = AtomAlloc::new();
    let block = allocator.allocate(64, 8).unwrap();
    let stats = allocator.stats();
    assert_eq!((stats.cache_hits, stats.cache_misses), (0, 1));
    allocator.deallocate(block);
    let block = allocator.allocate(64, 8).unwrap();
    let stats = allocator.stats();
    assert_eq!((stats.cache_hits, stats.cache_misses), (1, 1));
    assert_eq!(stats.allocated, 128);
    allocator.deallocate(block);
    assert_eq!(allocator.stats().freed, 128);
}

#[test]
fn size_is_rounded_up() {
    let mut allocator = AtomAlloc::new();
    let cases = [(64, 64), (100, 128), (128, 128), (130, 256), (1000, 1024), (65536, 65536)];
    for (asked, got) in cases {
        let block = allocator.allocate(asked, 8).unwrap();
        assert_eq!(block.size(), got);
        allocator.deallocate(block);
    }
}

#[test]
fn one_above_a_power_of_two_finds_the_class_below() {
    let mut allocator = AtomAlloc::new();
    let block = allocator.allocate(64, 8).unwrap();
    allocator.deallocate(block);
    // the cache looks for 65 bytes in the class of 64
    let block = allocator.allocate(65, 8).unwrap();
    assert_eq!(block.size(), 64);
    assert_eq!(allocator.stats().cache_hits, 1);
}

#[test]
fn size_below_the_smallest_block_is_invalid() {
    let mut allocator = AtomAlloc::new();
    let result = allocator.allocate(10, 8);
    assert_eq!(
        result.err(),
        Some(AtomAllocError::InvalidSize { requested: 10, max_allowed: 65536 })
    );
    let stats = allocator.stats();
    assert_eq!(stats.cache_misses, 1);
    assert_eq!(stats.allocated, 0);
}

#[test]
fn size_above_the_largest_block_is_out_of_memory() {
    let mut allocator = AtomAlloc::new();
    assert_eq!(allocator.allocate(65537, 8).err(), Some(AtomAllocError::OutOfMemory));
    assert_eq!(allocator.allocate(usize::MAX, 8).err(), Some(AtomAllocError::OutOfMemory));
}

#[test]
fn alignment_must_be_a_power_of_two() {
    let mut allocator = AtomAlloc::new();
    assert_eq!(
        allocator.allocate(64, 3).err(),
        Some(AtomAllocError::InvalidAlignment { requested: 3, supported: 16 })
    );
    assert_eq!(
        allocator.allocate(64, 0).err(),
        Some(AtomAllocError::InvalidAlignment { requested: 0, supported: 16 })
    );
    let stats = allocator.stats();
    assert_eq!((stats.cache_hits, stats.cache_misses, stats.allocated), (0, 0, 0));
    assert!(allocator.allocate(64, 1).is_ok());
    assert!(allocator.allocate(64, 4096).is_ok());
}

#[test]
fn block_comes_back_zeroed() {
    let mut allocator = AtomAlloc::new();
    let mut block = allocator.allocate(64, 8).unwrap();
    block.write(0, &[0xAB; 64]).unwrap();
    assert_eq!(block.read(0, 64).unwrap(), vec![0xAB; 64]);
    allocator.deallocate(block);
    let block = allocator.allocate(64, 8).unwrap();
    assert_eq!(block.read(0, 64).unwrap(), vec![0u8; 64]);
}

#[test]
fn block_keeps_its_bytes_without_scrubbing() {
    let mut config = AtomAllocConfig::get_default_for_tests();
    config.zero_on_dealloc = false;
    let mut allocator = AtomAlloc::with_config(config);
    let mut block = allocator.allocate(64, 8).unwrap();
    block.write(0, &[7; 64]).unwrap();
    allocator.deallocate(block);
    let block = allocator.allocate(64, 8).unwrap();
    assert_eq!(block.read(0, 64).unwrap(), vec![7u8; 64]);
}

#[test]
fn bytes_held_stay_within_three_quarters_of_the_budget() {
    let mut allocator = AtomAlloc::with_config(small_config(2048));
    let limit = (2048 * 3) / 4;
    let mut held = vec![];
    loop {
        match allocator.allocate(512, 8) {
            Ok(block) => held.push(block),
            Err(e) => {
                assert_eq!(e, AtomAllocError::OutOfMemory);
                break;
            }
        }
        assert!(allocator.stats().current <= limit);
    }
    assert_eq!(held.len(), 3);
    assert_eq!(allocator.stats().current, 1536);
    for block in held {
        allocator.deallocate(block);
        assert!(allocator.stats().current <= limit);
    }
    assert_eq!(allocator.stats().current, 0);
}

#[test]
fn cached_block_is_served_though_the_budget_is_spent() {
    let mut allocator = AtomAlloc::with_config(small_config(1024));
    let block = allocator.allocate(512, 8).unwrap();
    allocator.deallocate(block);
    // the class holds the block; the pool would refuse a second one
    let block = allocator.allocate(512, 8).unwrap();
    assert_eq!(allocator.stats().current, 512);
    assert_eq!(allocator.allocate(512, 8).err(), Some(AtomAllocError::OutOfMemory));
    allocator.deallocate(block);
}

#[test]
fn refused_request_asks_the_pool_twice() {
    let mut allocator = AtomAlloc::new();
    assert!(allocator.allocate(65537, 8).is_err());
    // two generations were issued for the refused request: the next block gets 2
    let block = allocator.allocate(64, 8).unwrap();
    assert_eq!(block.generation(), 2);
}

#[test]
fn generation_above_the_counter_is_refused() {
    let mut allocator = AtomAlloc::new();
    let mut block = allocator.allocate(64, 8).unwrap();
    assert_eq!(block.generation(), 0);
    block.update_generation(1000);
    allocator.deallocate(block);
    let result = allocator.allocate(64, 8);
    assert_eq!(
        result.err(),
        Some(AtomAllocError::BlockError(BlockError::InvalidGeneration { block: 1000, expected: 1 }))
    );
}

#[test]
fn generation_is_not_verified_without_scrubbing() {
    let mut config = AtomAllocConfig::get_default_for_tests();
    config.zero_on_dealloc = false;
    let mut allocator = AtomAlloc::with_config(config);
    let mut block = allocator.allocate(64, 8).unwrap();
    block.update_generation(1000);
    allocator.deallocate(block);
    let block = allocator.allocate(64, 8).unwrap();
    assert_eq!(block.generation(), 1000);
}

#[test]
fn fresh_blocks_get_rising_generations() {
    let mut allocator = AtomAlloc::new();
    let a = allocator.allocate(64, 8).unwrap();
    let b = allocator.allocate(64, 8).unwrap();
    let c = allocator.allocate(128, 8).unwrap();
    assert_eq!((a.generation(), b.generation(), c.generation()), (0, 1, 2));
}

#[test]
fn block_out_of_the_cache_is_in_use() {
    let mut allocator = AtomAlloc::new();
    let block = allocator.allocate(64, 8).unwrap();
    allocator.deallocate(block);
    let mut block = allocator.allocate(64, 8).unwrap();
    // the cache has acquired it: a second acquire finds it taken
    assert!(!block.try_acquire());
}

#[test]
fn config_is_kept() {
    let allocator = AtomAlloc::with_config(small_config(2048));
    assert_eq!(allocator.config().max_memory, 2048);
    assert_eq!(allocator.config().max_block_size, 512);
    assert_eq!(allocator.config().cache_ttl, Duration::from_secs(60));
    let allocator = AtomAlloc::new();
    assert_eq!(allocator.config().max_memory, 1024 * 1024 * 1024);
    assert_eq!(allocator.config().cache_ttl, Duration::from_secs(300));
}

#[test]
fn foreign_block_of_a_class_size_is_taken() {
    let mut allocator = AtomAlloc::new();
    let block = Block::new(256, 0);
    let before = allocator.stats();
    assert_eq!(before.current, 0);
    allocator.deallocate(block);
    // the bytes held go round below zero: the block was never counted
    assert_eq!(allocator.stats().current, usize::MAX - 255);
    let block = allocator.allocate(256, 8).unwrap();
    assert_eq!(block.size(), 256);
    assert_eq!(allocator.stats().current, 0);
}

#[test]
fn live_blocks_do_not_share_bytes() {
    let mut allocator = AtomAlloc::new();
    let first = allocator.allocate(64, 8).unwrap();
    allocator.deallocate(first);
    // one block waits in the cache: only one request can get it
    let mut a = allocator.allocate(64, 8).unwrap();
    let mut b = allocator.allocate(64, 8).unwrap();
    let mut c = allocator.allocate(64, 8).unwrap();
    assert_eq!((a.generation(), b.generation(), c.generation()), (0, 1, 2));
    a.write(0, &[1; 64]).unwrap();
    b.write(0, &[2; 64]).unwrap();
    c.write(0, &[3; 64]).unwrap();
    assert_eq!(a.read(0, 64).unwrap(), vec![1u8; 64]);
    assert_eq!(b.read(0, 64).unwrap(), vec![2u8; 64]);
    assert_eq!(c.read(0, 64).unwrap(), vec![3u8; 64]);
    let stats = allocator.stats();
    assert_eq!((stats.cache_hits, stats.cache_misses), (1, 3));
}

#[test]
fn accepts_blocks_of_stored_sizes() {
    let allocator = AtomAlloc::new();
    assert!(allocator.accepts(&Block::new(32, 0)));
    assert!(allocator.accepts(&Block::new(64, 0)));
    assert!(allocator.accepts(&Block::new(8192, 0)));
    assert!(allocator.accepts(&Block::new(16384, 0)));
    assert!(allocator.accepts(&Block::new(65536, 0)));
    // above the largest block no free list serves the size: the block is dropped
    assert!(allocator.accepts(&Block::new(100_000, 0)));
    assert!(!allocator.accepts(&Block::new(0, 0)));
    assert!(!allocator.accepts(&Block::new(16, 0)));
    assert!(!allocator.accepts(&Block::new(33, 0)));
    assert!(!allocator.accepts(&Block::new(100, 0)));
    assert!(!allocator.accepts(&Block::new(8193, 0)));
    assert!(!allocator.accepts(&Block::new(10_000, 0)));
    assert!(!allocator.accepts(&Block::new(40_000, 0)));
}

#[test]
fn block_above_the_largest_is_dropped() {
    let mut allocator = AtomAlloc::new();
    allocator.deallocate(Block::new(131072, 0));
    let stats = allocator.stats();
    assert_eq!((stats.freed, stats.current), (0, 0));
}
