use atomalloc::block::{Block, BlockOps};
use atomalloc::cache::{BlockCache, SizeClass};
use atomalloc::config::AtomAllocConfig;
use atomalloc::error::{AtomAllocError, BlockError};
use atomalloc::manager::BlockManager;
use atomalloc::pool::MemoryPool;
use atomalloc::stats::AtomAllocStats;
use atomalloc::Stats;

fn config() -> AtomAllocConfig {
    AtomAllocConfig::get_default_for_tests()
}

#[test]
fn counters_start_at_zero() {
    let stats = AtomAllocStats::new();
    assert_eq!(stats.allocated_bytes(), 0);
    assert_eq!(stats.freed_bytes(), 0);
    assert_eq!(stats.current_bytes(), 0);
    assert_eq!(stats.cache_hits(), 0);
    assert_eq!(stats.cache_misses(), 0);
}

#[test]
fn counters_count() {
    let mut stats = AtomAllocStats::new();
    stats.record_allocation(64);
    stats.record_allocation(100);
    assert_eq!(stats.allocated_bytes(), 164);
    assert_eq!((stats.current_bytes(), stats.freed_bytes()), (164, 0));
    stats.record_deallocation(64);
    assert_eq!(stats.allocated_bytes(), 164);
    assert_eq!((stats.current_bytes(), stats.freed_bytes()), (100, 64));
    stats.record_cache_hit();
    stats.record_cache_hit();
    stats.record_cache_miss();
    assert_eq!((stats.cache_hits(), stats.cache_misses()), (2, 1));
    assert_eq!(stats.current_bytes(), 100);
}

#[test]
fn counters_go_round() {
    let mut stats = AtomAllocStats::new();
    stats.record_deallocation(1);
    assert_eq!(stats.current_bytes(), usize::MAX);
    assert_eq!(stats.freed_bytes(), 1);
    stats.record_allocation(2);
    assert_eq!(stats.current_bytes(), 1);
    stats.record_allocation(usize::MAX);
    assert_eq!(stats.allocated_bytes(), 1);
    assert_eq!(stats.current_bytes(), 0);
}

#[test]
fn snapshot_is_plain_data() {
    let a = Stats { allocated: 1, freed: 2, current: 3, cache_hits: 4, cache_misses: 5 };
    let b = a;
    assert_eq!(a, b);
    assert_eq!(b.current, 3);
}

#[test]
fn generations_rise() {
    let mut manager = BlockManager::new(&config());
    assert_eq!(manager.new_generation(), 0);
    assert_eq!(manager.new_generation(), 1);
    assert_eq!(manager.new_generation(), 2);
    let mut last = 2;
    for _ in 0..100 {
        let next = manager.new_generation();
        assert!(next > last);
        last = next;
    }
}

#[test]
fn manager_verifies_generations() {
    let mut manager = BlockManager::new(&config());
    let fresh = Block::new(64, manager.new_generation());
    assert_eq!(manager.verify_generation(&fresh), Ok(()));
    // a block with the current value of the counter is accepted
    let current = Block::new(64, 1);
    assert_eq!(manager.verify_generation(&current), Ok(()));
    let later = Block::new(64, 2);
    assert_eq!(
        manager.verify_generation(&later),
        Err(AtomAllocError::BlockError(BlockError::InvalidGeneration { block: 2, expected: 1 }))
    );
}

#[test]
fn manager_without_scrubbing() {
    let mut c = config();
    c.zero_on_dealloc = false;
    let manager = BlockManager::new(&c);
    let mut block = Block::new(8, 99);
    assert_eq!(manager.verify_generation(&block), Ok(()));
    block.write(0, &[1; 8]).unwrap();
    manager.zero_block(&mut block);
    assert_eq!(block.read(0, 8).unwrap(), vec![1u8; 8]);
}

#[test]
fn manager_scrubs() {
    let manager = BlockManager::new(&config());
    let mut block = Block::new(8, 0);
    block.write(0, &[1; 8]).unwrap();
    manager.zero_block(&mut block);
    assert_eq!(block.read(0, 8).unwrap(), vec![0u8; 8]);
}

#[test]
fn pool_creates_and_reuses() {
    let mut stats = AtomAllocStats::new();
    let mut pool = MemoryPool::new(&config());
    let block = pool.allocate_with_generation(100, 5, &mut stats).unwrap();
    assert_eq!(block.size(), 128);
    assert_eq!(block.generation(), 5);
    assert_eq!(block.read(0, 128).unwrap(), vec![0u8; 128]);
    assert_eq!((stats.allocated_bytes(), stats.current_bytes()), (128, 128));

    pool.deallocate(block, &mut stats);
    assert_eq!((stats.freed_bytes(), stats.current_bytes()), (128, 0));

    // the block comes out of the free list with its generation, in use, uncounted
    let mut again = pool.allocate_with_generation(128, 6, &mut stats).unwrap();
    assert_eq!(again.generation(), 5);
    assert!(!again.try_acquire());
    assert_eq!((stats.allocated_bytes(), stats.current_bytes()), (128, 0));

    // the free list is empty now: the next block is new
    let mut third = pool.allocate_with_generation(128, 7, &mut stats).unwrap();
    assert_eq!(third.generation(), 7);
    assert!(third.try_acquire());
    assert_eq!(stats.allocated_bytes(), 256);
}

#[test]
fn pool_free_list_is_first_in_first_out() {
    let mut stats = AtomAllocStats::new();
    let mut pool = MemoryPool::new(&config());
    let a = pool.allocate_with_generation(64, 1, &mut stats).unwrap();
    let b = pool.allocate_with_generation(64, 2, &mut stats).unwrap();
    let c = pool.allocate_with_generation(64, 3, &mut stats).unwrap();
    pool.deallocate(b, &mut stats);
    pool.deallocate(c, &mut stats);
    pool.deallocate(a, &mut stats);
    assert_eq!(pool.allocate_with_generation(64, 9, &mut stats).unwrap().generation(), 2);
    assert_eq!(pool.allocate_with_generation(64, 9, &mut stats).unwrap().generation(), 3);
    assert_eq!(pool.allocate_with_generation(64, 9, &mut stats).unwrap().generation(), 1);
    assert_eq!(pool.allocate_with_generation(64, 9, &mut stats).unwrap().generation(), 9);
}

#[test]
fn pool_refuses() {
    let mut stats = AtomAllocStats::new();
    let mut pool = MemoryPool::new(&config());
    assert_eq!(
        pool.allocate_with_generation(1025, 0, &mut stats).err(),
        Some(AtomAllocError::OutOfMemory)
    );
    assert_eq!(
        pool.allocate_with_generation(32, 0, &mut stats).err(),
        Some(AtomAllocError::InvalidSize { requested: 32, max_allowed: 1024 })
    );
    assert_eq!(
        pool.allocate_with_generation(0, 0, &mut stats).err(),
        Some(AtomAllocError::InvalidSize { requested: 0, max_allowed: 1024 })
    );
    assert_eq!(stats.allocated_bytes(), 0);
    // 16384 * 3 / 4 = 12288 bytes can be handed out: twelve blocks of 1024
    let mut held = vec![];
    for _ in 0..12 {
        held.push(pool.allocate_with_generation(1024, 0, &mut stats).unwrap());
    }
    assert_eq!(
        pool.allocate_with_generation(1024, 0, &mut stats).err(),
        Some(AtomAllocError::OutOfMemory)
    );
    assert_eq!(
        pool.allocate_with_generation(64, 0, &mut stats).err(),
        Some(AtomAllocError::OutOfMemory)
    );
    assert_eq!(stats.current_bytes(), 12288);
}

#[test]
fn pool_budget_edge() {
    let mut c = config();
    c.max_memory = 4096 + 1023;
    c.min_block_size = 1;
    let mut stats = AtomAllocStats::new();
    let mut pool = MemoryPool::new(&c);
    // (5119 * 3) / 4 = 3839: 3584 + 255 fit, one byte more does not
    let mut held = vec![];
    for _ in 0..3 {
        held.push(pool.allocate_with_generation(1024, 0, &mut stats).unwrap());
    }
    held.push(pool.allocate_with_generation(512, 0, &mut stats).unwrap());
    assert_eq!(stats.current_bytes(), 3584);
    assert_eq!(
        pool.allocate_with_generation(256, 0, &mut stats).err(),
        Some(AtomAllocError::OutOfMemory)
    );
    held.push(pool.allocate_with_generation(128, 0, &mut stats).unwrap());
    held.push(pool.allocate_with_generation(64, 0, &mut stats).unwrap());
    held.push(pool.allocate_with_generation(32, 0, &mut stats).unwrap());
    held.push(pool.allocate_with_generation(16, 0, &mut stats).unwrap());
    held.push(pool.allocate_with_generation(8, 0, &mut stats).unwrap());
    held.push(pool.allocate_with_generation(4, 0, &mut stats).unwrap());
    held.push(pool.allocate_with_generation(2, 0, &mut stats).unwrap());
    held.push(pool.allocate_with_generation(1, 0, &mut stats).unwrap());
    assert_eq!(stats.current_bytes(), 3839);
    assert_eq!(
        pool.allocate_with_generation(1, 0, &mut stats).err(),
        Some(AtomAllocError::OutOfMemory)
    );
}

#[test]
fn pool_drops_a_block_that_no_free_list_takes() {
    let mut stats = AtomAllocStats::new();
    let mut pool = MemoryPool::new(&config());
    pool.deallocate(Block::new(4096, 0), &mut stats);
    pool.deallocate(Block::new(16, 0), &mut stats);
    assert_eq!((stats.freed_bytes(), stats.current_bytes()), (0, 0));
}

#[test]
fn class_serves_hot_before_cold() {
    let mut class = SizeClass::new(64);
    assert!(class.get_block().is_none());
    // nothing was handed out yet: the count is 0, returns go to the hot queue
    class.return_block(Block::new(64, 1));
    class.return_block(Block::new(64, 2));
    assert_eq!(class.get_block().unwrap().generation(), 1);
    // the count is 1: returns go to the cold queue
    class.return_block(Block::new(64, 3));
    class.return_block(Block::new(64, 4));
    // hot still holds 2; cold holds 3 and 4
    assert_eq!(class.get_block().unwrap().generation(), 2);
    assert_eq!(class.get_block().unwrap().generation(), 3);
    assert_eq!(class.get_block().unwrap().generation(), 4);
    assert!(class.get_block().is_none());
}

#[test]
fn class_promotes_every_eighth() {
    let mut class = SizeClass::new(32);
    for g in 0..8 {
        class.return_block(Block::new(32, g));
    }
    for g in 0..8 {
        assert_eq!(class.get_block().unwrap().generation(), g);
    }
    // eight blocks were handed out: the next return goes to the hot queue again
    class.return_block(Block::new(32, 100));
    assert_eq!(class.get_block().unwrap().generation(), 100);
    // nine were handed out: the next goes to the cold queue
    class.return_block(Block::new(32, 101));
    for _ in 0..6 {
        let mut block = class.get_block().unwrap();
        assert_eq!(block.generation(), 101);
        // the class hands it out in use and takes it back as it is
        block.release();
        class.return_block(block);
    }
    // fifteen were handed out; 101 is in the cold queue, and so is the next
    class.return_block(Block::new(32, 102));
    assert_eq!(class.get_block().unwrap().generation(), 101);
    // sixteen were handed out: the next return goes to the hot queue, and is
    // served before what the cold queue holds
    class.return_block(Block::new(32, 103));
    assert_eq!(class.get_block().unwrap().generation(), 103);
    assert_eq!(class.get_block().unwrap().generation(), 102);
}

#[test]
fn class_drops_blocks_in_use() {
    let mut class = SizeClass::new(64);
    let mut taken = Block::new(64, 1);
    assert!(taken.try_acquire());
    class.return_block(taken);
    class.return_block(Block::new(64, 2));
    let mut taken = Block::new(64, 3);
    assert!(taken.try_acquire());
    class.return_block(taken);
    class.return_block(Block::new(64, 4));
    // hot holds 1 (in use), 2, 3 (in use), 4: the first pop drops 1, the second takes 2
    assert_eq!(class.get_block().unwrap().generation(), 2);
    // the count is 1 now; hot holds 3 (in use), 4
    let mut taken = Block::new(64, 5);
    assert!(taken.try_acquire());
    class.return_block(taken);
    // cold holds 5 (in use): two pops of hot drop 3 and take 4
    assert_eq!(class.get_block().unwrap().generation(), 4);
    // hot is empty, and the one pop of cold drops 5
    assert!(class.get_block().is_none());
    assert!(class.get_block().is_none());
}

#[test]
fn class_gives_up_after_two_hot_blocks_in_use() {
    let mut class = SizeClass::new(64);
    for g in 0..2 {
        let mut taken = Block::new(64, g);
        assert!(taken.try_acquire());
        class.return_block(taken);
    }
    class.return_block(Block::new(64, 2));
    // both pops of the hot queue find a block in use, and the cold queue is empty
    assert!(class.get_block().is_none());
    assert_eq!(class.get_block().unwrap().generation(), 2);
}

#[test]
fn class_of_a_size() {
    let cache = BlockCache::new();
    assert_eq!(cache.get_size_class_index(0), Some(0));
    assert_eq!(cache.get_size_class_index(1), Some(0));
    assert_eq!(cache.get_size_class_index(32), Some(0));
    assert_eq!(cache.get_size_class_index(33), Some(0));
    assert_eq!(cache.get_size_class_index(34), Some(1));
    assert_eq!(cache.get_size_class_index(64), Some(1));
    assert_eq!(cache.get_size_class_index(65), Some(1));
    assert_eq!(cache.get_size_class_index(66), Some(2));
    assert_eq!(cache.get_size_class_index(128), Some(2));
    assert_eq!(cache.get_size_class_index(256), Some(3));
    assert_eq!(cache.get_size_class_index(512), Some(4));
    assert_eq!(cache.get_size_class_index(1024), Some(5));
    assert_eq!(cache.get_size_class_index(2048), Some(6));
    assert_eq!(cache.get_size_class_index(4096), Some(7));
    assert_eq!(cache.get_size_class_index(4098), Some(8));
    assert_eq!(cache.get_size_class_index(8192), Some(8));
    assert_eq!(cache.get_size_class_index(8193), Some(8));
    assert_eq!(cache.get_size_class_index(8194), None);
    assert_eq!(cache.get_size_class_index(16384), None);
    assert_eq!(cache.get_size_class_index(usize::MAX), None);
}

#[test]
fn cache_hits_and_misses() {
    let c = config();
    let mut stats = AtomAllocStats::new();
    let mut pool = MemoryPool::new(&c);
    let mut manager = BlockManager::new(&c);
    let mut cache = BlockCache::new();

    let block = cache.allocate(200, &mut manager, &mut pool, &mut stats).unwrap();
    assert_eq!(block.size(), 256);
    assert_eq!(block.generation(), 0);
    assert_eq!((stats.cache_hits(), stats.cache_misses()), (0, 1));
    assert_eq!((stats.allocated_bytes(), stats.current_bytes()), (256, 256));

    cache.deallocate(block, &manager, &mut pool, &mut stats);
    assert_eq!((stats.freed_bytes(), stats.current_bytes()), (256, 0));

    let block = cache.allocate(256, &mut manager, &mut pool, &mut stats).unwrap();
    assert_eq!(block.generation(), 0);
    assert_eq!((stats.cache_hits(), stats.cache_misses()), (1, 1));
    assert_eq!((stats.allocated_bytes(), stats.current_bytes()), (512, 256));

    // the class is empty again: a miss, and a new block with the next generation
    let other = cache.allocate(256, &mut manager, &mut pool, &mut stats).unwrap();
    assert_eq!(other.generation(), 1);
    assert_eq!((stats.cache_hits(), stats.cache_misses()), (1, 2));

    let refused = cache.allocate(2000, &mut manager, &mut pool, &mut stats);
    assert_eq!(refused.err(), Some(AtomAllocError::OutOfMemory));
    assert_eq!((stats.cache_hits(), stats.cache_misses()), (1, 3));
    // the refused request used up a generation
    assert_eq!(manager.new_generation(), 3);
    let _ = block;
}

#[test]
fn cache_releases_and_scrubs() {
    let c = config();
    let mut stats = AtomAllocStats::new();
    let mut pool = MemoryPool::new(&c);
    let mut manager = BlockManager::new(&c);
    let mut cache = BlockCache::new();

    let mut block = cache.allocate(64, &mut manager, &mut pool, &mut stats).unwrap();
    assert!(block.try_acquire());
    block.write(0, &[3; 64]).unwrap();
    cache.deallocate(block, &manager, &mut pool, &mut stats);
    let block = cache.allocate(64, &mut manager, &mut pool, &mut stats).unwrap();
    assert_eq!(block.read(0, 64).unwrap(), vec![0u8; 64]);
}

#[test]
fn queue_is_first_in_first_out() {
    let mut queue = atomalloc::queue::BlockQueue::new();
    assert!(queue.pop().is_none());
    queue.push(Block::new(8, 1));
    queue.push(Block::new(16, 2));
    queue.push(Block::new(8, 3));
    let first = queue.pop().unwrap();
    assert_eq!((first.size(), first.generation()), (8, 1));
    queue.push(Block::new(8, 4));
    let second = queue.pop().unwrap();
    assert_eq!((second.size(), second.generation()), (16, 2));
    assert_eq!(queue.pop().unwrap().generation(), 3);
    assert_eq!(queue.pop().unwrap().generation(), 4);
    assert!(queue.pop().is_none());
    assert!(queue.pop().is_none());
}

#[test]
fn queue_keeps_a_block_as_it_is() {
    let mut queue = atomalloc::queue::BlockQueue::new();
    let mut block = Block::new(4, 9);
    block.write(1, &[5, 6]).unwrap();
    assert!(block.try_acquire());
    queue.push(block);
    let mut block = queue.pop().unwrap();
    assert_eq!(block.read(0, 4).unwrap(), vec![0, 5, 6, 0]);
    assert_eq!(block.generation(), 9);
    assert!(!block.try_acquire());
}
