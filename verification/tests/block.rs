use atomalloc::block::{Block, BlockOps, CHUNK_SIZE};
use atomalloc::error::BlockError;

#[test]
fn new_block_is_zeroed_and_free() {
    let mut block = Block::new(100, 7);
    assert_eq!(block.size(), 100);
    assert_eq!(block.generation(), 7);
    assert_eq!(block.read(0, 100).unwrap(), vec![0u8; 100]);
    // nobody holds it: the first acquire gets it
    assert!(block.try_acquire());
}

#[test]
fn new_block_of_no_bytes() {
    let block = Block::new(0, 0);
    assert_eq!(block.size(), 0);
    assert_eq!(block.read(0, 0).unwrap(), Vec::<u8>::new());
    assert_eq!(
        block.read(0, 1).err(),
        Some(BlockError::OutOfBounds { offset: 0, len: 1, size: 0 })
    );
}

#[test]
fn generation_keeps_the_low_sixty_two_bits() {
    let block = Block::new(8, u64::MAX);
    assert_eq!(block.generation(), (1u64 << 62) - 1);
    let mut block = Block::new(8, 1u64 << 63);
    assert_eq!(block.generation(), 0);
    // the high bit of the generation did not mark the block as in use
    assert!(block.try_acquire());
    let block = Block::new(8, (1u64 << 62) + 5);
    assert_eq!(block.generation(), 5);
}

#[test]
fn try_acquire_succeeds_once() {
    let mut block = Block::new(16, 1);
    assert!(block.try_acquire());
    assert!(!block.try_acquire());
    assert!(!block.try_acquire());
    block.release();
    assert!(block.try_acquire());
    assert_eq!(block.generation(), 1);
}

#[test]
fn release_of_a_free_block_changes_nothing() {
    let mut block = Block::new(16, 3);
    block.release();
    assert_eq!(block.generation(), 3);
    assert!(block.try_acquire());
}

#[test]
fn update_generation_keeps_the_flags() {
    let mut block = Block::new(16, 1);
    assert!(block.try_acquire());
    block.update_generation(42);
    assert_eq!(block.generation(), 42);
    // still in use
    assert!(!block.try_acquire());
    block.release();
    block.update_generation(u64::MAX);
    assert_eq!(block.generation(), (1u64 << 62) - 1);
    // still free
    assert!(block.try_acquire());
}

#[test]
fn write_then_read() {
    let mut block = Block::new(16, 0);
    block.write(4, &[1, 2, 3, 4]).unwrap();
    assert_eq!(block.read(0, 16).unwrap(), vec![0, 0, 0, 0, 1, 2, 3, 4, 0, 0, 0, 0, 0, 0, 0, 0]);
    assert_eq!(block.read(5, 2).unwrap(), vec![2, 3]);
    assert_eq!(block.read(16, 0).unwrap(), Vec::<u8>::new());
    block.write(6, &[9, 9, 9]).unwrap();
    assert_eq!(block.read(4, 6).unwrap(), vec![1, 2, 9, 9, 9, 0]);
    block.write(12, &[5, 6, 7, 8]).unwrap();
    assert_eq!(block.read(12, 4).unwrap(), vec![5, 6, 7, 8]);
}

#[test]
fn write_past_the_end_is_refused() {
    let mut block = Block::new(16, 0);
    block.write(0, &[1; 16]).unwrap();
    assert_eq!(
        block.write(13, &[2, 2, 2, 2]),
        Err(BlockError::OutOfBounds { offset: 13, len: 4, size: 16 })
    );
    assert_eq!(
        block.write(17, &[]),
        Err(BlockError::OutOfBounds { offset: 17, len: 0, size: 16 })
    );
    assert_eq!(
        block.write(usize::MAX, &[1, 2]),
        Err(BlockError::OutOfBounds { offset: usize::MAX, len: 2, size: 16 })
    );
    // nothing was written
    assert_eq!(block.read(0, 16).unwrap(), vec![1u8; 16]);
    assert_eq!(block.write(16, &[]), Ok(()));
}

#[test]
fn read_past_the_end_is_refused() {
    let block = Block::new(16, 0);
    assert_eq!(
        block.read(10, 7).err(),
        Some(BlockError::OutOfBounds { offset: 10, len: 7, size: 16 })
    );
    assert_eq!(
        block.read(usize::MAX, usize::MAX).err(),
        Some(BlockError::OutOfBounds { offset: usize::MAX, len: usize::MAX, size: 16 })
    );
    assert_eq!(block.read(10, 6).unwrap(), vec![0u8; 6]);
}

#[test]
fn write_and_read_across_chunks() {
    let size = 3 * CHUNK_SIZE + 100;
    let mut block = Block::new(size, 0);
    let data: Vec<u8> = (0..2 * CHUNK_SIZE + 50).map(|i| (i % 251) as u8).collect();
    block.write(30, &data).unwrap();
    assert_eq!(block.read(30, data.len()).unwrap(), data);
    assert_eq!(block.read(0, 30).unwrap(), vec![0u8; 30]);
    let tail = size - 30 - data.len();
    assert_eq!(block.read(30 + data.len(), tail).unwrap(), vec![0u8; tail]);
    let whole = block.read(0, size).unwrap();
    assert_eq!(whole.len(), size);
    assert_eq!(whole[30 + CHUNK_SIZE], (CHUNK_SIZE % 251) as u8);
}

#[test]
fn clear_zeroes_every_byte() {
    let size = 2 * CHUNK_SIZE + 7;
    let mut block = Block::new(size, 9);
    block.write(0, &vec![0xFF; size]).unwrap();
    assert!(block.try_acquire());
    block.clear();
    assert_eq!(block.read(0, size).unwrap(), vec![0u8; size]);
    assert_eq!(block.generation(), 9);
    // clearing did not release the block
    assert!(!block.try_acquire());
}

#[test]
fn block_error_in_words() {
    assert_eq!(
        BlockError::OutOfBounds { offset: 10, len: 7, size: 16 }.message(),
        "Out of bounds access: offset 10 len 7 exceeds size 16"
    );
    assert_eq!(BlockError::NotInitialized.message(), "Block not initialized");
    assert_eq!(BlockError::InUse.message(), "Block already in use");
    assert_eq!(
        BlockError::InvalidGeneration { block: 1000, expected: 1 }.message(),
        "Invalid block generation: 1000 (expected 1)"
    );
    assert_eq!(
        BlockError::InvalidGeneration { block: u64::MAX, expected: 0 }.message(),
        "Invalid block generation: 18446744073709551615 (expected 0)"
    );
}
