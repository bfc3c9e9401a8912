//! A block: a fixed-length byte region and one packed state word.

use crate::error::BlockError;
use vstd::prelude::*;

verus! {

/// Bit 63 of the state word: a caller holds the block.
pub const IN_USE_FLAG: u64 = 0x8000_0000_0000_0000;

/// Bit 62 of the state word: every byte of the block is zero.
pub const ZEROED_FLAG: u64 = 0x4000_0000_0000_0000;

/// Bits 0 to 61 of the state word: the generation.
pub const GENERATION_MASK: u64 = 0x3FFF_FFFF_FFFF_FFFF;

/// The bytes that `write`, `read` and `clear` handle in one stretch.
pub const CHUNK_SIZE: usize = 1024;

/// The part of `g` that fits into the generation bits of a state word.
pub open spec fn generation_bits(g: u64) -> u64 {
    (g % 0x4000_0000_0000_0000) as u64
}

/// `count` zero bytes.
pub open spec fn zeros(count: nat) -> Seq<u8> {
    Seq::new(count, |i: int| 0u8)
}

/// `bytes` with `data` laid over it from `offset` on.
pub open spec fn overwrite(bytes: Seq<u8>, offset: int, data: Seq<u8>) -> Seq<u8> {
    Seq::new(
        bytes.len(),
        |i: int|
            if offset <= i < offset + data.len() {
                data[i - offset]
            } else {
                bytes[i]
            },
    )
}

/// Where the chunk that starts at `start` ends, in a stretch of `len` bytes: 1024
/// bytes on, or at the end of the stretch where that comes first.
pub fn chunk_end(start: usize, len: usize) -> (end: usize)
    requires
        start <= len,
    ensures
        end == if len - start > 1024 {
            start + 1024
        } else {
            len as int
        },
{
    if len - start > CHUNK_SIZE {
        start + CHUNK_SIZE
    } else {
        len
    }
}

/// What a block is: its two flags, its generation and its bytes.
pub struct BlockView {
    pub in_use: bool,
    pub zeroed: bool,
    pub generation: u64,
    pub bytes: Seq<u8>,
}

impl BlockView {
    /// The number of bytes, as a machine number.
    pub open spec fn size(self) -> usize {
        #[verifier::truncate]
        (self.bytes.len() as usize)
    }

    /// The same block, held by a caller.
    pub open spec fn acquired(self) -> BlockView {
        BlockView { in_use: true, ..self }
    }

    /// The same block, held by nobody.
    pub open spec fn released(self) -> BlockView {
        BlockView { in_use: false, ..self }
    }

    /// The same block with every byte at zero, and marked so.
    pub open spec fn cleared(self) -> BlockView {
        BlockView { zeroed: true, bytes: zeros(self.bytes.len()), ..self }
    }

    /// Every byte is zero, and the block is marked so.
    pub open spec fn is_scrubbed(self) -> bool {
        self.zeroed && self.bytes == zeros(self.bytes.len())
    }
}

/// What each of `blocks` is.
pub open spec fn views(blocks: Seq<Block>) -> Seq<BlockView> {
    blocks.map_values(|b: Block| b@)
}

pub struct Block {
    state: u64,
    size: usize,
    data: Vec<u8>,
}

impl View for Block {
    type V = BlockView;

    closed spec fn view(&self) -> BlockView {
        BlockView {
            in_use: self.state & IN_USE_FLAG != 0,
            zeroed: self.state & ZEROED_FLAG != 0,
            generation: self.state & GENERATION_MASK,
            bytes: self.data@,
        }
    }
}

/// The operations that an allocator needs of a block.
pub trait BlockOps {
    /// The value that the contracts below speak of.
    spec fn model(&self) -> BlockView;

    /// The declared length is the number of bytes, and a block that is marked as
    /// zeroed holds only zero bytes.
    spec fn wf(&self) -> bool;

    /// The declared length.
    fn size(&self) -> (r: usize)
        requires
            self.wf(),
        ensures
            r == self.model().bytes.len(),
            r == self.model().size(),
    ;

    /// Sets the in-use flag, and says whether it was clear before: only then has
    /// the caller got the block.
    fn try_acquire(&mut self) -> (r: bool)
        requires
            old(self).wf(),
        ensures
            final(self).wf(),
            r == !old(self).model().in_use,
            final(self).model() == old(self).model().acquired(),
    ;

    /// Clears the in-use flag.
    fn release(&mut self)
        requires
            old(self).wf(),
        ensures
            final(self).wf(),
            final(self).model() == old(self).model().released(),
    ;

    /// The generation that the state word carries.
    fn generation(&self) -> (r: u64)
        ensures
            r == self.model().generation,
    ;

    /// Writes zero to every byte, then sets the zeroed flag.
    fn clear(&mut self)
        requires
            old(self).wf(),
        ensures
            final(self).wf(),
            final(self).model() == old(self).model().cleared(),
    ;
}

proof fn lemma_state_new(g: u64)
    ensures
        ((g & 0x3FFF_FFFF_FFFF_FFFF) | 0x4000_0000_0000_0000) & 0x8000_0000_0000_0000 == 0,
        ((g & 0x3FFF_FFFF_FFFF_FFFF) | 0x4000_0000_0000_0000) & 0x4000_0000_0000_0000 != 0,
        ((g & 0x3FFF_FFFF_FFFF_FFFF) | 0x4000_0000_0000_0000) & 0x3FFF_FFFF_FFFF_FFFF == g
            % 0x4000_0000_0000_0000,
{
    assert(((g & 0x3FFF_FFFF_FFFF_FFFF) | 0x4000_0000_0000_0000) & 0x8000_0000_0000_0000 == 0)
        by (bit_vector);
    assert(((g & 0x3FFF_FFFF_FFFF_FFFF) | 0x4000_0000_0000_0000) & 0x4000_0000_0000_0000 != 0)
        by (bit_vector);
    assert(((g & 0x3FFF_FFFF_FFFF_FFFF) | 0x4000_0000_0000_0000) & 0x3FFF_FFFF_FFFF_FFFF == g
        % 0x4000_0000_0000_0000) by (bit_vector);
}

proof fn lemma_state_set_flag(s: u64, flag: u64)
    requires
        flag == 0x8000_0000_0000_0000 || flag == 0x4000_0000_0000_0000,
    ensures
        (s | flag) & flag != 0,
        (s | flag) & 0x3FFF_FFFF_FFFF_FFFF == s & 0x3FFF_FFFF_FFFF_FFFF,
        flag == 0x8000_0000_0000_0000 ==> (s | flag) & 0x4000_0000_0000_0000 == s
            & 0x4000_0000_0000_0000,
        flag == 0x4000_0000_0000_0000 ==> (s | flag) & 0x8000_0000_0000_0000 == s
            & 0x8000_0000_0000_0000,
{
    assert(flag == 0x8000_0000_0000_0000 || flag == 0x4000_0000_0000_0000 ==> (s | flag) & flag
        != 0 && (s | flag) & 0x3FFF_FFFF_FFFF_FFFF == s & 0x3FFF_FFFF_FFFF_FFFF && (flag
        == 0x8000_0000_0000_0000 ==> (s | flag) & 0x4000_0000_0000_0000 == s
        & 0x4000_0000_0000_0000) && (flag == 0x4000_0000_0000_0000 ==> (s | flag)
        & 0x8000_0000_0000_0000 == s & 0x8000_0000_0000_0000)) by (bit_vector);
}

proof fn lemma_state_clear_flag(s: u64, flag: u64)
    requires
        flag == 0x8000_0000_0000_0000 || flag == 0x4000_0000_0000_0000,
    ensures
        (s & !flag) & flag == 0,
        (s & !flag) & 0x3FFF_FFFF_FFFF_FFFF == s & 0x3FFF_FFFF_FFFF_FFFF,
        flag == 0x8000_0000_0000_0000 ==> (s & !flag) & 0x4000_0000_0000_0000 == s
            & 0x4000_0000_0000_0000,
        flag == 0x4000_0000_0000_0000 ==> (s & !flag) & 0x8000_0000_0000_0000 == s
            & 0x8000_0000_0000_0000,
{
    assert(flag == 0x8000_0000_0000_0000 || flag == 0x4000_0000_0000_0000 ==> (s & !flag) & flag
        == 0 && (s & !flag) & 0x3FFF_FFFF_FFFF_FFFF == s & 0x3FFF_FFFF_FFFF_FFFF && (flag
        == 0x8000_0000_0000_0000 ==> (s & !flag) & 0x4000_0000_0000_0000 == s
        & 0x4000_0000_0000_0000) && (flag == 0x4000_0000_0000_0000 ==> (s & !flag)
        & 0x8000_0000_0000_0000 == s & 0x8000_0000_0000_0000)) by (bit_vector);
}

proof fn lemma_state_regenerate(s: u64, g: u64)
    ensures
        ({
            let t = (g & 0x3FFF_FFFF_FFFF_FFFF) | (s & 0xC000_0000_0000_0000);
            &&& t & 0x8000_0000_0000_0000 == s & 0x8000_0000_0000_0000
            &&& t & 0x4000_0000_0000_0000 == s & 0x4000_0000_0000_0000
            &&& t & 0x3FFF_FFFF_FFFF_FFFF == g % 0x4000_0000_0000_0000
        }),
{
    assert({
        let t = (g & 0x3FFF_FFFF_FFFF_FFFF) | (s & 0xC000_0000_0000_0000);
        &&& t & 0x8000_0000_0000_0000 == s & 0x8000_0000_0000_0000
        &&& t & 0x4000_0000_0000_0000 == s & 0x4000_0000_0000_0000
        &&& t & 0x3FFF_FFFF_FFFF_FFFF == g % 0x4000_0000_0000_0000
    }) by (bit_vector);
}

impl Block {
    /// A well-formed block that is marked as zeroed holds only zero bytes.
    pub proof fn lemma_zeroed_is_scrubbed(self)
        requires
            self.wf(),
            self@.zeroed,
        ensures
            self@.is_scrubbed(),
    {
    }

    /// The bytes of a well-formed block can be counted in a `usize`.
    pub proof fn lemma_size_fits(self)
        requires
            self.wf(),
        ensures
            self@.bytes.len() <= usize::MAX,
            self@.size() == self@.bytes.len(),
    {
    }

    /// A block of `size` zero bytes that nobody holds, marked as zeroed, with the
    /// generation `generation` as far as it fits into the generation bits.
    pub fn new(size: usize, generation: u64) -> (b: Block)
        ensures
            b.wf(),
            b@ == (BlockView {
                in_use: false,
                zeroed: true,
                generation: generation_bits(generation),
                bytes: zeros(size as nat),
            }),
    {
        proof {
            lemma_state_new(generation);
        }
        let data = vec![0u8; size];
        assert(data@ =~= zeros(size as nat));
        Block { state: (generation & GENERATION_MASK) | ZEROED_FLAG, size, data }
    }

    /// Replaces the generation and keeps the two flags.
    pub fn update_generation(&mut self, new_gen: u64)
        requires
            old(self).wf(),
        ensures
            final(self).wf(),
            final(self)@ == (BlockView { generation: generation_bits(new_gen), ..old(self)@ }),
    {
        proof {
            lemma_state_regenerate(self.state, new_gen);
        }
        let flags = self.state & (IN_USE_FLAG | ZEROED_FLAG);
        assert(IN_USE_FLAG | ZEROED_FLAG == 0xC000_0000_0000_0000) by (bit_vector);
        self.state = (new_gen & GENERATION_MASK) | flags;
    }

    /// Copies `data` into the block from `offset` on and clears the zeroed flag,
    /// unless `data` would run past the end: then nothing changes.
    pub fn write(&mut self, offset: usize, data: &[u8]) -> (r: Result<(), BlockError>)
        requires
            old(self).wf(),
        ensures
            final(self).wf(),
            offset + data@.len() > old(self)@.bytes.len() ==> r == Err::<(), BlockError>(
                BlockError::OutOfBounds {
                    offset,
                    len: data@.len() as usize,
                    size: old(self)@.bytes.len() as usize,
                },
            ) && final(self)@ == old(self)@,
            offset + data@.len() <= old(self)@.bytes.len() ==> r is Ok && final(self)@ == (
            BlockView {
                zeroed: false,
                bytes: overwrite(old(self)@.bytes, offset as int, data@),
                ..old(self)@
            }),
    {
        let size = self.size;
        let len = data.len();
        if offset > size || len > size - offset {
            return Err(BlockError::OutOfBounds { offset, len, size });
        }
        let mut chunk_start: usize = 0;
        while chunk_start < len
            invariant
                chunk_start <= len,
                len == data@.len(),
                offset + len <= size,
                self.size == size,
                self.state == old(self).state,
                self.data@.len() == size,
                self.data@ =~= overwrite(
                    old(self).data@,
                    offset as int,
                    data@.subrange(0, chunk_start as int),
                ),
            decreases len - chunk_start,
        {
            let stop = chunk_end(chunk_start, len);
            let mut i: usize = chunk_start;
            while i < stop
                invariant
                    chunk_start <= i <= stop <= len,
                    len == data@.len(),
                    offset + len <= size,
                    self.size == size,
                    self.state == old(self).state,
                    self.data@.len() == size,
                    self.data@ =~= overwrite(
                        old(self).data@,
                        offset as int,
                        data@.subrange(0, i as int),
                    ),
                decreases stop - i,
            {
                self.data.set(offset + i, data[i]);
                i = i + 1;
            }
            chunk_start = stop;
        }
        proof {
            lemma_state_clear_flag(self.state, ZEROED_FLAG);
            assert(data@.subrange(0, len as int) =~= data@);
        }
        self.state = self.state & !ZEROED_FLAG;
        Ok(())
    }

    /// A copy of the `len` bytes from `offset` on, unless they would run past the
    /// end.
    pub fn read(&self, offset: usize, len: usize) -> (r: Result<Vec<u8>, BlockError>)
        requires
            self.wf(),
        ensures
            offset + len > self@.bytes.len() ==> r == Err::<Vec<u8>, BlockError>(
                BlockError::OutOfBounds { offset, len, size: self@.bytes.len() as usize },
            ),
            offset + len <= self@.bytes.len() ==> r is Ok && r->Ok_0@ == self@.bytes.subrange(
                offset as int,
                offset + len,
            ),
    {
        let size = self.size;
        if offset > size || len > size - offset {
            return Err(BlockError::OutOfBounds { offset, len, size });
        }
        let mut result: Vec<u8> = Vec::with_capacity(len);
        let mut chunk_start: usize = 0;
        while chunk_start < len
            invariant
                chunk_start <= len,
                offset + len <= size,
                self.data@.len() == size,
                result@ =~= self.data@.subrange(offset as int, offset + chunk_start),
            decreases len - chunk_start,
        {
            let stop = chunk_end(chunk_start, len);
            let mut i: usize = chunk_start;
            while i < stop
                invariant
                    chunk_start <= i <= stop <= len,
                    offset + len <= size,
                    self.data@.len() == size,
                    result@ =~= self.data@.subrange(offset as int, offset + i),
                decreases stop - i,
            {
                result.push(self.data[offset + i]);
                i = i + 1;
            }
            chunk_start = stop;
        }
        Ok(result)
    }

    /// Writes zero to every byte, then sets the zeroed flag.
    pub fn clear(&mut self)
        requires
            old(self).wf(),
        ensures
            final(self).wf(),
            final(self)@ == old(self)@.cleared(),
    {
        let size = self.size;
        let mut offset: usize = 0;
        while offset < size
            invariant
                offset <= size,
                self.size == size,
                self.state == old(self).state,
                self.data@.len() == size,
                forall|j: int| 0 <= j < offset ==> self.data@[j] == 0u8,
            decreases size - offset,
        {
            let end = chunk_end(offset, size);
            let mut i: usize = offset;
            while i < end
                invariant
                    offset <= i <= end <= size,
                    self.size == size,
                    self.state == old(self).state,
                    self.data@.len() == size,
                    forall|j: int| 0 <= j < i ==> self.data@[j] == 0u8,
                decreases end - i,
            {
                self.data.set(i, 0);
                i = i + 1;
            }
            offset = end;
        }
        proof {
            lemma_state_set_flag(self.state, ZEROED_FLAG);
            assert(self.data@ =~= zeros(size as nat));
        }
        self.state = self.state | ZEROED_FLAG;
    }
}

impl BlockOps for Block {
    open spec fn model(&self) -> BlockView {
        self@
    }

    closed spec fn wf(&self) -> bool {
        &&& self.size == self.data@.len()
        &&& self.state & ZEROED_FLAG != 0 ==> self.data@ =~= zeros(self.size as nat)
    }

    fn size(&self) -> (r: usize) {
        self.size
    }

    fn try_acquire(&mut self) -> (r: bool) {
        proof {
            lemma_state_set_flag(self.state, IN_USE_FLAG);
        }
        let current = self.state;
        self.state = current | IN_USE_FLAG;
        current & IN_USE_FLAG == 0
    }

    fn release(&mut self) {
        proof {
            lemma_state_clear_flag(self.state, IN_USE_FLAG);
        }
        self.state = self.state & !IN_USE_FLAG;
    }

    fn generation(&self) -> (r: u64) {
        self.state & GENERATION_MASK
    }

    fn clear(&mut self) {
        Block::clear(self)
    }
}

} // verus!
