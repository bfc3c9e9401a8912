//! The reuse cache: nine size classes, each a hot and a cold queue, in front of
//! the pool.

use crate::block::{Block, BlockOps, BlockView};
use crate::config::AtomAllocConfig;
use crate::error::AtomAllocError;
use crate::manager::BlockManager;
use crate::model::AllocatorView;
use crate::pool::{pool_index, MemoryPool};
use crate::queue::BlockQueue;
use crate::sizing::{
    checked_next_power_of_two, floor_log2, is_pow2, is_power_of_two, lemma_log2_of_pow2,
    lemma_next_pow2, lemma_next_pow2_unique, lemma_pow2_adds, lemma_pow2_double,
    lemma_pow2_monotonic, log2, next_pow2, pow2, wrap_add,
};
use crate::stats::{AtomAllocStats, Stats};
use vstd::prelude::*;

verus! {

/// The hot and the cold queue of one size, and the count of the blocks that the
/// class has handed out.
pub struct SizeClass {
    size: usize,
    hot_queue: BlockQueue,
    cold_queue: BlockQueue,
    allocation_count: usize,
}

/// What a size class is.
pub struct SizeClassView {
    pub size: usize,
    /// The hot queue, the oldest block first.
    pub hot: Seq<BlockView>,
    /// The cold queue, the oldest block first.
    pub cold: Seq<BlockView>,
    pub allocation_count: usize,
}

/// What up to `attempts` pops find in a queue, and what they leave of it: a block
/// that is in use is popped and dropped, the first that is not is taken, and an
/// empty queue ends the search.
pub open spec fn scan(queue: Seq<BlockView>, attempts: nat) -> (Option<BlockView>, Seq<BlockView>)
    decreases attempts,
{
    if attempts == 0 || queue.len() == 0 {
        (None, queue)
    } else if !queue[0].in_use {
        (Some(queue[0]), queue.drop_first())
    } else {
        scan(queue.drop_first(), (attempts - 1) as nat)
    }
}

impl SizeClassView {
    /// Every block in the two queues is of the class's size.
    pub open spec fn wf(self) -> bool {
        &&& forall|j: int|
            0 <= j < self.hot.len() ==> (#[trigger] self.hot[j]).bytes.len() == self.size
        &&& forall|j: int|
            0 <= j < self.cold.len() ==> (#[trigger] self.cold[j]).bytes.len() == self.size
    }

    /// No block in the two queues is in use.
    pub open spec fn all_free(self) -> bool {
        &&& forall|j: int| 0 <= j < self.hot.len() ==> !(#[trigger] self.hot[j]).in_use
        &&& forall|j: int| 0 <= j < self.cold.len() ==> !(#[trigger] self.cold[j]).in_use
    }

    /// Every block in the two queues holds only zero bytes and is marked so.
    pub open spec fn scrubbed(self) -> bool {
        &&& forall|j: int| 0 <= j < self.hot.len() ==> (#[trigger] self.hot[j]).is_scrubbed()
        &&& forall|j: int| 0 <= j < self.cold.len() ==> (#[trigger] self.cold[j]).is_scrubbed()
    }

    /// The block that `get_block` takes, as it lies in its queue: two pops of the
    /// hot queue come first, then one of the cold queue.
    pub open spec fn taken(self) -> Option<BlockView> {
        if scan(self.hot, 2).0 is Some {
            scan(self.hot, 2).0
        } else {
            scan(self.cold, 1).0
        }
    }

    /// The class after `get_block`.
    pub open spec fn after_get(self) -> SizeClassView {
        if scan(self.hot, 2).0 is Some {
            SizeClassView {
                hot: scan(self.hot, 2).1,
                allocation_count: wrap_add(self.allocation_count, 1),
                ..self
            }
        } else {
            SizeClassView {
                hot: scan(self.hot, 2).1,
                cold: scan(self.cold, 1).1,
                allocation_count: if scan(self.cold, 1).0 is Some {
                    wrap_add(self.allocation_count, 1)
                } else {
                    self.allocation_count
                },
                ..self
            }
        }
    }

    /// The class after `block` came back: to the hot queue where the count of
    /// blocks handed out is a multiple of eight, else to the cold queue.
    pub open spec fn after_return(self, block: BlockView) -> SizeClassView {
        if self.allocation_count % 8 == 0 {
            SizeClassView { hot: self.hot.push(block), ..self }
        } else {
            SizeClassView { cold: self.cold.push(block), ..self }
        }
    }
}

/// Pops the head of the queue and takes it where it is of `size` bytes and not in
/// use; a head that is not is dropped.
fn pop_acquire(q: &mut BlockQueue, size: usize) -> (r: Option<Block>)
    requires
        old(q).wf(),
        forall|j: int| 0 <= j < old(q)@.len() ==> (#[trigger] old(q)@[j]).bytes.len() == size,
    ensures
        final(q).wf(),
        old(q)@.len() == 0 ==> r is None && final(q)@ == old(q)@,
        old(q)@.len() > 0 ==> final(q)@ == old(q)@.drop_first(),
        old(q)@.len() > 0 && old(q)@[0].in_use ==> r is None,
        old(q)@.len() > 0 && !old(q)@[0].in_use ==> r is Some && r->Some_0.wf() && r->Some_0@
            == old(q)@[0].acquired(),
{
    if let Some(block) = q.pop() {
        let mut block = block;
        if block.size() == size && block.try_acquire() {
            return Some(block);
        }
    }
    None
}

impl View for SizeClass {
    type V = SizeClassView;

    closed spec fn view(&self) -> SizeClassView {
        SizeClassView {
            size: self.size,
            hot: self.hot_queue@,
            cold: self.cold_queue@,
            allocation_count: self.allocation_count,
        }
    }
}

impl SizeClass {
    /// Every block in the two queues is well formed and of the class's size.
    pub closed spec fn wf(&self) -> bool {
        &&& self@.wf()
        &&& self.hot_queue.wf()
        &&& self.cold_queue.wf()
    }

    /// What `wf` says of the class's view.
    pub proof fn lemma_wf_view(&self)
        requires
            self.wf(),
        ensures
            self@.wf(),
    {
    }

    /// A class of `size` bytes with two empty queues.
    pub fn new(size: usize) -> (c: Self)
        ensures
            c.wf(),
            c@ == (SizeClassView {
                size,
                hot: Seq::<BlockView>::empty(),
                cold: Seq::<BlockView>::empty(),
                allocation_count: 0,
            }),
    {
        SizeClass {
            size,
            hot_queue: BlockQueue::new(),
            cold_queue: BlockQueue::new(),
            allocation_count: 0,
        }
    }

    /// Takes a block out of the class: up to two pops of the hot queue, then one
    /// of the cold queue. The block is handed out in use; `None` where no pop
    /// found a block that could be taken.
    pub fn get_block(&mut self) -> (r: Option<Block>)
        requires
            old(self).wf(),
        ensures
            final(self).wf(),
            final(self)@ == old(self)@.after_get(),
            match r {
                Some(block) => block.wf() && old(self)@.taken() is Some && block@ == old(
                    self,
                )@.taken().unwrap().acquired(),
                None => old(self)@.taken() is None,
            },
    {
        let mut attempt: usize = 0;
        while attempt < 2
            invariant
                attempt <= 2,
                self.wf(),
                self.size == old(self).size,
                self.allocation_count == old(self).allocation_count,
                self@.cold == old(self)@.cold,
                scan(self@.hot, (2 - attempt) as nat) == scan(old(self)@.hot, 2),
            decreases 2 - attempt,
        {
            let ghost before = self@.hot;
            if let Some(block) = pop_acquire(&mut self.hot_queue, self.size) {
                self.allocation_count = self.allocation_count.wrapping_add(1);
                return Some(block);
            }
            proof {
                reveal_with_fuel(scan, 3);
                assert(scan(self@.hot, (2 - attempt - 1) as nat) == scan(
                    before,
                    (2 - attempt) as nat,
                ));
            }
            attempt = attempt + 1;
        }
        let ghost cold = self@.cold;
        let taken = pop_acquire(&mut self.cold_queue, self.size);
        proof {
            reveal_with_fuel(scan, 3);
            assert(scan(old(self)@.hot, 2) == (None::<BlockView>, self@.hot));
            assert(scan(cold, 1).1 == self@.cold);
        }
        if let Some(block) = taken {
            self.allocation_count = self.allocation_count.wrapping_add(1);
            return Some(block);
        }
        None
    }

    /// Takes a block of the class's size back: into the hot queue where the count
    /// of blocks handed out is a multiple of eight, else into the cold queue.
    pub fn return_block(&mut self, block: Block)
        requires
            old(self).wf(),
            block.wf(),
            block@.bytes.len() == old(self)@.size,
        ensures
            final(self).wf(),
            final(self)@ == old(self)@.after_return(block@),
    {
        let alloc_count = self.allocation_count;
        assert(alloc_count & 7 == 0 <==> alloc_count % 8 == 0) by (bit_vector);
        if alloc_count & 7 == 0 {
            self.hot_queue.push(block);
            proof {
                let before = old(self)@;
                assert forall|j: int| 0 <= j < self@.hot.len() implies (
                #[trigger] self@.hot[j]).bytes.len() == self@.size by {
                    if j < before.hot.len() {
                        assert(self@.hot[j] == before.hot[j]);
                    }
                }
                assert(self@.cold == before.cold);
            }
        } else {
            self.cold_queue.push(block);
            proof {
                let before = old(self)@;
                assert forall|j: int| 0 <= j < self@.cold.len() implies (
                #[trigger] self@.cold[j]).bytes.len() == self@.size by {
                    if j < before.cold.len() {
                        assert(self@.cold[j] == before.cold[j]);
                    }
                }
                assert(self@.hot == before.hot);
            }
        }
    }
}

/// The number of size classes.
pub const CLASS_COUNT: usize = 9;

/// The size of the smallest class.
pub const SMALLEST_CLASS: usize = 32;

/// The size of class `i`: 32, 64, 128 and so on, up to 8192 for the ninth class.
pub open spec fn class_size(i: int) -> int {
    (32 * pow2(i as nat)) as int
}

/// The class that a request or a block of `size` bytes goes to. Above 32 bytes
/// it is the class of the round-up of `size - 1`; a size above 8193 has none and
/// passes the cache by.
pub open spec fn class_index(size: usize) -> Option<int> {
    if size <= 32 {
        Some(0)
    } else {
        let index = log2(next_pow2((size - 1) as nat)) - 5;
        if index < 9 {
            Some(index)
        } else {
            None
        }
    }
}

/// The sizes of the nine classes.
pub proof fn lemma_class_sizes()
    ensures
        class_size(0) == 32,
        class_size(1) == 64,
        class_size(2) == 128,
        class_size(3) == 256,
        class_size(4) == 512,
        class_size(5) == 1024,
        class_size(6) == 2048,
        class_size(7) == 4096,
        class_size(8) == 8192,
        pow2(5) == 32,
        pow2(13) == 8192,
{
    reveal_with_fuel(pow2, 14);
}

/// A block of a class's size goes to that class.
pub proof fn lemma_class_of_class_size(i: int)
    requires
        0 <= i < 9,
    ensures
        class_index(class_size(i) as usize) == Some(i),
{
    lemma_class_sizes();
    lemma_pow2_adds(5, i as nat);
    assert(class_size(i) == pow2((5 + i) as nat));
    lemma_pow2_monotonic((5 + i) as nat, 13);
    lemma_log2_of_pow2((5 + i) as nat);
    if i > 0 {
        let size = class_size(i) as nat;
        lemma_pow2_monotonic(6, (5 + i) as nat);
        reveal_with_fuel(pow2, 7);
        lemma_pow2_double((4 + i) as nat);
        lemma_next_pow2_unique((size - 1) as nat, (5 + i) as nat);
    }
}

/// A size has a class exactly where it is not above 8193, and the class's size is
/// then not below `size - 1`.
pub proof fn lemma_class_index(size: usize)
    ensures
        class_index(size) is Some <==> size <= 8193,
        class_index(size) matches Some(i) ==> 0 <= i < 9 && size <= class_size(i) + 1,
{
    lemma_class_sizes();
    if size > 32 {
        let n = (size - 1) as nat;
        lemma_next_pow2(n);
        let k = choose|k: nat| next_pow2(n) as int == #[trigger] pow2(k);
        lemma_log2_of_pow2(k);
        if k < 5 {
            lemma_pow2_monotonic(k, 5);
        }
        lemma_pow2_adds(5, (k - 5) as nat);
        if size <= 8193 {
            if k > 13 {
                lemma_pow2_monotonic(14, k);
                reveal_with_fuel(pow2, 15);
            }
        } else {
            if k <= 13 {
                lemma_pow2_monotonic(k, 13);
            }
        }
    }
}

/// Nine empty classes.
pub open spec fn empty_classes() -> Seq<SizeClassView> {
    Seq::new(
        9,
        |i: int|
            SizeClassView {
                size: class_size(i) as usize,
                hot: Seq::<BlockView>::empty(),
                cold: Seq::<BlockView>::empty(),
                allocation_count: 0,
            },
    )
}

/// The nine classes are there, each of its size, and no block in them is in use.
pub open spec fn classes_wf(classes: Seq<SizeClassView>) -> bool {
    &&& classes.len() == 9
    &&& forall|i: int|
        0 <= i < 9 ==> {
            &&& (#[trigger] classes[i]).size == class_size(i)
            &&& classes[i].wf()
            &&& classes[i].all_free()
        }
}

/// A cache, with a pool of `config` behind it, can take `block` back: the block is
/// of the size of the class or of the free list that it goes to.
pub open spec fn takes_back(config: AtomAllocConfig, block: BlockView) -> bool {
    match class_index(block.size()) {
        Some(i) => block.bytes.len() == class_size(i),
        None => pool_index(config, block.size()) is Some ==> is_pow2(block.bytes.len() as int),
    }
}

/// A size that has a class is the size of that class exactly where it is a power
/// of two and not below 32.
pub proof fn lemma_class_fits(size: usize)
    ensures
        class_index(size) matches Some(i) ==> (size == class_size(i) <==> size >= 32 && is_pow2(
            size as int,
        )),
{
    lemma_class_index(size);
    lemma_class_sizes();
    if let Some(i) = class_index(size) {
        lemma_pow2_adds(5, i as nat);
        if size >= 32 && is_pow2(size as int) {
            let k = choose|k: nat| size as int == #[trigger] pow2(k);
            if k < 5 {
                lemma_pow2_monotonic(k + 1, 5);
                lemma_pow2_double(k);
            }
            if k > 13 {
                lemma_pow2_monotonic(14, k);
                reveal_with_fuel(pow2, 15);
            }
            lemma_pow2_adds(5, (k - 5) as nat);
            lemma_class_of_class_size(k - 5);
        }
    }
}

/// The allocator that a cache, a manager, a pool and the counters make up.
pub open spec fn world(
    cache: BlockCache,
    manager: BlockManager,
    pool: MemoryPool,
    stats: AtomAllocStats,
) -> AllocatorView {
    AllocatorView {
        classes: cache@,
        pool: pool@,
        generation: manager.current(),
        zeroing: manager.zeroing(),
        stats: stats@,
    }
}

/// In a class without blocks in use, the block taken is the head of the hot
/// queue, or of the cold queue where the hot queue is empty.
pub proof fn lemma_taken_is_head(class: SizeClassView)
    requires
        class.all_free(),
    ensures
        class.hot.len() > 0 ==> class.taken() == Some(class.hot[0]) && class.after_get() == (
        SizeClassView {
            hot: class.hot.drop_first(),
            allocation_count: wrap_add(class.allocation_count, 1),
            ..class
        }),
        class.hot.len() == 0 && class.cold.len() > 0 ==> class.taken() == Some(class.cold[0])
            && class.after_get() == (SizeClassView {
            cold: class.cold.drop_first(),
            allocation_count: wrap_add(class.allocation_count, 1),
            ..class
        }),
        class.hot.len() == 0 && class.cold.len() == 0 ==> class.taken() is None
            && class.after_get() == class,
{
    reveal_with_fuel(scan, 3);
}

/// The cache: the nine size classes.
pub struct BlockCache {
    size_classes: Vec<SizeClass>,
}

impl View for BlockCache {
    type V = Seq<SizeClassView>;

    closed spec fn view(&self) -> Seq<SizeClassView> {
        Seq::new(self.size_classes@.len(), |i: int| self.size_classes@[i]@)
    }
}

impl BlockCache {
    /// The classes are as `classes_wf` says, and every block in them is well
    /// formed.
    pub closed spec fn wf(&self) -> bool {
        &&& classes_wf(self@)
        &&& forall|i: int|
            0 <= i < self.size_classes@.len() ==> (#[trigger] self.size_classes@[i]).wf()
    }

    /// What `wf` says of the cache's view.
    pub proof fn lemma_wf_view(&self)
        requires
            self.wf(),
        ensures
            classes_wf(self@),
    {
    }

    /// A cache of nine empty classes.
    pub fn new() -> (c: Self)
        ensures
            c.wf(),
            c@ == empty_classes(),
    {
        let mut size_classes: Vec<SizeClass> = Vec::new();
        let mut size: usize = SMALLEST_CLASS;
        proof {
            lemma_class_sizes();
        }
        while size_classes.len() < CLASS_COUNT
            invariant
                size_classes@.len() <= 9,
                size == class_size(size_classes@.len() as int),
                forall|i: int|
                    0 <= i < size_classes@.len() ==> (#[trigger] size_classes@[i]).wf()
                        && size_classes@[i]@ == (SizeClassView {
                        size: class_size(i) as usize,
                        hot: Seq::<BlockView>::empty(),
                        cold: Seq::<BlockView>::empty(),
                        allocation_count: 0,
                    }),
            decreases 9 - size_classes@.len(),
        {
            let ghost earlier = size_classes@;
            size_classes.push(SizeClass::new(size));
            proof {
                lemma_pow2_double(earlier.len());
                lemma_pow2_monotonic(earlier.len(), 8);
                lemma_class_sizes();
                assert forall|i: int| 0 <= i < size_classes@.len() implies (
                #[trigger] size_classes@[i]).wf() && size_classes@[i]@ == (SizeClassView {
                    size: class_size(i) as usize,
                    hot: Seq::<BlockView>::empty(),
                    cold: Seq::<BlockView>::empty(),
                    allocation_count: 0,
                }) by {
                    if i < earlier.len() {
                        assert(size_classes@[i] == earlier[i]);
                    }
                }
            }
            size = size * 2;
        }
        let c = BlockCache { size_classes };
        proof {
            assert forall|i: int| 0 <= i < 9 implies (#[trigger] c@[i]) == (SizeClassView {
                size: class_size(i) as usize,
                hot: Seq::<BlockView>::empty(),
                cold: Seq::<BlockView>::empty(),
                allocation_count: 0,
            }) by {
                assert(c@[i] == c.size_classes@[i]@);
            }
            assert forall|i: int| 0 <= i < 9 implies {
                &&& (#[trigger] c@[i]).size == class_size(i)
                &&& c@[i].wf()
                &&& c@[i].all_free()
            } by {
                lemma_pow2_monotonic(i as nat, 8);
            }
            assert(c@ =~= empty_classes());
        }
        c
    }

    /// The index of the class that a request or a block of `size` bytes goes to.
    pub fn get_size_class_index(&self, size: usize) -> (r: Option<usize>)
        ensures
            match class_index(size) {
                Some(i) => r == Some(i as usize) && 0 <= i < 9,
                None => r is None,
            },
    {
        if size <= SMALLEST_CLASS {
            return Some(0);
        }
        proof {
            lemma_class_index(size);
            lemma_class_sizes();
            lemma_next_pow2((size - 1) as nat);
            let k = choose|k: nat| next_pow2((size - 1) as nat) as int == #[trigger] pow2(k);
            lemma_log2_of_pow2(k);
            if k < 5 {
                lemma_pow2_monotonic(k, 5);
            }
            if k <= 13 {
                lemma_pow2_monotonic(k, 13);
            }
        }
        match checked_next_power_of_two(size - 1) {
            Some(rounded) => {
                let size_log2 = floor_log2(rounded);
                let index = size_log2.saturating_sub(5);
                if index < CLASS_COUNT {
                    Some(index)
                } else {
                    None
                }
            },
            None => None,
        }
    }

    /// Whether `deallocate` can take the block, with `pool` behind the cache: the
    /// block has to be of the size of the class or of the free list that it goes
    /// to.
    pub fn accepts(&self, block: &Block, pool: &MemoryPool) -> (r: bool)
        requires
            pool.wf(),
            block.wf(),
        ensures
            r == takes_back(pool@.config, block@),
    {
        let size = block.size();
        proof {
            lemma_class_fits(size);
        }
        match self.get_size_class_index(size) {
            Some(_) => size >= SMALLEST_CLASS && is_power_of_two(size),
            None => pool.accepts(block),
        }
    }

    /// Serves a request of `size` bytes: from the class of the size where it holds
    /// a block, else from the pool, with a generation that the manager issues.
    pub fn allocate(
        &mut self,
        size: usize,
        manager: &mut BlockManager,
        pool: &mut MemoryPool,
        stats: &mut AtomAllocStats,
    ) -> (r: Result<Block, AtomAllocError>)
        requires
            old(self).wf(),
            old(pool).wf(),
        ensures
            final(self).wf(),
            final(pool).wf(),
            world(*final(self), *final(manager), *final(pool), *final(stats)) == world(
                *old(self),
                *old(manager),
                *old(pool),
                *old(stats),
            ).after_cache_allocate(size),
            match r {
                Ok(block) => block.wf() && world(
                    *old(self),
                    *old(manager),
                    *old(pool),
                    *old(stats),
                ).cache_allocated(size) == Ok::<BlockView, AtomAllocError>(block@),
                Err(e) => world(
                    *old(self),
                    *old(manager),
                    *old(pool),
                    *old(stats),
                ).cache_allocated(size) == Err::<BlockView, AtomAllocError>(e),
            },
    {
        if let Some(class_idx) = self.get_size_class_index(size) {
            proof {
                assert(self@[class_idx as int] == self.size_classes@[class_idx as int]@);
                lemma_taken_is_head(self@[class_idx as int]);
            }
            if let Some(block) = self.size_classes[class_idx].get_block() {
                proof {
                    self.lemma_hit(*old(self), class_idx as int);
                }
                stats.record_allocation(block.size());
                stats.record_cache_hit();
                return Ok(block);
            }
            proof {
                assert(self.size_classes@[class_idx as int]@ == old(self)@[class_idx as int]);
                assert(self@ =~= old(self)@);
                assert forall|i: int| 0 <= i < self.size_classes@.len() implies (
                #[trigger] self.size_classes@[i]).wf() by {
                    if i != class_idx {
                        assert(self.size_classes@[i] == old(self).size_classes@[i]);
                    }
                }
            }
        }
        stats.record_cache_miss();
        let generation = manager.new_generation();
        pool.allocate_with_generation(size, generation, stats)
    }

    /// After a block was taken out of class `i`, the cache is the one before with
    /// that class changed, and is well formed.
    proof fn lemma_hit(&self, before: Self, i: int)
        requires
            before.wf(),
            0 <= i < 9,
            self.size_classes@.len() == before.size_classes@.len(),
            forall|j: int|
                0 <= j < 9 && j != i ==> self.size_classes@[j] == before.size_classes@[j],
            self.size_classes@[i].wf(),
            self.size_classes@[i]@ == before@[i].after_get(),
            before@[i].hot.len() > 0 || before@[i].cold.len() > 0,
        ensures
            self.wf(),
            self@ == before@.update(i, before@[i].after_get()),
            before@[i].taken() is Some,
            before@[i].taken().unwrap().bytes.len() == before@[i].size,
    {
        lemma_taken_is_head(before@[i]);
        assert(self@ =~= before@.update(i, before@[i].after_get()));
        assert forall|j: int| 0 <= j < 9 implies {
            &&& (#[trigger] self@[j]).size == class_size(j)
            &&& self@[j].wf()
            &&& self@[j].all_free()
        } by {
            if j == i {
                let old_class = before@[i];
                let new_class = self@[i];
                if old_class.hot.len() > 0 {
                    assert forall|n: int| 0 <= n < new_class.hot.len() implies (
                    #[trigger] new_class.hot[n]).bytes.len() == new_class.size
                        && !new_class.hot[n].in_use by {
                        assert(new_class.hot[n] == old_class.hot[n + 1]);
                    }
                } else {
                    assert forall|n: int| 0 <= n < new_class.cold.len() implies (
                    #[trigger] new_class.cold[n]).bytes.len() == new_class.size
                        && !new_class.cold[n].in_use by {
                        assert(new_class.cold[n] == old_class.cold[n + 1]);
                    }
                }
            } else {
                assert(self@[j] == before@[j]);
            }
        }
        assert forall|j: int| 0 <= j < self.size_classes@.len() implies (
        #[trigger] self.size_classes@[j]).wf() by {
            if j != i {
                assert(before.size_classes@[j].wf());
            }
        }
    }

    /// Takes a block back: releases it, has the manager scrub it, and stores it in
    /// the class of its size, or in the pool where it has no class.
    pub fn deallocate(
        &mut self,
        block: Block,
        manager: &BlockManager,
        pool: &mut MemoryPool,
        stats: &mut AtomAllocStats,
    )
        requires
            old(self).wf(),
            old(pool).wf(),
            block.wf(),
            takes_back(old(pool)@.config, block@),
        ensures
            final(self).wf(),
            final(pool).wf(),
            world(*final(self), *manager, *final(pool), *final(stats)) == world(
                *old(self),
                *manager,
                *old(pool),
                *old(stats),
            ).after_cache_deallocate(block@),
    {
        let mut block = block;
        let size = block.size();
        block.release();
        manager.zero_block(&mut block);
        if let Some(class_idx) = self.get_size_class_index(size) {
            proof {
                assert(self@[class_idx as int] == self.size_classes@[class_idx as int]@);
            }
            self.size_classes[class_idx].return_block(block);
            stats.record_deallocation(size);
            proof {
                let i = class_idx as int;
                let before = old(self)@;
                assert(self@ =~= before.update(i, before[i].after_return(block@)));
                assert forall|j: int| 0 <= j < 9 implies {
                    &&& (#[trigger] self@[j]).size == class_size(j)
                    &&& self@[j].wf()
                    &&& self@[j].all_free()
                } by {
                    if j == i {
                        self.size_classes@[i].lemma_wf_view();
                        let old_class = before[i];
                        let new_class = self@[i];
                        if old_class.allocation_count % 8 == 0 {
                            assert forall|n: int| 0 <= n < new_class.hot.len() implies !(
                            #[trigger] new_class.hot[n]).in_use by {
                                if n < old_class.hot.len() {
                                    assert(new_class.hot[n] == old_class.hot[n]);
                                }
                            }
                        } else {
                            assert forall|n: int| 0 <= n < new_class.cold.len() implies !(
                            #[trigger] new_class.cold[n]).in_use by {
                                if n < old_class.cold.len() {
                                    assert(new_class.cold[n] == old_class.cold[n]);
                                }
                            }
                        }
                    } else {
                        assert(self@[j] == before[j]);
                    }
                }
                assert forall|j: int| 0 <= j < self.size_classes@.len() implies (
                #[trigger] self.size_classes@[j]).wf() by {
                    if j != i {
                        assert(old(self).size_classes@[j].wf());
                    }
                }
            }
        } else {
            pool.deallocate(block, stats);
        }
    }
}

} // verus!
