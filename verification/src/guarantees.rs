//! What holds of the allocator in every state that it can reach, proved over its
//! model.

use crate::block::BlockView;
use crate::cache::{
    class_index, class_size, lemma_class_index, lemma_class_sizes, lemma_taken_is_head,
    SizeClassView,
};
use crate::config::AtomAllocConfig;
use crate::error::AtomAllocError;
use crate::manager::next_generation;
use crate::model::AllocatorView;
use crate::pool::{effective_max, lemma_pool_index, pool_index};
use crate::sizing::{
    is_pow2, lemma_next_pow2, lemma_next_pow2_of_pow2, lemma_pow2_monotonic, lemma_pow2_ratio,
    log2, next_pow2, pow2,
};
use vstd::prelude::*;

verus! {

impl AllocatorView {
    /// Every block that waits in a class or in a free list holds only zero bytes
    /// and is marked so.
    pub open spec fn scrubbed(self) -> bool {
        &&& forall|i: int| 0 <= i < self.classes.len() ==> (#[trigger] self.classes[i]).scrubbed()
        &&& self.pool.scrubbed()
    }

    /// The cache served the request of `size` bytes.
    pub open spec fn is_hit(self, size: usize) -> bool {
        self.hit_class(size) is Some
    }

    /// The pool served the request of `size` bytes from a free list.
    pub open spec fn is_reuse(self, size: usize) -> bool {
        self.hit_class(size) is None && self.pool.reuses(size)
    }
}

/// A request leaves a well-formed allocator well formed, with its settings.
pub proof fn lemma_allocate_keeps_wf(a: AllocatorView, size: usize, alignment: usize)
    requires
        a.wf(),
    ensures
        a.after_allocate(size, alignment).wf(),
        a.after_allocate(size, alignment).pool.config == a.pool.config,
        a.after_allocate(size, alignment).zeroing == a.zeroing,
{
    lemma_cache_allocate_keeps_wf(a, size);
    a.after_cache_allocate(size).pool.lemma_after_allocate(size);
}

/// Asking the cache leaves a well-formed allocator well formed.
pub proof fn lemma_cache_allocate_keeps_wf(a: AllocatorView, size: usize)
    requires
        a.wf(),
    ensures
        a.after_cache_allocate(size).wf(),
        a.after_cache_allocate(size).pool.config == a.pool.config,
        a.after_cache_allocate(size).zeroing == a.zeroing,
        a.scrubbed() ==> a.after_cache_allocate(size).scrubbed(),
{
    let after = a.after_cache_allocate(size);
    lemma_class_index(size);
    match a.hit_class(size) {
        Some(i) => {
            lemma_taken_is_head(a.classes[i]);
            assert forall|j: int| 0 <= j < 9 implies {
                &&& (#[trigger] after.classes[j]).size == class_size(j)
                &&& after.classes[j].wf()
                &&& after.classes[j].all_free()
                &&& (a.scrubbed() ==> after.classes[j].scrubbed())
            } by {
                if j == i {
                    let before = a.classes[i];
                    let now = after.classes[i];
                    if before.hot.len() > 0 {
                        assert forall|n: int| 0 <= n < now.hot.len() implies (#[trigger] now.hot[n])
                            == before.hot[n + 1] by {}
                    } else {
                        assert forall|n: int| 0 <= n < now.cold.len() implies (
                        #[trigger] now.cold[n]) == before.cold[n + 1] by {}
                    }
                } else {
                    assert(after.classes[j] == a.classes[j]);
                }
            }
        },
        None => {
            a.pool.lemma_after_allocate(size);
        },
    }
}

/// Taking a block back leaves a well-formed allocator well formed, with its
/// settings.
pub proof fn lemma_deallocate_keeps_wf(a: AllocatorView, block: BlockView)
    requires
        a.wf(),
        block.bytes.len() <= usize::MAX,
        a.takes_back(block),
    ensures
        a.after_cache_deallocate(block).wf(),
        a.after_cache_deallocate(block).pool.config == a.pool.config,
        a.after_cache_deallocate(block).zeroing == a.zeroing,
        a.zeroing && a.scrubbed() ==> a.after_cache_deallocate(block).scrubbed(),
{
    let after = a.after_cache_deallocate(block);
    let stored = a.stored(block);
    lemma_class_index(block.size());
    assert(stored.bytes.len() == block.bytes.len());
    match class_index(block.size()) {
        Some(i) => {
            assert forall|j: int| 0 <= j < 9 implies {
                &&& (#[trigger] after.classes[j]).size == class_size(j)
                &&& after.classes[j].wf()
                &&& after.classes[j].all_free()
                &&& (a.zeroing && a.scrubbed() ==> after.classes[j].scrubbed())
            } by {
                if j == i {
                    let before = a.classes[i];
                    let now = after.classes[i];
                    if before.allocation_count % 8 == 0 {
                        assert forall|n: int| 0 <= n < now.hot.len() implies (#[trigger] now.hot[n])
                            == (if n < before.hot.len() {
                            before.hot[n]
                        } else {
                            stored
                        }) by {}
                    } else {
                        assert forall|n: int| 0 <= n < now.cold.len() implies (
                        #[trigger] now.cold[n]) == (if n < before.cold.len() {
                            before.cold[n]
                        } else {
                            stored
                        }) by {}
                    }
                } else {
                    assert(after.classes[j] == a.classes[j]);
                }
            }
        },
        None => {
            assert(stored.size() == block.size());
            a.pool.lemma_after_deallocate(stored);
        },
    }
}

/// Where the cache has refused a request, the pool refuses it again when it is
/// asked once more: the answer is the pool's refusal, and only the counter of
/// misses and the generation have moved.
pub proof fn lemma_retry_is_refused(a: AllocatorView, size: usize, alignment: usize)
    requires
        a.wf(),
        a.cache_allocated(size) is Err,
    ensures
        a.pool.refusal(size) is Some,
        is_pow2_alignment(alignment) ==> a.allocated(size, alignment) == Err::<
            BlockView,
            AtomAllocError,
        >(a.pool.refusal(size).unwrap()),
        is_pow2_alignment(alignment) ==> a.after_allocate(size, alignment) == (AllocatorView {
            generation: next_generation(
                next_generation(a.generation),
            ),
            stats: a.stats.with_miss(),
            ..a
        }),
{
    a.pool.lemma_after_allocate(size);
}

/// The alignment is a power of two.
pub open spec fn is_pow2_alignment(alignment: usize) -> bool {
    is_pow2(alignment as int)
}

/// The larger of two sizes.
pub open spec fn larger(a: usize, b: usize) -> usize {
    if a >= b {
        a
    } else {
        b
    }
}

/// A block that is handed out is of the round-up of the size asked to a power of
/// two, unless the cache found it in a class of another size. The cache does so
/// for a size that is one above a power of two, and for one of sixteen bytes or
/// less.
pub proof fn lemma_round_up(a: AllocatorView, size: usize, alignment: usize)
    requires
        a.wf(),
        a.allocated(size, alignment) is Ok,
        a.hit_class(size) matches Some(i) ==> class_size(i) == next_pow2(size as nat),
    ensures
        a.allocated(size, alignment).unwrap().bytes.len() == next_pow2(size as nat),
        a.pool.config.min_block_size <= size <= a.pool.config.max_block_size ==> a.allocated(
            size,
            alignment,
        ).unwrap().bytes.len() == next_pow2(larger(size, a.pool.config.min_block_size) as nat),
{
    lemma_class_index(size);
    match a.hit_class(size) {
        Some(i) => {
            lemma_taken_is_head(a.classes[i]);
        },
        None => {
            a.pool.lemma_allocated_block(size, a.generation);
        },
    }
}

/// The size of the block that a request gets, whoever serves it: the size of the
/// class on a hit, the round-up of the size asked from the pool.
pub proof fn lemma_allocated_size(a: AllocatorView, size: usize, alignment: usize)
    requires
        a.wf(),
        a.allocated(size, alignment) is Ok,
    ensures
        a.allocated(size, alignment).unwrap().bytes.len() == (match a.hit_class(size) {
            Some(i) => class_size(i),
            None => next_pow2(size as nat) as int,
        }),
{
    lemma_class_index(size);
    match a.hit_class(size) {
        Some(i) => {
            lemma_taken_is_head(a.classes[i]);
        },
        None => {
            a.pool.lemma_allocated_block(size, a.generation);
        },
    }
}

/// No block that waits in a class or in a free list is in use, before a request
/// and after it. A block that a request takes out of a queue was the head of that
/// queue, has left it, and is handed out in use: so no block is handed out twice.
pub proof fn lemma_exclusive(a: AllocatorView, size: usize, alignment: usize)
    requires
        a.wf(),
        is_pow2_alignment(alignment),
    ensures
        forall|i: int, j: int|
            0 <= i < 9 && 0 <= j < a.classes[i].hot.len() ==> !(
            #[trigger] a.classes[i].hot[j]).in_use,
        forall|i: int, j: int|
            0 <= i < 9 && 0 <= j < a.classes[i].cold.len() ==> !(
            #[trigger] a.classes[i].cold[j]).in_use,
        forall|i: int, j: int|
            0 <= i < a.pool.pools.len() && 0 <= j < a.pool.pools[i].free.len() ==> !(
            #[trigger] a.pool.pools[i].free[j]).in_use,
        a.after_allocate(size, alignment).wf(),
        a.is_hit(size) ==> ({
            let i = a.hit_class(size).unwrap();
            let before = a.classes[i];
            let after = a.after_allocate(size, alignment).classes[i];
            let head = if before.hot.len() > 0 {
                before.hot[0]
            } else {
                before.cold[0]
            };
            &&& a.cache_allocated(size) == Ok::<BlockView, AtomAllocError>(head.acquired())
            &&& before.hot.len() > 0 ==> after.hot == before.hot.drop_first() && after.cold
                == before.cold
            &&& before.hot.len() == 0 ==> after.cold == before.cold.drop_first() && after.hot
                == before.hot
        }),
        a.is_reuse(size) ==> ({
            let i = pool_index(a.pool.config, size).unwrap();
            let before = a.pool.pools[i];
            let after = a.after_allocate(size, alignment).pool.pools[i];
            &&& a.cache_allocated(size) == Ok::<BlockView, AtomAllocError>(
                before.free[0].acquired(),
            )
            &&& after.free == before.free.drop_first()
        }),
{
    lemma_allocate_keeps_wf(a, size, alignment);
    lemma_class_index(size);
    assert forall|i: int, j: int| 0 <= i < 9 && 0 <= j < a.classes[i].hot.len() implies !(
    #[trigger] a.classes[i].hot[j]).in_use by {
        assert(a.classes[i].all_free());
    }
    assert forall|i: int, j: int| 0 <= i < 9 && 0 <= j < a.classes[i].cold.len() implies !(
    #[trigger] a.classes[i].cold[j]).in_use by {
        assert(a.classes[i].all_free());
    }
    if a.is_hit(size) {
        lemma_taken_is_head(a.classes[a.hit_class(size).unwrap()]);
    }
    if a.is_reuse(size) {
        lemma_pool_index(a.pool, size);
    }
}

/// An allocator that has handed out nothing is scrubbed.
pub proof fn lemma_initial_scrubbed(config: AtomAllocConfig)
    ensures
        AllocatorView::initial(config).scrubbed(),
{
}

/// An allocator of valid block sizes that has handed out nothing is well formed.
pub proof fn lemma_initial_wf(config: AtomAllocConfig)
    requires
        config.block_sizes_valid(),
    ensures
        AllocatorView::initial(config).wf(),
{
    let a = AllocatorView::initial(config);
    let min = config.min_block_size as nat;
    let max = config.max_block_size as nat;
    lemma_pow2_ratio(min, max);
    assert forall|i: int| 0 <= i < a.pool.pools.len() implies (
    #[trigger] a.pool.pools[i]).block_size
        == config.min_block_size * pow2(i as nat) by {
        lemma_pow2_monotonic(i as nat, (log2(max) - log2(min)) as nat);
        assert(min * pow2(i as nat) <= min * pow2((log2(max) - log2(min)) as nat))
            by (nonlinear_arith)
            requires
                pow2(i as nat) <= pow2((log2(max) - log2(min)) as nat),
        ;
    }
    assert forall|i: int| 0 <= i < 9 implies {
        &&& (#[trigger] a.classes[i]).size == class_size(i)
        &&& a.classes[i].wf()
        &&& a.classes[i].all_free()
    } by {
        lemma_class_sizes();
        lemma_pow2_monotonic(i as nat, 8);
    }
}

/// A request leaves a scrubbed allocator scrubbed, and the block that it gets out
/// of one holds only zero bytes and is marked so.
pub proof fn lemma_allocate_scrubbed(a: AllocatorView, size: usize, alignment: usize)
    requires
        a.wf(),
        a.scrubbed(),
    ensures
        a.after_allocate(size, alignment).scrubbed(),
        a.allocated(size, alignment) matches Ok(block) ==> block.is_scrubbed(),
{
    lemma_cache_allocate_keeps_wf(a, size);
    let asked = a.after_cache_allocate(size);
    asked.pool.lemma_after_allocate(size);
    lemma_class_index(size);
    if a.allocated(size, alignment) is Ok {
        match a.hit_class(size) {
            Some(i) => {
                lemma_taken_is_head(a.classes[i]);
                assert(a.classes[i].scrubbed());
            },
            None => {
                if a.pool.refusal(size) is None {
                    a.pool.lemma_allocated_block(size, a.generation);
                } else {
                    lemma_retry_is_refused(a, size, alignment);
                }
            },
        }
    }
}

/// With scrubbing switched on, taking a block back leaves a scrubbed allocator
/// scrubbed: whatever the block held, it is stored with zero bytes only.
pub proof fn lemma_deallocate_scrubbed(a: AllocatorView, block: BlockView)
    requires
        a.wf(),
        a.zeroing,
        a.scrubbed(),
        block.bytes.len() <= usize::MAX,
        a.takes_back(block),
    ensures
        a.stored(block).is_scrubbed(),
        a.after_cache_deallocate(block).scrubbed(),
{
    lemma_deallocate_keeps_wf(a, block);
}

/// The bytes of the blocks that wait in one class.
pub open spec fn class_bytes(class: SizeClassView) -> nat {
    (class.size * (class.hot.len() + class.cold.len())) as nat
}

/// The bytes of the blocks that wait in the classes.
pub open spec fn cached_bytes(classes: Seq<SizeClassView>) -> nat
    decreases classes.len(),
{
    if classes.len() == 0 {
        0
    } else {
        cached_bytes(classes.drop_last()) + class_bytes(classes.last())
    }
}

impl AllocatorView {
    /// The bytes that callers hold and the bytes that wait in the classes are
    /// together not above the bytes counted against the budget, and these are not
    /// above three quarters of the budget.
    pub open spec fn within_budget(self) -> bool {
        &&& self.stats.current + cached_bytes(self.classes) <= self.pool.total_memory
        &&& self.pool.total_memory <= effective_max(self.pool.config.max_memory)
    }

    /// No block waits where a request of `size` bytes is served from: neither in
    /// the class of the size nor in its free list.
    pub open spec fn idle_for(self, size: usize) -> bool {
        &&& class_index(size) matches Some(i) ==> self.classes[i].hot.len() == 0
            && self.classes[i].cold.len() == 0
        &&& pool_index(self.pool.config, size) matches Some(i) ==> self.pool.pools[i].free.len()
            == 0
    }
}

/// Changing one class changes the bytes that wait by the difference of the two
/// classes.
pub proof fn lemma_cached_bytes_update(classes: Seq<SizeClassView>, i: int, class: SizeClassView)
    requires
        0 <= i < classes.len(),
    ensures
        cached_bytes(classes.update(i, class)) == cached_bytes(classes) - class_bytes(classes[i])
            + class_bytes(class),
    decreases classes.len(),
{
    let updated = classes.update(i, class);
    if i == classes.len() - 1 {
        assert(updated.drop_last() =~= classes.drop_last());
    } else {
        assert(updated.drop_last() =~= classes.drop_last().update(i, class));
        lemma_cached_bytes_update(classes.drop_last(), i, class);
    }
}

/// Where no block waits, no bytes wait.
pub proof fn lemma_cached_bytes_of_empty(classes: Seq<SizeClassView>)
    requires
        forall|i: int|
            0 <= i < classes.len() ==> (#[trigger] classes[i]).hot.len() == 0
                && classes[i].cold.len() == 0,
    ensures
        cached_bytes(classes) == 0,
    decreases classes.len(),
{
    if classes.len() > 0 {
        assert(class_bytes(classes.last()) == 0) by (nonlinear_arith)
            requires
                classes.last().hot.len() + classes.last().cold.len() == 0,
                class_bytes(classes.last()) == classes.last().size * (classes.last().hot.len()
                    + classes.last().cold.len()),
        ;
        assert forall|i: int| 0 <= i < classes.drop_last().len() implies (
        #[trigger] classes.drop_last()[i]).hot.len() == 0 && classes.drop_last()[i].cold.len()
            == 0 by {
            assert(classes.drop_last()[i] == classes[i]);
        }
        lemma_cached_bytes_of_empty(classes.drop_last());
    }
}

/// A class with `count` blocks more holds `count` times its size more bytes.
proof fn lemma_class_bytes_step(size: usize, before: nat, after: nat)
    ensures
        after == before + 1 ==> size * after == size * before + size,
{
    assert(after == before + 1 ==> size * after == size * before + size) by (nonlinear_arith);
}

/// An allocator that has handed out nothing is within its budget.
pub proof fn lemma_initial_within_budget(config: AtomAllocConfig)
    ensures
        AllocatorView::initial(config).within_budget(),
{
    lemma_cached_bytes_of_empty(AllocatorView::initial(config).classes);
}

/// Within the budget, the bytes that callers hold are not above three quarters of
/// the budget.
pub proof fn lemma_budget(a: AllocatorView)
    requires
        a.within_budget(),
    ensures
        a.stats.current <= effective_max(a.pool.config.max_memory),
        a.stats.current <= (a.pool.config.max_memory * 3) / 4,
{
}

/// A request leaves an allocator within its budget.
pub proof fn lemma_allocate_within_budget(a: AllocatorView, size: usize, alignment: usize)
    requires
        a.wf(),
        a.within_budget(),
    ensures
        a.after_allocate(size, alignment).within_budget(),
{
    lemma_class_index(size);
    if is_pow2_alignment(alignment) {
        match a.hit_class(size) {
            Some(i) => {
                let before = a.classes[i];
                lemma_taken_is_head(before);
                lemma_cached_bytes_update(a.classes, i, before.after_get());
                let after = before.after_get();
                lemma_class_bytes_step(
                    before.size,
                    after.hot.len() + after.cold.len(),
                    before.hot.len() + before.cold.len(),
                );
            },
            None => {
                a.pool.lemma_after_allocate(size);
                if a.pool.refusal(size) is Some {
                    lemma_retry_is_refused(a, size, alignment);
                } else {
                    lemma_pool_index(a.pool, size);
                }
            },
        }
    }
}

/// Taking back a block whose bytes were counted as held leaves an allocator
/// within its budget. A block that the counters do not know of would take the
/// bytes held below zero, and the counter round to the top.
pub proof fn lemma_deallocate_within_budget(a: AllocatorView, block: BlockView)
    requires
        a.wf(),
        a.within_budget(),
        block.bytes.len() <= usize::MAX,
        a.takes_back(block),
        a.stats.current >= block.bytes.len(),
    ensures
        a.after_cache_deallocate(block).within_budget(),
{
    lemma_class_index(block.size());
    let stored = a.stored(block);
    assert(stored.bytes.len() == block.bytes.len());
    match class_index(block.size()) {
        Some(i) => {
            let before = a.classes[i];
            let after = before.after_return(stored);
            lemma_cached_bytes_update(a.classes, i, after);
            lemma_class_bytes_step(
                before.size,
                before.hot.len() + before.cold.len(),
                after.hot.len() + after.cold.len(),
            );
        },
        None => {
            assert(stored.size() == block.size());
            a.pool.lemma_after_deallocate(stored);
        },
    }
}

/// A block that is handed out, taken back as it is and handed out again for the
/// same size keeps its generation: neither the cache nor the pool gives a block
/// that waited a new one. This is stated of an allocator in which no other
/// block waits for the size, and of a size that the cache looks for in the class
/// in which a block of the round-up is stored.
pub proof fn lemma_reuse_keeps_generation(a: AllocatorView, size: usize, alignment: usize)
    requires
        a.wf(),
        a.idle_for(size),
        class_index(size) == class_index(next_pow2(size as nat) as usize),
        a.allocated(size, alignment) is Ok,
        a.after_allocate(size, alignment).takes_back(a.allocated(size, alignment).unwrap()),
        a.after_allocate(size, alignment).after_cache_deallocate(
            a.allocated(size, alignment).unwrap(),
        ).allocated(size, alignment) is Ok,
    ensures
        a.after_allocate(size, alignment).after_cache_deallocate(
            a.allocated(size, alignment).unwrap(),
        ).allocated(size, alignment).unwrap().generation == a.allocated(
            size,
            alignment,
        ).unwrap().generation,
{
    let first = a.allocated(size, alignment).unwrap();
    let s1 = a.after_allocate(size, alignment);
    let s2 = s1.after_cache_deallocate(first);
    let rounded = next_pow2(size as nat);
    lemma_class_index(size);
    lemma_next_pow2(size as nat);
    assert(a.hit_class(size) is None);
    if a.pool.refusal(size) is Some {
        lemma_retry_is_refused(a, size, alignment);
    }
    lemma_pool_index(a.pool, size);
    a.pool.lemma_allocated_block(size, a.generation);
    a.pool.lemma_after_allocate(size);
    lemma_allocate_keeps_wf(a, size, alignment);
    assert(first.bytes.len() == rounded);
    assert(first.size() == rounded);
    let stored = s1.stored(first);
    assert(stored.bytes.len() == rounded);
    assert(stored.generation == first.generation);
    lemma_deallocate_keeps_wf(s1, first);
    match class_index(size) {
        Some(j) => {
            let class = s2.classes[j];
            assert(s1.classes[j] == a.classes[j]);
            assert(class == s1.classes[j].after_return(stored));
            assert(class.hot.len() + class.cold.len() == 1);
            lemma_taken_is_head(class);
            assert(s2.hit_class(size) == Some(j));
            if class.hot.len() > 0 {
                assert(class.hot[0] == stored);
            } else {
                assert(class.cold[0] == stored);
            }
        },
        None => {
            let i = pool_index(a.pool.config, size).unwrap();
            let k = choose|k: nat| rounded as int == #[trigger] pow2(k);
            lemma_next_pow2_of_pow2(k);
            assert(pool_index(s1.pool.config, stored.size()) == Some(i));
            assert(s2.pool.pools[i].free =~= seq![stored.released()]);
            assert(s2.hit_class(size) is None);
            if s2.pool.refusal(size) is Some {
                lemma_retry_is_refused(s2, size, alignment);
            }
            assert(s2.pool.reuses(size));
        },
    }
}

/// One operation on the allocator.
pub enum Operation {
    /// A request of `size` bytes with `alignment`.
    Allocate { size: usize, alignment: usize },
    /// The return of `block`.
    Deallocate { block: BlockView },
}

impl AllocatorView {
    /// The allocator can carry the operation out: a block that comes back is one
    /// that it can take.
    pub open spec fn admits(self, op: Operation) -> bool {
        match op {
            Operation::Allocate { size, alignment } => true,
            Operation::Deallocate { block } => block.bytes.len() <= usize::MAX && self.takes_back(
                block,
            ),
        }
    }

    /// The operation is admitted, and a block that comes back is one whose bytes
    /// the counters hold.
    pub open spec fn admits_counted(self, op: Operation) -> bool {
        &&& self.admits(op)
        &&& op matches Operation::Deallocate { block } ==> self.stats.current >= block.bytes.len()
    }

    /// The allocator after the operation.
    pub open spec fn after(self, op: Operation) -> AllocatorView {
        match op {
            Operation::Allocate { size, alignment } => self.after_allocate(size, alignment),
            Operation::Deallocate { block } => self.after_cache_deallocate(block),
        }
    }

    /// The allocator after the operations, one after the other.
    pub open spec fn after_all(self, ops: Seq<Operation>) -> AllocatorView
        decreases ops.len(),
    {
        if ops.len() == 0 {
            self
        } else {
            self.after_all(ops.drop_last()).after(ops.last())
        }
    }

    /// Each of the operations is admitted when its turn comes.
    pub open spec fn admits_all(self, ops: Seq<Operation>) -> bool
        decreases ops.len(),
    {
        ops.len() > 0 ==> self.admits_all(ops.drop_last()) && self.after_all(
            ops.drop_last(),
        ).admits(ops.last())
    }

    /// Each of the operations is admitted when its turn comes, and each block
    /// that comes back is one whose bytes the counters hold.
    pub open spec fn admits_all_counted(self, ops: Seq<Operation>) -> bool
        decreases ops.len(),
    {
        ops.len() > 0 ==> self.admits_all_counted(ops.drop_last()) && self.after_all(
            ops.drop_last(),
        ).admits_counted(ops.last())
    }
}

/// Whatever operations are carried out, in whatever order: the allocator stays
/// well formed, so no block that waits in a queue is in use; and with scrubbing
/// switched on, a scrubbed allocator stays scrubbed.
pub proof fn lemma_always_well_formed(a: AllocatorView, ops: Seq<Operation>)
    requires
        a.wf(),
        a.admits_all(ops),
    ensures
        a.after_all(ops).wf(),
        a.after_all(ops).pool.config == a.pool.config,
        a.after_all(ops).zeroing == a.zeroing,
        a.zeroing && a.scrubbed() ==> a.after_all(ops).scrubbed(),
    decreases ops.len(),
{
    if ops.len() > 0 {
        let before = a.after_all(ops.drop_last());
        lemma_always_well_formed(a, ops.drop_last());
        match ops.last() {
            Operation::Allocate { size, alignment } => {
                lemma_allocate_keeps_wf(before, size, alignment);
                if before.scrubbed() {
                    lemma_allocate_scrubbed(before, size, alignment);
                }
            },
            Operation::Deallocate { block } => {
                lemma_deallocate_keeps_wf(before, block);
            },
        }
    }
}

/// Whatever operations are carried out, in whatever order, as long as each block
/// that comes back is one whose bytes the counters hold: the bytes held are never
/// above three quarters of the budget.
pub proof fn lemma_always_within_budget(a: AllocatorView, ops: Seq<Operation>)
    requires
        a.wf(),
        a.within_budget(),
        a.admits_all_counted(ops),
    ensures
        a.admits_all(ops),
        a.after_all(ops).wf(),
        a.after_all(ops).within_budget(),
        a.after_all(ops).stats.current <= (a.pool.config.max_memory * 3) / 4,
    decreases ops.len(),
{
    if ops.len() > 0 {
        let before = a.after_all(ops.drop_last());
        lemma_always_within_budget(a, ops.drop_last());
        lemma_always_well_formed(a, ops.drop_last());
        match ops.last() {
            Operation::Allocate { size, alignment } => {
                lemma_allocate_keeps_wf(before, size, alignment);
                lemma_allocate_within_budget(before, size, alignment);
            },
            Operation::Deallocate { block } => {
                lemma_deallocate_keeps_wf(before, block);
                lemma_deallocate_within_budget(before, block);
            },
        }
    }
}

} // verus!
