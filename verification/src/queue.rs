//! The lock-free queue that the free lists and the cache classes are built on.
//!
//! The queue itself is `crossbeam::queue::SegQueue`. Of `queue_new`, `queue_push`
//! and `queue_pop` nothing is proved: each contract states what the queue's
//! source shows. `BlockQueue` is verified against these contracts.

use crate::block::{views, Block, BlockOps, BlockView};
use crossbeam::queue::SegQueue;
use vstd::prelude::*;

verus! {

#[verifier::external_type_specification]
#[verifier::external_body]
#[verifier::reject_recursive_types(T)]
pub struct ExSegQueue<T>(crossbeam::queue::SegQueue<T>);

/// The blocks that a queue holds, the oldest first.
pub uninterp spec fn queued(q: SegQueue<Block>) -> Seq<Block>;

/// `SegQueue::new`: a queue that holds nothing.
#[verifier::external_body]
fn queue_new() -> (q: SegQueue<Block>)
    ensures
        queued(q) == Seq::<Block>::empty(),
{
    SegQueue::new()
}

/// `SegQueue::push`: the block goes to the tail, behind all that the queue held.
#[verifier::external_body]
fn queue_push(q: &mut SegQueue<Block>, block: Block)
    ensures
        queued(*final(q)) == queued(*old(q)).push(block),
{
    q.push(block)
}

/// `SegQueue::pop`: the block at the head leaves the queue and is returned;
/// `None`, and no change, where the queue holds nothing.
#[verifier::external_body]
fn queue_pop(q: &mut SegQueue<Block>) -> (r: Option<Block>)
    ensures
        queued(*old(q)).len() == 0 ==> r is None && queued(*final(q)) == queued(*old(q)),
        queued(*old(q)).len() > 0 ==> r == Some(queued(*old(q))[0]) && queued(*final(q))
            == queued(*old(q)).drop_first(),
{
    q.pop()
}

/// A queue of blocks: first in, first out.
pub struct BlockQueue {
    blocks: SegQueue<Block>,
}

impl View for BlockQueue {
    type V = Seq<BlockView>;

    /// What the blocks in the queue are, the oldest first.
    closed spec fn view(&self) -> Seq<BlockView> {
        views(queued(self.blocks))
    }
}

impl BlockQueue {
    /// Every block in the queue is well formed.
    pub closed spec fn wf(&self) -> bool {
        forall|j: int|
            0 <= j < queued(self.blocks).len() ==> (#[trigger] queued(self.blocks)[j]).wf()
    }

    /// A queue that holds nothing.
    pub fn new() -> (q: Self)
        ensures
            q.wf(),
            q@ == Seq::<BlockView>::empty(),
    {
        let q = BlockQueue { blocks: queue_new() };
        assert(q@ =~= Seq::<BlockView>::empty());
        q
    }

    /// Puts the block at the tail.
    pub fn push(&mut self, block: Block)
        requires
            old(self).wf(),
            block.wf(),
        ensures
            final(self).wf(),
            final(self)@ == old(self)@.push(block@),
    {
        queue_push(&mut self.blocks, block);
        proof {
            let before = queued(old(self).blocks);
            let after = queued(self.blocks);
            assert forall|j: int| 0 <= j < after.len() implies (#[trigger] after[j]).wf() by {
                if j < before.len() {
                    assert(after[j] == before[j]);
                }
            }
            assert(views(after) =~= views(before).push(block@));
        }
    }

    /// Takes the block at the head out of the queue; `None` where the queue holds
    /// nothing.
    pub fn pop(&mut self) -> (r: Option<Block>)
        requires
            old(self).wf(),
        ensures
            final(self).wf(),
            old(self)@.len() == 0 ==> r is None && final(self)@ == old(self)@,
            old(self)@.len() > 0 ==> r is Some && r->Some_0.wf() && r->Some_0@ == old(self)@[0]
                && final(self)@ == old(self)@.drop_first(),
    {
        let r = queue_pop(&mut self.blocks);
        proof {
            let before = queued(old(self).blocks);
            let after = queued(self.blocks);
            if before.len() > 0 {
                assert(before[0].wf());
                assert(views(before)[0] == before[0]@);
                assert forall|j: int| 0 <= j < after.len() implies (#[trigger] after[j]).wf() by {
                    assert(after[j] == before[j + 1]);
                }
                assert(views(after) =~= views(before).drop_first());
            }
        }
        r
    }
}

} // verus!
