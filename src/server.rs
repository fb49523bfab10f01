pub mod dispatch;
pub mod pane;
pub mod peer;
pub mod session;
pub mod state;
pub mod window;

use vstd::prelude::*;

verus! {

/// Issues identifiers of one kind: 1, 2, 3, ... in turn.
pub struct IdAllocator {
    next: u64,
}

/// One call of `allocate`: `id` is the number issued, `before` and `after` the
/// allocator around the call.
pub open spec fn allocation_step(before: IdAllocator, id: u64, after: IdAllocator) -> bool {
    &&& id == before.last() + 1
    &&& after.last() == id
}

impl IdAllocator {
    /// The number issued last, zero before the first.
    pub closed spec fn last(&self) -> u64 {
        self.next
    }

    pub fn new() -> (r: Self)
        ensures
            r.last() == 0,
    {
        IdAllocator { next: 0 }
    }

    /// Whether another number can be issued.
    pub fn can_allocate(&self) -> (r: bool)
        ensures
            r == (self.last() < u64::MAX),
    {
        self.next < u64::MAX
    }

    /// Moves the allocator past `n`, so that it never issues `n` or a smaller
    /// number again.
    pub fn advance_to(&mut self, n: u64)
        ensures
            final(self).last() == (if n > old(self).last() {
                n
            } else {
                old(self).last()
            }),
    {
        if n > self.next {
            self.next = n;
        }
    }

    /// Issues the next number: one more than the last, so never zero.
    pub fn allocate(&mut self) -> (r: u64)
        requires
            old(self).last() < u64::MAX,
        ensures
            allocation_step(*old(self), r, *final(self)),
            r >= 1,
    {
        self.next = self.next + 1;
        self.next
    }
}

impl Default for IdAllocator {
    fn default() -> (r: Self)
        ensures
            r.last() == 0,
    {
        IdAllocator::new()
    }
}

proof fn lemma_offsets(states: Seq<IdAllocator>, ids: Seq<u64>, k: int)
    requires
        states.len() == ids.len() + 1,
        forall|i: int| 0 <= i < ids.len() ==> allocation_step(#[trigger] states[i], ids[i], states[i + 1]),
        0 <= k < ids.len(),
    ensures
        ids[k] == ids[0] + k,
    decreases k,
{
    if k > 0 {
        lemma_offsets(states, ids, k - 1);
        assert(allocation_step(states[k - 1], ids[k - 1], states[k]));
        assert(allocation_step(states[k], ids[k], states[k + 1]));
    }
}

/// Successive allocations from one allocator issue numbers that are each at
/// least 1 and strictly increasing, hence pairwise distinct.
pub proof fn lemma_allocations_increase(states: Seq<IdAllocator>, ids: Seq<u64>)
    requires
        states.len() == ids.len() + 1,
        forall|i: int| 0 <= i < ids.len() ==> allocation_step(#[trigger] states[i], ids[i], states[i + 1]),
    ensures
        forall|i: int| 0 <= i < ids.len() ==> ids[i] >= 1,
        forall|i: int, j: int| 0 <= i < j < ids.len() ==> ids[i] < ids[j],
{
    assert forall|i: int| 0 <= i < ids.len() implies ids[i] >= 1 by {
        assert(allocation_step(states[i], ids[i], states[i + 1]));
    }
    assert forall|i: int, j: int| 0 <= i < j < ids.len() implies ids[i] < ids[j] by {
        lemma_offsets(states, ids, i);
        lemma_offsets(states, ids, j);
    }
}

} // verus!
