//! The allocator of asset indices.

use vstd::prelude::*;
use crate::primitives::AssetIndex;

verus! {

/// The index space is used up: the counter stands at the largest index.
#[derive(Clone, Copy, Debug, PartialEq, Eq)]
pub struct OverflowError;

/// Hands out asset indices in increasing order, starting at zero.
///
/// The largest representable index is never issued: a counter that has
/// reached it reports exhaustion instead of wrapping.
pub struct IndexAllocator {
    next: AssetIndex,
}

impl View for IndexAllocator {
    type V = nat;

    /// The next index that will be issued.
    closed spec fn view(&self) -> nat {
        self.next as nat
    }
}

impl IndexAllocator {
    /// Whether the counter has reached the largest index, so that nothing
    /// more can be issued.
    pub open spec fn exhausted(&self) -> bool {
        self@ == AssetIndex::MAX
    }

    /// The counter never passes the largest index.
    pub proof fn lemma_bounded(&self)
        ensures
            self@ <= AssetIndex::MAX,
    {
    }

    /// An allocator that has issued nothing yet.
    pub fn new() -> (allocator: Self)
        ensures
            allocator@ == 0,
    {
        IndexAllocator { next: 0 }
    }

    /// An allocator whose counter stands at `next`, for a registry that is
    /// taken up again where an earlier one left off.
    pub fn starting_at(next: AssetIndex) -> (allocator: Self)
        ensures
            allocator@ == next,
    {
        IndexAllocator { next }
    }

    /// The counter's value, which is the index that the next successful
    /// `allocate` returns. Every index below it may have been issued, none at
    /// or above it has.
    pub fn next_index(&self) -> (index: AssetIndex)
        ensures
            index == self@,
    {
        self.next
    }

    /// Issues the counter's value and advances the counter by one, or fails,
    /// leaving the counter as it is, when the counter stands at the largest
    /// index.
    pub fn allocate(&mut self) -> (issued: Result<AssetIndex, OverflowError>)
        ensures
            match issued {
                Ok(index) => {
                    &&& !old(self).exhausted()
                    &&& index == old(self)@
                    &&& final(self)@ == old(self)@ + 1
                },
                Err(_) => {
                    &&& old(self).exhausted()
                    &&& final(self)@ == old(self)@
                },
            },
    {
        if self.next == AssetIndex::MAX {
            Err(OverflowError)
        } else {
            let index: AssetIndex = self.next;
            self.next = index + 1;
            Ok(index)
        }
    }
}

} // verus!
