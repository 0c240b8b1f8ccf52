//! The most recent samples of a publisher, kept for subscribers that join
//! late.
//!
//! The ring is the `Queue` of `iceoryx2_bb_container`. Its code is not
//! verified here; what this module states about it is taken from its
//! source and is listed, function by function, in the comments below.

use vstd::prelude::*;
use iceoryx2_bb_container::queue::Queue;

verus! {

/// Largest number of samples a history can be created for. The queue
/// allocates its entries in one piece, whose size has to stay below
/// `isize::MAX`. The limit is chosen so that it does on every machine,
/// also where `usize` has 32 bits; a machine with more room could take
/// more.
pub const MAX_HISTORY_SIZE: usize = 0x03ff_ffff;

/// A sample in the history: the word of its address and its size.
#[derive(Debug, Clone, Copy, PartialEq, Eq, Structural)]
pub struct OffsetAndSize {
    pub offset: u64,
    pub size: usize,
}

/// A bounded FIFO of samples that makes room for a new one by giving up
/// its oldest. Holds an `iceoryx2_bb_container::queue::Queue`.
#[verifier::external_body]
pub struct History {
    queue: Queue<OffsetAndSize>,
}

/// The samples that the queue holds, oldest first.
pub uninterp spec fn history_contents(history: History) -> Seq<OffsetAndSize>;

/// The capacity that the queue was created with.
pub uninterp spec fn history_capacity(history: History) -> nat;

impl History {
    pub open spec fn view(&self) -> Seq<OffsetAndSize> {
        history_contents(*self)
    }

    pub open spec fn spec_capacity(&self) -> nat {
        history_capacity(*self)
    }

    /// What a push leaves in a queue of the given capacity.
    pub open spec fn spec_after_push(contents: Seq<OffsetAndSize>, capacity: nat, value: OffsetAndSize) -> Seq<
        OffsetAndSize,
    > {
        if contents.len() == capacity {
            contents.skip(1).push(value)
        } else {
            contents.push(value)
        }
    }

    /// What a push hands back from a queue of the given capacity.
    pub open spec fn spec_evicted(contents: Seq<OffsetAndSize>, capacity: nat) -> Option<OffsetAndSize> {
        if contents.len() == capacity {
            Some(contents[0])
        } else {
            None
        }
    }

    /// `Queue::new`: allocates room for `capacity` entries and starts
    /// with length zero.
    #[verifier::external_body]
    pub(crate) fn new(capacity: usize) -> (history: History)
        requires
            capacity <= MAX_HISTORY_SIZE,
        ensures
            history_contents(history) == Seq::<OffsetAndSize>::empty(),
            history_capacity(history) == capacity,
    {
        History { queue: Queue::new(capacity) }
    }

    /// `Queue::push_with_overflow`: when the length equals the capacity
    /// the oldest entry is taken out first and comes back; the new entry
    /// then goes behind the newest one. The queue computes positions
    /// modulo its capacity, so the capacity must not be zero.
    #[verifier::external_body]
    pub(crate) fn push_with_overflow(&mut self, value: OffsetAndSize) -> (evicted: Option<OffsetAndSize>)
        requires
            history_capacity(*old(self)) > 0,
        ensures
            history_capacity(*final(self)) == history_capacity(*old(self)),
            evicted == Self::spec_evicted(history_contents(*old(self)), history_capacity(*old(self))),
            history_contents(*final(self)) == Self::spec_after_push(
                history_contents(*old(self)),
                history_capacity(*old(self)),
                value,
            ),
    {
        self.queue.push_with_overflow(value)
    }

    /// `Queue::len`: the number of entries, which never exceeds the
    /// capacity.
    #[verifier::external_body]
    pub(crate) fn len(&self) -> (len: usize)
        ensures
            len == history_contents(*self).len(),
            len <= history_capacity(*self),
    {
        self.queue.len()
    }

    /// `Queue::capacity`: the capacity given at creation.
    #[verifier::external_body]
    pub(crate) fn capacity(&self) -> (capacity: usize)
        ensures
            capacity == history_capacity(*self),
    {
        self.queue.capacity()
    }

    /// `Queue::get`: a copy of the entry at `index`, counted from the
    /// oldest. The queue ends the process on an index at or beyond its
    /// length.
    #[verifier::external_body]
    pub(crate) fn get(&self, index: usize) -> (entry: OffsetAndSize)
        requires
            index < history_contents(*self).len(),
        ensures
            entry == history_contents(*self)[index as int],
    {
        self.queue.get(index)
    }
}

} // verus!
