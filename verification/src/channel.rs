//! The two index queues of a connection.
//!
//! Both queues are the lock-free single-producer single-consumer queues of
//! `iceoryx2_bb_lock_free`. Their code is not verified here; what this module
//! states about them is taken from their source and is listed, function by
//! function, in the comments below. Everything else in the library reasons
//! about a channel only through the sequence of words that it holds.

use vstd::prelude::*;
use iceoryx2_bb_lock_free::spsc::index_queue::IndexQueue;
use iceoryx2_bb_lock_free::spsc::safely_overflowing_index_queue::SafelyOverflowingIndexQueue;

verus! {

/// Largest capacity a channel can be created with. The queues allocate eight
/// bytes per entry in one piece, whose size has to stay below `isize::MAX`.
/// The limit is chosen so that it does on every machine, also where
/// `usize` has 32 bits; a machine with more room could take more.
pub const MAX_CHANNEL_CAPACITY: usize = 0x03ff_ffff;

/// A bounded FIFO of words that rejects a push when it is full. Holds an
/// `iceoryx2_bb_lock_free::spsc::index_queue::IndexQueue`.
#[verifier::external_body]
pub struct CompletionChannel {
    queue: IndexQueue,
}

/// The words that the queue holds, oldest first.
pub uninterp spec fn completion_contents(channel: CompletionChannel) -> Seq<u64>;

/// The capacity that the queue was created with.
pub uninterp spec fn completion_capacity(channel: CompletionChannel) -> nat;

impl CompletionChannel {
    pub open spec fn view(&self) -> Seq<u64> {
        completion_contents(*self)
    }

    pub open spec fn spec_capacity(&self) -> nat {
        completion_capacity(*self)
    }

    /// `IndexQueue::new`: allocates room for `capacity` words and starts
    /// with read and write position both at zero, that is, empty.
    #[verifier::external_body]
    pub(crate) fn new(capacity: usize) -> (channel: CompletionChannel)
        requires
            capacity <= MAX_CHANNEL_CAPACITY,
        ensures
            completion_contents(channel) == Seq::<u64>::empty(),
            completion_capacity(channel) == capacity,
    {
        CompletionChannel { queue: IndexQueue::new(capacity) }
    }

    /// `Producer::push` after `IndexQueue::acquire_producer`: when the write
    /// position is a full capacity ahead of the read position nothing
    /// happens and `false` comes back; otherwise the word is stored behind
    /// the newest one. The producer is always free here, since the exclusive
    /// borrow rules out a second one.
    #[verifier::external_body]
    pub(crate) fn push(&mut self, value: u64) -> (pushed: bool)
        ensures
            completion_capacity(*final(self)) == completion_capacity(*old(self)),
            pushed == (completion_contents(*old(self)).len() < completion_capacity(*old(self))),
            pushed ==> completion_contents(*final(self)) == completion_contents(*old(self)).push(value),
            !pushed ==> completion_contents(*final(self)) == completion_contents(*old(self)),
    {
        self.queue.acquire_producer().unwrap().push(value)
    }

    /// `Consumer::pop` after `IndexQueue::acquire_consumer`: hands out the
    /// oldest word and advances the read position, or returns `None` when
    /// both positions are equal.
    #[verifier::external_body]
    pub(crate) fn pop(&mut self) -> (popped: Option<u64>)
        ensures
            completion_capacity(*final(self)) == completion_capacity(*old(self)),
            popped.is_some() == (completion_contents(*old(self)).len() > 0),
            popped.is_some() ==> popped == Some(completion_contents(*old(self))[0]) && completion_contents(*final(self)) == completion_contents(*old(self)).skip(1),
            popped.is_none() ==> completion_contents(*final(self)) == completion_contents(*old(self)),
    {
        self.queue.acquire_consumer().unwrap().pop()
    }

    /// `IndexQueue::len`: write position minus read position. A push goes
    /// through only while that difference is below the capacity, so it
    /// never exceeds the capacity.
    #[verifier::external_body]
    pub(crate) fn len(&self) -> (len: usize)
        ensures
            len == completion_contents(*self).len(),
            len <= completion_capacity(*self),
    {
        self.queue.len()
    }

    /// `IndexQueue::capacity`: the capacity given at creation.
    #[verifier::external_body]
    pub(crate) fn capacity(&self) -> (capacity: usize)
        ensures
            capacity == completion_capacity(*self),
    {
        self.queue.capacity()
    }
}

/// A bounded FIFO of words that makes room for a push by handing back its
/// oldest word. Holds an
/// `iceoryx2_bb_lock_free::spsc::safely_overflowing_index_queue::SafelyOverflowingIndexQueue`.
#[verifier::external_body]
pub struct SubmissionChannel {
    queue: SafelyOverflowingIndexQueue,
}

/// The words that the queue holds, oldest first.
pub uninterp spec fn submission_contents(channel: SubmissionChannel) -> Seq<u64>;

/// The capacity that the queue was created with.
pub uninterp spec fn submission_capacity(channel: SubmissionChannel) -> nat;

impl SubmissionChannel {
    pub open spec fn view(&self) -> Seq<u64> {
        submission_contents(*self)
    }

    pub open spec fn spec_capacity(&self) -> nat {
        submission_capacity(*self)
    }

    /// What a push leaves in a queue of the given capacity.
    pub open spec fn spec_after_push(contents: Seq<u64>, capacity: nat, value: u64) -> Seq<u64> {
        if contents.len() >= capacity {
            contents.push(value).skip(1)
        } else {
            contents.push(value)
        }
    }

    /// What a push hands back from a queue of the given capacity.
    pub open spec fn spec_evicted(contents: Seq<u64>, capacity: nat, value: u64) -> Option<u64> {
        if contents.len() >= capacity {
            Some(contents.push(value)[0])
        } else {
            None
        }
    }

    /// `SafelyOverflowingIndexQueue::new`: allocates room for
    /// `capacity + 1` words and starts empty.
    #[verifier::external_body]
    pub(crate) fn new(capacity: usize) -> (channel: SubmissionChannel)
        requires
            capacity <= MAX_CHANNEL_CAPACITY,
        ensures
            submission_contents(channel) == Seq::<u64>::empty(),
            submission_capacity(channel) == capacity,
    {
        SubmissionChannel { queue: SafelyOverflowingIndexQueue::new(capacity) }
    }

    /// `Producer::push` after
    /// `SafelyOverflowingIndexQueue::acquire_producer`: the word is always
    /// stored behind the newest one. When the queue was full before, the
    /// read position advances by one and the word it pointed at comes back.
    #[verifier::external_body]
    pub(crate) fn push(&mut self, value: u64) -> (evicted: Option<u64>)
        ensures
            submission_capacity(*final(self)) == submission_capacity(*old(self)),
            evicted == Self::spec_evicted(submission_contents(*old(self)), submission_capacity(*old(self)), value),
            submission_contents(*final(self)) == Self::spec_after_push(submission_contents(*old(self)), submission_capacity(*old(self)), value),
    {
        self.queue.acquire_producer().unwrap().push(value)
    }

    /// `Consumer::pop` after
    /// `SafelyOverflowingIndexQueue::acquire_consumer`: hands out the oldest
    /// word, or `None` when the queue is empty.
    #[verifier::external_body]
    pub(crate) fn pop(&mut self) -> (popped: Option<u64>)
        ensures
            submission_capacity(*final(self)) == submission_capacity(*old(self)),
            popped.is_some() == (submission_contents(*old(self)).len() > 0),
            popped.is_some() ==> popped == Some(submission_contents(*old(self))[0]) && submission_contents(*final(self)) == submission_contents(*old(self)).skip(1),
            popped.is_none() ==> submission_contents(*final(self)) == submission_contents(*old(self)),
    {
        self.queue.acquire_consumer().unwrap().pop()
    }

    /// `SafelyOverflowingIndexQueue::is_full`: the write position is a full
    /// capacity ahead of the read position.
    #[verifier::external_body]
    pub(crate) fn is_full(&self) -> (full: bool)
        ensures
            full == (submission_contents(*self).len() == submission_capacity(*self)),
    {
        self.queue.is_full()
    }

    /// `SafelyOverflowingIndexQueue::is_empty`: both positions are equal.
    #[verifier::external_body]
    pub(crate) fn is_empty(&self) -> (empty: bool)
        ensures
            empty == (submission_contents(*self).len() == 0),
    {
        self.queue.is_empty()
    }

    /// `SafelyOverflowingIndexQueue::len`: write position minus read
    /// position. A push into a full queue advances the read position as
    /// well, so the difference never exceeds the capacity.
    #[verifier::external_body]
    pub(crate) fn len(&self) -> (len: usize)
        ensures
            len == submission_contents(*self).len(),
            len <= submission_capacity(*self),
    {
        self.queue.len()
    }

    /// `SafelyOverflowingIndexQueue::capacity`: the capacity given at
    /// creation.
    #[verifier::external_body]
    pub(crate) fn capacity(&self) -> (capacity: usize)
        ensures
            capacity == submission_capacity(*self),
    {
        self.queue.capacity()
    }
}

} // verus!
