//! The connection between one sender and one receiver.
//!
//! A connection is a management block that both ports work on: a submission
//! channel that carries bucket addresses from the sender to the receiver, a
//! completion channel that carries them back, one used-chunk list per
//! segment that records which buckets are in flight, and a state byte that
//! records which ports are attached. The ports themselves are handles; every
//! operation takes the block it works on by exclusive reference.

use vstd::prelude::*;
use vstd::multiset::Multiset;
use crate::channel::{CompletionChannel, MAX_CHANNEL_CAPACITY, SubmissionChannel};
use crate::dynamic_storage::{DynamicStorageCreateError, DynamicStorageOpenError, DynamicStorageOpenOrCreateError};
use crate::pointer_offset::{spec_offset_of, spec_segment_of, MAX_OFFSET, PointerOffset};
use crate::used_chunk_list::UsedChunkList;
use core::time::Duration;
use iceoryx2_bb_system_types::file_name::FileName;

verus! {

pub const DEFAULT_BUFFER_SIZE: usize = 4;

pub const DEFAULT_ENABLE_SAFE_OVERFLOW: bool = false;

pub const DEFAULT_MAX_BORROWED_SAMPLES: usize = 4;

pub const DEFAULT_MAX_SUPPORTED_SHARED_MEMORY_SEGMENTS: u8 = 1;

/// State byte with no port attached.
pub const STATE_NONE: u8 = 0x00;

/// Bit of the state byte that the sender holds.
pub const STATE_SENDER: u8 = 0x01;

/// Bit of the state byte that the receiver holds.
pub const STATE_RECEIVER: u8 = 0x02;

/// State byte of a connection that both ports have left. It is terminal.
pub const STATE_MARKED_FOR_DESTRUCTION: u8 = 0x80;

/// A file name of `iceoryx2_bb_system_types`, carried through unread.
#[verifier::external_type_specification]
#[verifier::external_body]
pub struct ExFileName(FileName);

#[derive(Debug, Clone, Copy, PartialEq, Eq, Structural, Hash)]
pub enum ZeroCopyPortRemoveError {
    InternalError,
    VersionMismatch,
    InsufficientPermissions,
    DoesNotExist,
}

#[derive(Debug, Clone, Copy, PartialEq, Eq, Structural, Hash)]
pub enum ZeroCopyCreationError {
    InternalError,
    AnotherInstanceIsAlreadyConnected,
    InsufficientPermissions,
    VersionMismatch,
    ConnectionMaybeCorrupted,
    InvalidSampleSize,
    InitializationNotYetFinalized,
    IncompatibleBufferSize,
    IncompatibleMaxBorrowedSampleSetting,
    IncompatibleOverflowSetting,
    IncompatibleNumberOfSamples,
    IncompatibleNumberOfSegments,
}

#[derive(Debug, Clone, Copy, PartialEq, Eq, Structural)]
pub enum ZeroCopySendError {
    ConnectionCorrupted,
    ReceiveBufferFull,
    UsedChunkListFull,
}

#[derive(Debug, Clone, Copy, PartialEq, Eq, Structural)]
pub enum ZeroCopyReceiveError {
    ReceiveWouldExceedMaxBorrowValue,
}

#[derive(Debug, Clone, Copy, PartialEq, Eq, Structural)]
pub enum ZeroCopyReclaimError {
    ReceiverReturnedCorruptedPointerOffset,
}

#[derive(Debug, Clone, Copy, PartialEq, Eq, Structural)]
pub enum ZeroCopyReleaseError {
    RetrieveBufferFull,
}

/// The values the state byte is built from.
#[derive(Debug, Clone, Copy, PartialEq, Eq, Structural)]
pub enum State {
    Unattached,
    Sender,
    Receiver,
    MarkedForDestruction,
}

impl State {
    pub open spec fn spec_value(&self) -> u8 {
        match self {
            State::Unattached => STATE_NONE,
            State::Sender => STATE_SENDER,
            State::Receiver => STATE_RECEIVER,
            State::MarkedForDestruction => STATE_MARKED_FOR_DESTRUCTION,
        }
    }

    pub fn value(&self) -> (value: u8)
        ensures
            value == self.spec_value(),
    {
        match self {
            State::Unattached => STATE_NONE,
            State::Sender => STATE_SENDER,
            State::Receiver => STATE_RECEIVER,
            State::MarkedForDestruction => STATE_MARKED_FOR_DESTRUCTION,
        }
    }
}

/// The state byte after the port that holds `bit` has let go of it: the last
/// port to leave marks the connection for destruction, and a marked
/// connection stays as it is.
pub open spec fn spec_state_after_release(current: u8, bit: u8) -> u8 {
    if current == STATE_MARKED_FOR_DESTRUCTION {
        current
    } else if current == bit {
        STATE_MARKED_FOR_DESTRUCTION
    } else {
        current & !bit
    }
}

/// Whether letting go of `bit` makes the leaving port the owner of the
/// backing storage.
pub open spec fn spec_release_takes_ownership(current: u8, bit: u8) -> bool {
    current != STATE_MARKED_FOR_DESTRUCTION && spec_state_after_release(current, bit)
        == STATE_MARKED_FOR_DESTRUCTION
}

/// The outcome of attaching the port that holds `bit`: the new state byte,
/// or the reason why the port cannot attach.
pub open spec fn spec_reserve_port(current: u8, bit: u8) -> Result<u8, ZeroCopyCreationError> {
    if current & bit != 0 {
        Err(ZeroCopyCreationError::AnotherInstanceIsAlreadyConnected)
    } else if current & STATE_MARKED_FOR_DESTRUCTION != 0 {
        Err(ZeroCopyCreationError::InternalError)
    } else {
        Ok(current | bit)
    }
}

/// One step of letting go of a port: from the state byte that was observed
/// to the one that has to be written in its place.
pub fn state_after_release(current: u8, state_to_remove: State) -> (new_state: u8)
    ensures
        new_state == spec_state_after_release(current, state_to_remove.spec_value()),
{
    let bit = state_to_remove.value();
    if current == STATE_MARKED_FOR_DESTRUCTION {
        current
    } else if current == bit {
        STATE_MARKED_FOR_DESTRUCTION
    } else {
        current & !bit
    }
}

/// One step of attaching a port: from the state byte that was observed to
/// the one that has to be written in its place, or the reason to give up.
pub fn reserve_port_step(current: u8, new_state: u8) -> (outcome: Result<u8, ZeroCopyCreationError>)
    ensures
        outcome == spec_reserve_port(current, new_state),
{
    if current & new_state != 0 {
        Err(ZeroCopyCreationError::AnotherInstanceIsAlreadyConnected)
    } else if current & STATE_MARKED_FOR_DESTRUCTION != 0 {
        Err(ZeroCopyCreationError::InternalError)
    } else {
        Ok(current | new_state)
    }
}

/// What a connection keeps for one segment.
pub struct SegmentDetails {
    used_chunk_list: UsedChunkList,
    sample_size: usize,
}

impl SegmentDetails {
    pub closed spec fn spec_used(&self) -> Set<int> {
        self.used_chunk_list@
    }

    pub closed spec fn spec_sample_size(&self) -> nat {
        self.sample_size as nat
    }

    pub closed spec fn spec_capacity(&self) -> nat {
        self.used_chunk_list.spec_capacity()
    }

    pub fn new(number_of_samples: usize) -> (details: SegmentDetails)
        ensures
            details.spec_used() == Set::<int>::empty(),
            details.spec_sample_size() == 0,
            details.spec_capacity() == number_of_samples,
    {
        SegmentDetails { used_chunk_list: UsedChunkList::new(number_of_samples), sample_size: 0 }
    }
}

/// The mathematical content of a management block.
#[verifier::ext_equal]
pub struct ConnectionView {
    /// Words in the submission channel, oldest first.
    pub submission: Seq<u64>,
    /// Words in the completion channel, oldest first.
    pub completion: Seq<u64>,
    /// Words that the receiver has taken off the submission channel and
    /// not yet put onto the completion channel.
    pub borrowed: Multiset<u64>,
    /// Per segment, the bucket indices that are in flight.
    pub used: Seq<Set<int>>,
    /// Per segment, the bucket size, or zero before the first send.
    pub sample_sizes: Seq<nat>,
    pub state: u8,
    pub buffer_size: nat,
    pub completion_capacity: nat,
    pub max_borrowed_samples: nat,
    pub number_of_samples_per_segment: nat,
    pub number_of_segments: u8,
    pub enable_safe_overflow: bool,
}

/// The management block of a connection.
pub struct SharedManagementData {
    submission_channel: SubmissionChannel,
    completion_channel: CompletionChannel,
    segment_details: Vec<SegmentDetails>,
    max_borrowed_samples: usize,
    number_of_samples_per_segment: usize,
    number_of_segments: u8,
    state: u8,
    enable_safe_overflow: bool,
    borrowed: Ghost<Multiset<u64>>,
}

impl SharedManagementData {
    pub closed spec fn view(&self) -> ConnectionView {
        ConnectionView {
            submission: self.submission_channel@,
            completion: self.completion_channel@,
            borrowed: self.borrowed@,
            used: Seq::new(self.segment_details.len() as nat, |s: int| self.segment_details[s].spec_used()),
            sample_sizes: Seq::new(
                self.segment_details.len() as nat,
                |s: int| self.segment_details[s].spec_sample_size(),
            ),
            state: self.state,
            buffer_size: self.submission_channel.spec_capacity(),
            completion_capacity: self.completion_channel.spec_capacity(),
            max_borrowed_samples: self.max_borrowed_samples as nat,
            number_of_samples_per_segment: self.number_of_samples_per_segment as nat,
            number_of_segments: self.number_of_segments,
            enable_safe_overflow: self.enable_safe_overflow,
        }
    }

    /// The block is laid out as its configuration says.
    pub closed spec fn wf(&self) -> bool {
        &&& self.segment_details.len() == self.number_of_segments
        &&& forall|s: int|
            0 <= s < self.segment_details.len() ==> (#[trigger] self.segment_details[s]).spec_capacity()
                == self.number_of_samples_per_segment
        &&& self@.well_formed()
    }

    /// What well-formedness of a block says about its content.
    pub proof fn lemma_wf_view(&self)
        requires
            self.wf(),
        ensures
            self@.well_formed(),
    {
    }

    /// A fresh block: empty channels, nothing in flight, no port attached.
    /// A connection has room for at least one sample in its submission
    /// channel, and its receiver may hold at least one.
    pub fn new(
        submission_channel_buffer_capacity: usize,
        completion_channel_buffer_capacity: usize,
        enable_safe_overflow: bool,
        max_borrowed_samples: usize,
        number_of_samples_per_segment: usize,
        number_of_segments: u8,
    ) -> (block: SharedManagementData)
        requires
            1 <= submission_channel_buffer_capacity <= MAX_CHANNEL_CAPACITY,
            completion_channel_buffer_capacity <= MAX_CHANNEL_CAPACITY,
            1 <= max_borrowed_samples,
        ensures
            block.wf(),
            block@ == ConnectionView::spec_new(
                submission_channel_buffer_capacity as nat,
                completion_channel_buffer_capacity as nat,
                enable_safe_overflow,
                max_borrowed_samples as nat,
                number_of_samples_per_segment as nat,
                number_of_segments,
            ),
    {
        let mut segment_details: Vec<SegmentDetails> = Vec::new();
        let mut n: u8 = 0;
        while n < number_of_segments
            invariant
                n <= number_of_segments,
                segment_details.len() == n,
                forall|s: int|
                    0 <= s < n ==> {
                        &&& (#[trigger] segment_details[s]).spec_capacity() == number_of_samples_per_segment
                        &&& segment_details[s].spec_used() == Set::<int>::empty()
                        &&& segment_details[s].spec_sample_size() == 0
                    },
            decreases number_of_segments - n,
        {
            segment_details.push(SegmentDetails::new(number_of_samples_per_segment));
            n += 1;
        }
        let block = SharedManagementData {
            submission_channel: SubmissionChannel::new(submission_channel_buffer_capacity),
            completion_channel: CompletionChannel::new(completion_channel_buffer_capacity),
            segment_details,
            max_borrowed_samples,
            number_of_samples_per_segment,
            number_of_segments,
            state: STATE_NONE,
            enable_safe_overflow,
            borrowed: Ghost(Multiset::empty()),
        };
        proof {
            let expected = ConnectionView::spec_new(
                submission_channel_buffer_capacity as nat,
                completion_channel_buffer_capacity as nat,
                enable_safe_overflow,
                max_borrowed_samples as nat,
                number_of_samples_per_segment as nat,
                number_of_segments,
            );
            assert(block@.used =~= expected.used);
            assert(block@.sample_sizes =~= expected.sample_sizes);
            assert(block@ =~= expected);
        }
        block
    }
}

impl ConnectionView {
    /// The content of a fresh block.
    pub open spec fn spec_new(
        buffer_size: nat,
        completion_capacity: nat,
        enable_safe_overflow: bool,
        max_borrowed_samples: nat,
        number_of_samples_per_segment: nat,
        number_of_segments: u8,
    ) -> ConnectionView {
        ConnectionView {
            submission: Seq::empty(),
            completion: Seq::empty(),
            borrowed: Multiset::empty(),
            used: Seq::new(number_of_segments as nat, |s: int| Set::<int>::empty()),
            sample_sizes: Seq::new(number_of_segments as nat, |s: int| 0nat),
            state: STATE_NONE,
            buffer_size,
            completion_capacity,
            max_borrowed_samples,
            number_of_samples_per_segment,
            number_of_segments,
            enable_safe_overflow,
        }
    }

    /// The submission channel has room for at least one sample and the
    /// receiver may hold at least one; no channel holds more than it has
    /// room for. One used-chunk list and one sample
    /// size per segment; every index in flight lies below the number of
    /// samples of its segment, and belongs to a segment whose sample size
    /// is known and places the bucket at an address that fits into a word.
    pub open spec fn well_formed(&self) -> bool {
        &&& self.buffer_size >= 1
        &&& self.max_borrowed_samples >= 1
        &&& self.submission.len() <= self.buffer_size
        &&& self.completion.len() <= self.completion_capacity
        &&& self.used.len() == self.number_of_segments
        &&& self.sample_sizes.len() == self.number_of_segments
        &&& forall|s: int, i: int|
            0 <= s < self.used.len() && #[trigger] self.used[s].contains(i) ==> {
                &&& 0 <= i < self.number_of_samples_per_segment
                &&& self.sample_sizes[s] > 0
                &&& i * self.sample_sizes[s] <= MAX_OFFSET
            }
    }

    /// The segment and bucket index that the word `value` stands for, if it
    /// names a bucket that is in flight.
    pub open spec fn spec_locate(&self, value: u64) -> Option<(int, int)> {
        let segment = spec_segment_of(value) as int;
        let offset = spec_offset_of(value) as int;
        if segment < self.used.len() && segment < self.sample_sizes.len() && self.sample_sizes[segment] > 0
            && offset % (self.sample_sizes[segment] as int) == 0 && self.used[segment].contains(
            offset / (self.sample_sizes[segment] as int),
        ) {
            Some((segment, offset / (self.sample_sizes[segment] as int)))
        } else {
            None
        }
    }

    /// The content after the bucket `index` of `segment` left the used-chunk
    /// list.
    pub open spec fn spec_without(self, segment: int, index: int) -> ConnectionView {
        ConnectionView { used: self.used.update(segment, self.used[segment].remove(index)), ..self }
    }

    /// A send is turned away: the submission channel is full and must not
    /// overflow.
    pub open spec fn spec_send_rejected(&self) -> bool {
        !self.enable_safe_overflow && self.submission.len() == self.buffer_size
    }

    /// What a send that is not turned away asks of its arguments: the
    /// address names a bucket of an existing segment, lies on a bucket
    /// boundary, is not in flight already, and the sample size is the one
    /// the segment is known by.
    pub open spec fn spec_can_send(&self, ptr: PointerOffset, sample_size: nat) -> bool {
        let segment = ptr.spec_segment_id() as int;
        &&& sample_size > 0
        &&& segment < self.number_of_segments
        &&& ptr.spec_offset() % sample_size == 0
        &&& ptr.spec_offset() / sample_size < self.number_of_samples_per_segment
        &&& !self.used[segment].contains((ptr.spec_offset() / sample_size) as int)
        &&& (self.sample_sizes[segment] == 0 || self.sample_sizes[segment] == sample_size)
    }

    /// The content after the bucket was recorded as in flight and its
    /// address was pushed, before an evicted address is dealt with.
    pub open spec fn spec_submitted(self, ptr: PointerOffset, sample_size: nat) -> ConnectionView {
        let segment = ptr.spec_segment_id() as int;
        let index = (ptr.spec_offset() / sample_size) as int;
        ConnectionView {
            used: self.used.update(segment, self.used[segment].insert(index)),
            sample_sizes: self.sample_sizes.update(segment, sample_size),
            submission: SubmissionChannel::spec_after_push(self.submission, self.buffer_size, ptr.0),
            ..self
        }
    }

    /// Sending: the content afterwards and what the sender gets back.
    pub open spec fn spec_try_send(self, ptr: PointerOffset, sample_size: nat) -> (
        ConnectionView,
        Result<Option<PointerOffset>, ZeroCopySendError>,
    ) {
        if self.spec_send_rejected() {
            (self, Err(ZeroCopySendError::ReceiveBufferFull))
        } else {
            let submitted = self.spec_submitted(ptr, sample_size);
            match SubmissionChannel::spec_evicted(self.submission, self.buffer_size, ptr.0) {
                None => (submitted, Ok(None)),
                Some(evicted) => match submitted.spec_locate(evicted) {
                    None => (submitted, Err(ZeroCopySendError::ConnectionCorrupted)),
                    Some((segment, index)) => (
                        submitted.spec_without(segment, index),
                        Ok(Some(PointerOffset(evicted))),
                    ),
                },
            }
        }
    }

    /// Reclaiming: the content afterwards and what the sender gets back.
    pub open spec fn spec_reclaim(self) -> (
        ConnectionView,
        Result<Option<PointerOffset>, ZeroCopyReclaimError>,
    ) {
        if self.completion.len() == 0 {
            (self, Ok(None))
        } else {
            let returned = self.completion[0];
            let popped = ConnectionView { completion: self.completion.skip(1), ..self };
            match popped.spec_locate(returned) {
                None => (popped, Err(ZeroCopyReclaimError::ReceiverReturnedCorruptedPointerOffset)),
                Some((segment, index)) => (
                    popped.spec_without(segment, index),
                    Ok(Some(PointerOffset(returned))),
                ),
            }
        }
    }

    /// Receiving with `borrow_counter` samples held: the content and the
    /// counter afterwards, and what the receiver gets.
    pub open spec fn spec_receive(self, borrow_counter: nat) -> (
        ConnectionView,
        nat,
        Result<Option<PointerOffset>, ZeroCopyReceiveError>,
    ) {
        if borrow_counter >= self.max_borrowed_samples {
            (self, borrow_counter, Err(ZeroCopyReceiveError::ReceiveWouldExceedMaxBorrowValue))
        } else if self.submission.len() == 0 {
            (self, borrow_counter, Ok(None))
        } else {
            (
                ConnectionView {
                    submission: self.submission.skip(1),
                    borrowed: self.borrowed.insert(self.submission[0]),
                    ..self
                },
                borrow_counter + 1,
                Ok(Some(PointerOffset(self.submission[0]))),
            )
        }
    }

    /// Releasing with `borrow_counter` samples held: the content and the
    /// counter afterwards, and whether the release went through.
    pub open spec fn spec_release(self, borrow_counter: nat, ptr: PointerOffset) -> (
        ConnectionView,
        nat,
        Result<(), ZeroCopyReleaseError>,
    ) {
        if self.completion.len() < self.completion_capacity {
            (
                ConnectionView {
                    completion: self.completion.push(ptr.0),
                    borrowed: self.borrowed.remove(ptr.0),
                    ..self
                },
                (borrow_counter - 1) as nat,
                Ok(()),
            )
        } else {
            (self, borrow_counter, Err(ZeroCopyReleaseError::RetrieveBufferFull))
        }
    }

    /// Both ports are attached and the connection is not marked for
    /// destruction.
    pub open spec fn is_connected(&self) -> bool {
        self.state == STATE_SENDER | STATE_RECEIVER
    }
}

impl SharedManagementData {
    /// Capacity of the submission channel.
    pub fn buffer_size(&self) -> (size: usize)
        ensures
            size == self@.buffer_size,
    {
        self.submission_channel.capacity()
    }

    /// Whether the bucket at `ptr` may be sent with the given sample size:
    /// either the send would be turned away for want of room anyway, or
    /// the address names a bucket of an existing segment on a bucket
    /// boundary that is not in flight already, and the sample size is the
    /// one the segment is known by. Sending anything else, such as the
    /// same bucket twice, is a mistake of the caller that corrupts the
    /// connection.
    pub fn can_send(&self, ptr: PointerOffset, sample_size: usize) -> (allowed: bool)
        requires
            self.wf(),
        ensures
            allowed == (!self@.spec_send_rejected() ==> self@.spec_can_send(ptr, sample_size as nat)),
    {
        if !self.enable_safe_overflow && self.submission_channel.is_full() {
            return true;
        }
        let segment = ptr.segment_id().value() as usize;
        if sample_size == 0 || segment >= self.segment_details.len() {
            return false;
        }
        let offset: u64 = ptr.as_value() >> 8;
        if offset % (sample_size as u64) != 0 {
            return false;
        }
        let index = offset / (sample_size as u64);
        if index >= self.number_of_samples_per_segment as u64 {
            return false;
        }
        let known = self.segment_details[segment].sample_size;
        if known != 0 && known != sample_size {
            return false;
        }
        assert(self.segment_details[segment as int].spec_capacity() == self.number_of_samples_per_segment);
        !self.segment_details[segment].used_chunk_list.contains(index as usize)
    }

    /// Finds the bucket that the word `value` stands for.
    fn locate(&self, value: u64) -> (found: Option<(usize, usize)>)
        requires
            self.wf(),
        ensures
            match found {
                Some((segment, index)) => self@.spec_locate(value) == Some((segment as int, index as int)),
                None => self@.spec_locate(value).is_none(),
            },
    {
        let segment = (value & 0xff) as u8 as usize;
        let offset: u64 = value >> 8;
        if segment >= self.segment_details.len() {
            return None;
        }
        let sample_size = self.segment_details[segment].sample_size;
        if sample_size == 0 {
            return None;
        }
        if offset % (sample_size as u64) != 0 {
            return None;
        }
        let index: u64 = offset / (sample_size as u64);
        if index >= self.segment_details[segment].used_chunk_list.capacity() as u64 {
            proof {
                self.segment_details[segment as int].used_chunk_list.lemma_members_in_range();
            }
            return None;
        }
        if self.segment_details[segment].used_chunk_list.contains(index as usize) {
            Some((segment, index as usize))
        } else {
            None
        }
    }

    /// Takes the bucket `index` of `segment` out of the used-chunk list.
    fn forget(&mut self, segment: usize, index: usize)
        requires
            old(self).wf(),
            segment < old(self)@.used.len(),
        ensures
            final(self).wf(),
            final(self)@ == old(self)@.spec_without(segment as int, index as int),
    {
        self.segment_details[segment].used_chunk_list.remove(index);
        proof {
            let expected = old(self)@.spec_without(segment as int, index as int);
            assert(self@.used =~= expected.used);
            assert(self@.sample_sizes =~= expected.sample_sizes);
            assert(self@ =~= expected);
        }
    }
}

/// The sending port of a connection.
#[derive(Debug)]
pub struct Sender {
    name: FileName,
}

impl Sender {
    /// The name of the connection.
    pub closed spec fn spec_name(&self) -> FileName {
        self.name
    }

    pub fn name(&self) -> (name: &FileName)
        ensures
            *name == self.spec_name(),
    {
        &self.name
    }

    /// Capacity of the submission channel.
    pub fn buffer_size(&self, storage: &SharedManagementData) -> (size: usize)
        ensures
            size == storage@.buffer_size,
    {
        storage.submission_channel.capacity()
    }

    pub fn max_supported_shared_memory_segments(&self, storage: &SharedManagementData) -> (segments: u8)
        ensures
            segments == storage@.number_of_segments,
    {
        storage.number_of_segments
    }

    pub fn max_borrowed_samples(&self, storage: &SharedManagementData) -> (samples: usize)
        ensures
            samples == storage@.max_borrowed_samples,
    {
        storage.max_borrowed_samples
    }

    pub fn has_enabled_safe_overflow(&self, storage: &SharedManagementData) -> (enabled: bool)
        ensures
            enabled == storage@.enable_safe_overflow,
    {
        storage.enable_safe_overflow
    }

    /// Whether a sender and a receiver are both attached.
    pub fn is_connected(&self, storage: &SharedManagementData) -> (connected: bool)
        ensures
            connected == storage@.is_connected(),
    {
        storage.state == STATE_SENDER | STATE_RECEIVER
    }

    /// Hands the bucket at `ptr` to the receiver. With safe overflow, a full
    /// submission channel gives up its oldest address, which comes back to
    /// the caller for reuse; without it, a full channel turns the send away.
    pub fn try_send(&self, storage: &mut SharedManagementData, ptr: PointerOffset, sample_size: usize) -> (result:
        Result<Option<PointerOffset>, ZeroCopySendError>)
        requires
            old(storage).wf(),
            !old(storage)@.spec_send_rejected() ==> old(storage)@.spec_can_send(ptr, sample_size as nat),
        ensures
            final(storage).wf(),
            (final(storage)@, result) == old(storage)@.spec_try_send(ptr, sample_size as nat),
    {
        if !storage.enable_safe_overflow && storage.submission_channel.is_full() {
            return Err(ZeroCopySendError::ReceiveBufferFull);
        }
        let segment_id = ptr.segment_id().value() as usize;
        let offset: u64 = ptr.as_value() >> 8;
        let index = (offset / (sample_size as u64)) as usize;
        proof {
            vstd::arithmetic::div_mod::lemma_fundamental_div_mod(offset as int, sample_size as int);
            crate::pointer_offset::lemma_unpack_pack(ptr.0);
        }
        storage.segment_details[segment_id].sample_size = sample_size;
        storage.segment_details[segment_id].used_chunk_list.insert(index);
        let evicted = storage.submission_channel.push(ptr.as_value());
        proof {
            let expected = old(storage)@.spec_submitted(ptr, sample_size as nat);
            assert(storage@.used =~= expected.used);
            assert(storage@.sample_sizes =~= expected.sample_sizes);
            assert(storage@ =~= expected);
            assert(index * sample_size == offset) by (nonlinear_arith)
                requires
                    offset == sample_size * (offset / (sample_size as u64)) + offset % (sample_size as u64),
                    offset % (sample_size as u64) == 0,
                    index == offset / (sample_size as u64),
            ;
        }
        match evicted {
            Some(v) => match storage.locate(v) {
                Some((segment, evicted_index)) => {
                    storage.forget(segment, evicted_index);
                    Ok(Some(PointerOffset::from_value(v)))
                },
                None => Err(ZeroCopySendError::ConnectionCorrupted),
            },
            None => Ok(None),
        }
    }

    /// Takes one address off the completion channel and with it the bucket
    /// out of the used-chunk list. An address that names no bucket in
    /// flight is reported and dropped.
    pub fn reclaim(&self, storage: &mut SharedManagementData) -> (result: Result<
        Option<PointerOffset>,
        ZeroCopyReclaimError,
    >)
        requires
            old(storage).wf(),
        ensures
            final(storage).wf(),
            (final(storage)@, result) == old(storage)@.spec_reclaim(),
    {
        match storage.completion_channel.pop() {
            None => Ok(None),
            Some(v) => {
                proof {
                    let popped = ConnectionView { completion: old(storage)@.completion.skip(1), ..old(storage)@ };
                    assert(storage@.used =~= popped.used);
                    assert(storage@.sample_sizes =~= popped.sample_sizes);
                    assert(storage@ =~= popped);
                }
                match storage.locate(v) {
                    None => Err(ZeroCopyReclaimError::ReceiverReturnedCorruptedPointerOffset),
                    Some((segment, index)) => {
                        storage.forget(segment, index);
                        Ok(Some(PointerOffset::from_value(v)))
                    },
                }
            },
        }
    }
}

/// The receiving port of a connection.
#[derive(Debug)]
pub struct Receiver {
    borrow_counter: usize,
    name: FileName,
}

impl Receiver {
    /// Number of samples received and not yet released.
    pub closed spec fn spec_borrow_counter(&self) -> nat {
        self.borrow_counter as nat
    }

    /// The name of the connection.
    pub closed spec fn spec_name(&self) -> FileName {
        self.name
    }

    pub fn name(&self) -> (name: &FileName)
        ensures
            *name == self.spec_name(),
    {
        &self.name
    }

    pub fn borrow_counter(&self) -> (count: usize)
        ensures
            count == self.spec_borrow_counter(),
    {
        self.borrow_counter
    }

    /// Capacity of the submission channel.
    pub fn buffer_size(&self, storage: &SharedManagementData) -> (size: usize)
        ensures
            size == storage@.buffer_size,
    {
        storage.submission_channel.capacity()
    }

    pub fn max_supported_shared_memory_segments(&self, storage: &SharedManagementData) -> (segments: u8)
        ensures
            segments == storage@.number_of_segments,
    {
        storage.number_of_segments
    }

    pub fn max_borrowed_samples(&self, storage: &SharedManagementData) -> (samples: usize)
        ensures
            samples == storage@.max_borrowed_samples,
    {
        storage.max_borrowed_samples
    }

    pub fn has_enabled_safe_overflow(&self, storage: &SharedManagementData) -> (enabled: bool)
        ensures
            enabled == storage@.enable_safe_overflow,
    {
        storage.enable_safe_overflow
    }

    /// Whether a sender and a receiver are both attached.
    pub fn is_connected(&self, storage: &SharedManagementData) -> (connected: bool)
        ensures
            connected == storage@.is_connected(),
    {
        storage.state == STATE_SENDER | STATE_RECEIVER
    }

    /// Whether the submission channel holds an address.
    pub fn has_data(&self, storage: &SharedManagementData) -> (has_data: bool)
        ensures
            has_data == (storage@.submission.len() > 0),
    {
        !storage.submission_channel.is_empty()
    }

    /// Takes the oldest address off the submission channel, unless the
    /// receiver already holds as many samples as it may.
    pub fn receive(&mut self, storage: &mut SharedManagementData) -> (result: Result<
        Option<PointerOffset>,
        ZeroCopyReceiveError,
    >)
        requires
            old(storage).wf(),
        ensures
            final(storage).wf(),
            (final(storage)@, final(self).spec_borrow_counter(), result) == old(storage)@.spec_receive(
                old(self).spec_borrow_counter(),
            ),
    {
        if self.borrow_counter >= storage.max_borrowed_samples {
            return Err(ZeroCopyReceiveError::ReceiveWouldExceedMaxBorrowValue);
        }
        match storage.submission_channel.pop() {
            None => Ok(None),
            Some(v) => {
                self.borrow_counter += 1;
                proof {
                    storage.borrowed@ = storage.borrowed@.insert(v);
                    let expected = old(storage)@.spec_receive(old(self).spec_borrow_counter()).0;
                    assert(storage@.used =~= expected.used);
                    assert(storage@.sample_sizes =~= expected.sample_sizes);
                    assert(storage@ =~= expected);
                }
                Ok(Some(PointerOffset::from_value(v)))
            },
        }
    }

    /// Gives the bucket at `ptr` back to the sender by way of the
    /// completion channel.
    pub fn release(&mut self, storage: &mut SharedManagementData, ptr: PointerOffset) -> (result: Result<
        (),
        ZeroCopyReleaseError,
    >)
        requires
            old(storage).wf(),
            old(storage)@.completion.len() < old(storage)@.completion_capacity ==> old(self).spec_borrow_counter()
                > 0,
        ensures
            final(storage).wf(),
            (final(storage)@, final(self).spec_borrow_counter(), result) == old(storage)@.spec_release(
                old(self).spec_borrow_counter(),
                ptr,
            ),
    {
        if storage.completion_channel.push(ptr.as_value()) {
            self.borrow_counter -= 1;
            proof {
                storage.borrowed@ = storage.borrowed@.remove(ptr.0);
                let expected = old(storage)@.spec_release(old(self).spec_borrow_counter(), ptr).0;
                assert(storage@.used =~= expected.used);
                assert(storage@.sample_sizes =~= expected.sample_sizes);
                assert(storage@ =~= expected);
            }
            Ok(())
        } else {
            Err(ZeroCopyReleaseError::RetrieveBufferFull)
        }
    }
}

/// What a blocking send does next.
#[derive(Debug, Clone, Copy)]
pub enum BlockingSend {
    /// The submission channel is full and must not overflow: the sender has
    /// to wait for the receiver and ask again.
    Wait,
    /// The send was carried out, with this outcome.
    Done(Result<Option<PointerOffset>, ZeroCopySendError>),
}

impl ConnectionView {
    /// One step of a blocking send: the content afterwards and what the
    /// sender does next.
    pub open spec fn spec_blocking_send(self, ptr: PointerOffset, sample_size: nat) -> (
        ConnectionView,
        BlockingSend,
    ) {
        if self.spec_send_rejected() {
            (self, BlockingSend::Wait)
        } else {
            (self.spec_try_send(ptr, sample_size).0, BlockingSend::Done(self.spec_try_send(ptr, sample_size).1))
        }
    }

    /// The content after every used-chunk list was emptied.
    pub open spec fn spec_drained(self) -> ConnectionView {
        ConnectionView { used: Seq::new(self.used.len(), |s: int| Set::<int>::empty()), ..self }
    }

    /// The content after the port that holds `bit` has let go of it.
    pub open spec fn spec_released(self, bit: u8) -> ConnectionView {
        ConnectionView { state: spec_state_after_release(self.state, bit), ..self }
    }

    /// The content after the port that holds `bit` has attached, or the
    /// reason why it cannot.
    pub open spec fn spec_reserved(self, bit: u8) -> Result<ConnectionView, ZeroCopyCreationError> {
        match spec_reserve_port(self.state, bit) {
            Ok(state) => Ok(ConnectionView { state, ..self }),
            Err(e) => Err(e),
        }
    }
}

impl Sender {
    /// One step of a send that waits for room: where a plain send would be
    /// turned away the caller is told to wait, otherwise the send is made.
    /// With safe overflow there is never anything to wait for.
    pub fn blocking_send(&self, storage: &mut SharedManagementData, ptr: PointerOffset, sample_size: usize) -> (step:
        BlockingSend)
        requires
            old(storage).wf(),
            !old(storage)@.spec_send_rejected() ==> old(storage)@.spec_can_send(ptr, sample_size as nat),
        ensures
            final(storage).wf(),
            (final(storage)@, step) == old(storage)@.spec_blocking_send(ptr, sample_size as nat),
            step != BlockingSend::Done(Err(ZeroCopySendError::ReceiveBufferFull)),
    {
        if !storage.enable_safe_overflow && storage.submission_channel.is_full() {
            BlockingSend::Wait
        } else {
            BlockingSend::Done(self.try_send(storage, ptr, sample_size))
        }
    }

    /// Empties the used-chunk list of the segment `segment` and hands out
    /// the addresses of the buckets it held, lowest first.
    fn acquire_used_offsets_of_segment(&self, storage: &mut SharedManagementData, segment: u8) -> (offsets: Vec<
        PointerOffset,
    >)
        requires
            old(storage).wf(),
            segment < old(storage)@.number_of_segments,
        ensures
            final(storage).wf(),
            final(storage)@ == (ConnectionView {
                used: old(storage)@.used.update(segment as int, Set::<int>::empty()),
                ..old(storage)@
            }),
            offsets@.no_duplicates(),
            forall|k: int| 0 <= k < offsets.len() ==> (#[trigger] offsets[k]).spec_segment_id() == segment,
            forall|ptr: PointerOffset|
                offsets@.contains(ptr) <==> ptr.spec_segment_id() == segment && old(storage)@.spec_locate(
                    ptr.0,
                ).is_some(),
    {
        let sample_size = storage.segment_details[segment as usize].sample_size;
        let indices = storage.segment_details[segment as usize].used_chunk_list.remove_all();
        proof {
            let expected = ConnectionView {
                used: old(storage)@.used.update(segment as int, Set::<int>::empty()),
                ..old(storage)@
            };
            assert(storage@.used =~= expected.used);
            assert(storage@.sample_sizes =~= expected.sample_sizes);
            assert(storage@ =~= expected);
        }
        let ghost before = old(storage)@;
        let mut offsets: Vec<PointerOffset> = Vec::new();
        let mut k: usize = 0;
        while k < indices.len()
            invariant
                k <= indices.len(),
                offsets.len() == k,
                before.well_formed(),
                segment < before.number_of_segments,
                sample_size == before.sample_sizes[segment as int],
                forall|j: int| 0 <= j < indices.len() ==> before.used[segment as int].contains(#[trigger] indices[j] as int),
                forall|a: int, b: int| 0 <= a < b < indices.len() ==> indices[a] < indices[b],
                forall|j: int|
                    0 <= j < k ==> {
                        &&& (#[trigger] offsets[j]).spec_segment_id() == segment
                        &&& offsets[j].spec_offset() == indices[j] * sample_size
                    },
            decreases indices.len() - k,
        {
            let index = indices[k];
            assert(before.used[segment as int].contains(indices[k as int] as int));
            assert(index * sample_size <= MAX_OFFSET);
            let offset: u64 = (index as u64) * (sample_size as u64);
            proof {
                crate::pointer_offset::lemma_pack_unpack(offset, segment);
            }
            offsets.push(PointerOffset::from_value((offset << 8) | (segment as u64)));
            k += 1;
        }
        proof {
            assert forall|a: int, b: int| 0 <= a < offsets.len() && 0 <= b < offsets.len() && a != b implies offsets[a]
                != offsets[b] by {
                assert(before.used[segment as int].contains(indices[a] as int));
                lemma_scaled_distinct(indices[a] as int, indices[b] as int, sample_size as int);
            }
            assert forall|ptr: PointerOffset|
                offsets@.contains(ptr) <==> ptr.spec_segment_id() == segment && before.spec_locate(ptr.0).is_some() by {
                if offsets@.contains(ptr) {
                    let j = choose|j: int| 0 <= j < offsets.len() && offsets[j] == ptr;
                    assert(before.used[segment as int].contains(indices[j] as int));
                    lemma_scaled_divides(indices[j] as int, sample_size as int);
                }
                if ptr.spec_segment_id() == segment && before.spec_locate(ptr.0).is_some() {
                    let offset = spec_offset_of(ptr.0) as int;
                    let index = offset / (sample_size as int);
                    let j = choose|j: int| 0 <= j < indices.len() && indices[j] == index;
                    vstd::arithmetic::div_mod::lemma_fundamental_div_mod(offset, sample_size as int);
                    assert(indices[j] * sample_size == offset) by (nonlinear_arith)
                        requires
                            offset == sample_size * index + offset % (sample_size as int),
                            offset % (sample_size as int) == 0,
                            indices[j] == index,
                    ;
                    crate::pointer_offset::lemma_unpack_pack(ptr.0);
                    crate::pointer_offset::lemma_unpack_pack(offsets[j].0);
                    assert(offsets[j].0 == ptr.0);
                    assert(offsets[j] == ptr);
                }
            }
        }
        offsets
    }

    /// Empties every used-chunk list and hands out the addresses of all
    /// buckets that were in flight. Meant for a connection whose receiver
    /// is gone: nothing else tells the sender which buckets the receiver
    /// still held.
    pub fn acquire_used_offsets(&self, storage: &mut SharedManagementData) -> (offsets: Vec<PointerOffset>)
        requires
            old(storage).wf(),
        ensures
            final(storage).wf(),
            final(storage)@ == old(storage)@.spec_drained(),
            offsets@.no_duplicates(),
            forall|ptr: PointerOffset| offsets@.contains(ptr) <==> old(storage)@.spec_locate(ptr.0).is_some(),
    {
        let mut offsets: Vec<PointerOffset> = Vec::new();
        let mut n: u8 = 0;
        let ghost before = storage@;
        while n < storage.number_of_segments
            invariant
                storage.wf(),
                n <= storage@.number_of_segments,
                before == old(storage)@,
                before.well_formed(),
                storage@ == (ConnectionView {
                    used: Seq::new(
                        before.used.len(),
                        |s: int| if s < n { Set::<int>::empty() } else { before.used[s] },
                    ),
                    ..before
                }),
                offsets@.no_duplicates(),
                forall|ptr: PointerOffset|
                    offsets@.contains(ptr) <==> ptr.spec_segment_id() < n && before.spec_locate(ptr.0).is_some(),
            decreases storage@.number_of_segments - n,
        {
            let ghost current = storage@;
            let ghost collected = offsets@;
            let mut part = self.acquire_used_offsets_of_segment(storage, n);
            let ghost piece = part@;
            proof {
                let expected = ConnectionView {
                    used: Seq::new(
                        before.used.len(),
                        |s: int| if s < n + 1 { Set::<int>::empty() } else { before.used[s] },
                    ),
                    ..before
                };
                assert(storage@.used =~= expected.used);
                assert(storage@ =~= expected);
                assert forall|ptr: PointerOffset| part@.contains(ptr) <==> ptr.spec_segment_id() == n
                    && before.spec_locate(ptr.0).is_some() by {
                    assert(ptr.spec_segment_id() == n ==> current.spec_locate(ptr.0) == before.spec_locate(ptr.0));
                }
                assert forall|a: int, b: int| 0 <= a < collected.len() && 0 <= b < part.len() implies collected[a]
                    != part[b] by {
                    assert(collected.contains(collected[a]));
                }
                vstd::seq_lib::lemma_no_dup_in_concat(collected, part@);
            }
            offsets.append(&mut part);
            proof {
                assert forall|ptr: PointerOffset|
                    offsets@.contains(ptr) <==> ptr.spec_segment_id() < n + 1 && before.spec_locate(ptr.0).is_some() by {
                    let whole = collected + piece;
                    if whole.contains(ptr) {
                        let j = choose|j: int| 0 <= j < whole.len() && whole[j] == ptr;
                        if j < collected.len() {
                            assert(collected[j] == ptr);
                            assert(collected.contains(ptr));
                        } else {
                            assert(piece[j - collected.len()] == ptr);
                            assert(piece.contains(ptr));
                        }
                    }
                    if collected.contains(ptr) {
                        let j = choose|j: int| 0 <= j < collected.len() && collected[j] == ptr;
                        assert(whole[j] == ptr);
                    }
                    if piece.contains(ptr) {
                        let j = choose|j: int| 0 <= j < piece.len() && piece[j] == ptr;
                        assert(whole[collected.len() + j] == ptr);
                    }
                }
            }
            n += 1;
        }
        proof {
            let expected = old(storage)@.spec_drained();
            assert(storage@.used =~= expected.used);
            assert(storage@ =~= expected);
            assert forall|ptr: PointerOffset| before.spec_locate(ptr.0).is_some() implies ptr.spec_segment_id()
                < storage@.number_of_segments by {}
        }
        offsets
    }
}

/// Two different multiples of a positive size are different.
pub proof fn lemma_scaled_distinct(a: int, b: int, size: int)
    requires
        size > 0,
        a != b,
    ensures
        a * size != b * size,
{
    assert(a * size != b * size) by (nonlinear_arith)
        requires
            size > 0,
            a != b,
    ;
}

/// A multiple of a positive size lies on a boundary of that size.
pub proof fn lemma_scaled_divides(a: int, size: int)
    requires
        size > 0,
        a >= 0,
    ensures
        (a * size) % size == 0,
        (a * size) / size == a,
{
    vstd::arithmetic::div_mod::lemma_fundamental_div_mod_converse(a * size, size, a, 0);
}

/// Lets go of the port that `state_to_remove` stands for. Returns whether
/// the caller has thereby become the owner of the backing storage, which is
/// the case for the port that leaves last. A connection that is already
/// marked for destruction is left as it is.
pub fn cleanup_shared_memory(storage: &mut SharedManagementData, state_to_remove: State) -> (takes_ownership: bool)
    requires
        old(storage).wf(),
    ensures
        final(storage).wf(),
        final(storage)@ == old(storage)@.spec_released(state_to_remove.spec_value()),
        takes_ownership == spec_release_takes_ownership(old(storage)@.state, state_to_remove.spec_value()),
{
    let current_state = storage.state;
    if current_state == STATE_MARKED_FOR_DESTRUCTION {
        proof {
            assert(storage@ =~= old(storage)@.spec_released(state_to_remove.spec_value()));
        }
        return false;
    }
    let new_state = state_after_release(current_state, state_to_remove);
    storage.state = new_state;
    proof {
        let expected = old(storage)@.spec_released(state_to_remove.spec_value());
        assert(storage@.used =~= expected.used);
        assert(storage@.sample_sizes =~= expected.sample_sizes);
        assert(storage@ =~= expected);
    }
    new_state == STATE_MARKED_FOR_DESTRUCTION
}

/// What is found under the name of a connection after the port that holds
/// `bit` has left it: the last port to leave takes the block with it.
pub open spec fn spec_after_detach(slot: Option<ConnectionView>, bit: u8) -> Option<ConnectionView> {
    match slot {
        None => None,
        Some(view) => if spec_release_takes_ownership(view.state, bit) {
            None
        } else {
            Some(view.spec_released(bit))
        },
    }
}

/// The content of what is found under the name of a connection.
pub open spec fn spec_slot_view(slot: Option<SharedManagementData>) -> Option<ConnectionView> {
    match slot {
        None => None,
        Some(block) => Some(block@),
    }
}

/// What is found under the name of a connection is either nothing or a
/// well-formed block.
pub open spec fn spec_slot_wf(slot: Option<SharedManagementData>) -> bool {
    match slot {
        None => true,
        Some(block) => block.wf(),
    }
}

/// Detaches the port that `state_to_remove` stands for from whatever is
/// found under the name of its connection.
fn detach_port(slot: &mut Option<SharedManagementData>, state_to_remove: State)
    requires
        spec_slot_wf(*old(slot)),
    ensures
        spec_slot_wf(*final(slot)),
        spec_slot_view(*final(slot)) == spec_after_detach(spec_slot_view(*old(slot)), state_to_remove.spec_value()),
{
    let taken = slot.take();
    match taken {
        None => {},
        Some(mut block) => {
            if !cleanup_shared_memory(&mut block, state_to_remove) {
                *slot = Some(block);
            }
        },
    }
}

impl Sender {
    /// Detaches the sender. If the receiver has left already, the block
    /// goes with it and nothing is left under the connection's name.
    pub fn detach(self, slot: &mut Option<SharedManagementData>)
        requires
            spec_slot_wf(*old(slot)),
        ensures
            spec_slot_wf(*final(slot)),
            spec_slot_view(*final(slot)) == spec_after_detach(spec_slot_view(*old(slot)), STATE_SENDER),
    {
        detach_port(slot, State::Sender)
    }
}

impl Receiver {
    /// Detaches the receiver. If the sender has left already, the block
    /// goes with it and nothing is left under the connection's name.
    pub fn detach(self, slot: &mut Option<SharedManagementData>)
        requires
            spec_slot_wf(*old(slot)),
        ensures
            spec_slot_wf(*final(slot)),
            spec_slot_view(*final(slot)) == spec_after_detach(spec_slot_view(*old(slot)), STATE_RECEIVER),
    {
        detach_port(slot, State::Receiver)
    }
}

/// Operations on a connection that need no port.
pub struct Connection {}

impl Connection {
    /// The error of a forced removal whose storage could not be opened.
    pub open spec fn spec_open_storage_error(error: DynamicStorageOpenError) -> ZeroCopyPortRemoveError {
        match error {
            DynamicStorageOpenError::VersionMismatch => ZeroCopyPortRemoveError::VersionMismatch,
            DynamicStorageOpenError::InitializationNotYetFinalized => ZeroCopyPortRemoveError::InsufficientPermissions,
            DynamicStorageOpenError::DoesNotExist => ZeroCopyPortRemoveError::DoesNotExist,
            DynamicStorageOpenError::InternalError => ZeroCopyPortRemoveError::InternalError,
        }
    }

    /// Passes on the outcome of opening the storage of a connection whose
    /// port is to be removed by force.
    pub fn open_storage(outcome: Result<(), DynamicStorageOpenError>) -> (result: Result<(), ZeroCopyPortRemoveError>)
        ensures
            result == match outcome {
                Ok(()) => Ok::<(), ZeroCopyPortRemoveError>(()),
                Err(e) => Err(Self::spec_open_storage_error(e)),
            },
    {
        match outcome {
            Ok(()) => Ok(()),
            Err(DynamicStorageOpenError::VersionMismatch) => Err(ZeroCopyPortRemoveError::VersionMismatch),
            Err(DynamicStorageOpenError::InitializationNotYetFinalized) => Err(
                ZeroCopyPortRemoveError::InsufficientPermissions,
            ),
            Err(DynamicStorageOpenError::DoesNotExist) => Err(ZeroCopyPortRemoveError::DoesNotExist),
            Err(DynamicStorageOpenError::InternalError) => Err(ZeroCopyPortRemoveError::InternalError),
        }
    }

    /// Removes the port that `state_to_remove` stands for on behalf of a
    /// process that has died.
    fn remove_port(slot: &mut Option<SharedManagementData>, state_to_remove: State) -> (result: Result<
        (),
        ZeroCopyPortRemoveError,
    >)
        requires
            spec_slot_wf(*old(slot)),
        ensures
            spec_slot_wf(*final(slot)),
            spec_slot_view(*final(slot)) == spec_after_detach(
                spec_slot_view(*old(slot)),
                state_to_remove.spec_value(),
            ),
            result == match *old(slot) {
                None => Err::<(), ZeroCopyPortRemoveError>(ZeroCopyPortRemoveError::DoesNotExist),
                Some(_) => Ok(()),
            },
    {
        let found = slot.is_some();
        Self::open_storage(if found { Ok(()) } else { Err(DynamicStorageOpenError::DoesNotExist) })?;
        detach_port(slot, state_to_remove);
        Ok(())
    }

    /// Removes the sender of a connection on behalf of a sender that has
    /// died. The channels and the used-chunk lists stay as they are, so the
    /// receiver can still take what is in flight.
    pub fn remove_sender(slot: &mut Option<SharedManagementData>) -> (result: Result<(), ZeroCopyPortRemoveError>)
        requires
            spec_slot_wf(*old(slot)),
        ensures
            spec_slot_wf(*final(slot)),
            spec_slot_view(*final(slot)) == spec_after_detach(spec_slot_view(*old(slot)), STATE_SENDER),
            result == match *old(slot) {
                None => Err::<(), ZeroCopyPortRemoveError>(ZeroCopyPortRemoveError::DoesNotExist),
                Some(_) => Ok(()),
            },
    {
        Self::remove_port(slot, State::Sender)
    }

    /// Removes the receiver of a connection on behalf of a receiver that
    /// has died.
    pub fn remove_receiver(slot: &mut Option<SharedManagementData>) -> (result: Result<(), ZeroCopyPortRemoveError>)
        requires
            spec_slot_wf(*old(slot)),
        ensures
            spec_slot_wf(*final(slot)),
            spec_slot_view(*final(slot)) == spec_after_detach(spec_slot_view(*old(slot)), STATE_RECEIVER),
            result == match *old(slot) {
                None => Err::<(), ZeroCopyPortRemoveError>(ZeroCopyPortRemoveError::DoesNotExist),
                Some(_) => Ok(()),
            },
    {
        Self::remove_port(slot, State::Receiver)
    }

    pub fn does_support_safe_overflow() -> (supported: bool)
        ensures
            supported,
    {
        true
    }

    pub fn has_configurable_buffer_size() -> (configurable: bool)
        ensures
            configurable,
    {
        true
    }
}

/// Collects the settings of a connection and attaches ports to it.
pub struct Builder {
    name: FileName,
    buffer_size: usize,
    enable_safe_overflow: bool,
    max_borrowed_samples: usize,
    number_of_samples_per_segment: usize,
    number_of_segments: u8,
    timeout: Option<Duration>,
}

/// The settings of a connection as plain values.
pub struct BuilderView {
    pub buffer_size: nat,
    pub enable_safe_overflow: bool,
    pub max_borrowed_samples: nat,
    pub number_of_samples_per_segment: nat,
    pub number_of_segments: u8,
}

impl BuilderView {
    /// The settings of a connection that can exist: room for at least one
    /// sample in the buffer, at least one sample that the receiver may
    /// hold, and at least one segment.
    pub open spec fn well_formed(&self) -> bool {
        &&& self.buffer_size >= 1
        &&& self.max_borrowed_samples >= 1
        &&& self.number_of_segments >= 1
    }

    /// Capacity of the submission channel.
    pub open spec fn submission_channel_size(&self) -> nat {
        self.buffer_size
    }

    /// Capacity of the completion channel: room for everything the
    /// receiver can hold or find in the submission channel, and one more.
    pub open spec fn completion_channel_size(&self) -> nat {
        self.buffer_size + self.max_borrowed_samples + 1
    }

    /// The channels are small enough to be allocated.
    pub open spec fn fits(&self) -> bool {
        self.completion_channel_size() <= MAX_CHANNEL_CAPACITY
    }

    /// The content of the block that these settings create.
    pub open spec fn spec_fresh(&self) -> ConnectionView {
        ConnectionView::spec_new(
            self.submission_channel_size(),
            self.completion_channel_size(),
            self.enable_safe_overflow,
            self.max_borrowed_samples,
            self.number_of_samples_per_segment,
            self.number_of_segments,
        )
    }

    /// The first setting, in the order in which they are compared, in
    /// which an existing block differs from what is asked for.
    pub open spec fn spec_incompatibility(&self, existing: ConnectionView) -> Option<ZeroCopyCreationError> {
        if existing.buffer_size != self.submission_channel_size() {
            Some(ZeroCopyCreationError::IncompatibleBufferSize)
        } else if existing.completion_capacity != self.completion_channel_size() {
            Some(ZeroCopyCreationError::IncompatibleMaxBorrowedSampleSetting)
        } else if existing.enable_safe_overflow != self.enable_safe_overflow {
            Some(ZeroCopyCreationError::IncompatibleOverflowSetting)
        } else if existing.number_of_samples_per_segment != self.number_of_samples_per_segment {
            Some(ZeroCopyCreationError::IncompatibleNumberOfSamples)
        } else if existing.number_of_segments != self.number_of_segments {
            Some(ZeroCopyCreationError::IncompatibleNumberOfSegments)
        } else {
            None
        }
    }

    /// Opening or creating the block: what is found under the connection's
    /// name afterwards, and whether the block can be used.
    pub open spec fn spec_create_or_open(&self, slot: Option<ConnectionView>) -> (
        Option<ConnectionView>,
        Result<(), ZeroCopyCreationError>,
    ) {
        match slot {
            None => (Some(self.spec_fresh()), Ok(())),
            Some(existing) => match self.spec_incompatibility(existing) {
                Some(e) => (slot, Err(e)),
                None => (slot, Ok(())),
            },
        }
    }

    /// Attaching the port that holds `bit`: what is found under the
    /// connection's name afterwards, and whether the port is attached.
    pub open spec fn spec_create_port(&self, slot: Option<ConnectionView>, bit: u8) -> (
        Option<ConnectionView>,
        Result<(), ZeroCopyCreationError>,
    ) {
        let opened = self.spec_create_or_open(slot);
        match opened.1 {
            Err(e) => (opened.0, Err(e)),
            Ok(()) => match opened.0.unwrap().spec_reserved(bit) {
                Err(e) => (opened.0, Err(e)),
                Ok(reserved) => (Some(reserved), Ok(())),
            },
        }
    }
}

impl Builder {
    /// A builder never holds a zero where the connection needs at least
    /// one.
    #[verifier::type_invariant]
    spec fn inv(&self) -> bool {
        &&& self.buffer_size >= 1
        &&& self.max_borrowed_samples >= 1
        &&& self.number_of_segments >= 1
    }

    pub closed spec fn view(&self) -> BuilderView {
        BuilderView {
            buffer_size: self.buffer_size as nat,
            enable_safe_overflow: self.enable_safe_overflow,
            max_borrowed_samples: self.max_borrowed_samples as nat,
            number_of_samples_per_segment: self.number_of_samples_per_segment as nat,
            number_of_segments: self.number_of_segments,
        }
    }

    /// The name of the connection.
    pub closed spec fn spec_name(&self) -> FileName {
        self.name
    }

    /// How long to wait for a concurrent creator of the connection; `None`
    /// where no time was given, which means not to wait.
    pub closed spec fn spec_timeout(&self) -> Option<Duration> {
        self.timeout
    }

    /// A builder for the connection `name` with the default settings.
    pub fn new(name: &FileName) -> (builder: Builder)
        ensures
            builder@.well_formed(),
            builder.spec_name() == *name,
            builder.spec_timeout() == None::<Duration>,
            builder@ == (BuilderView {
                buffer_size: DEFAULT_BUFFER_SIZE as nat,
                enable_safe_overflow: DEFAULT_ENABLE_SAFE_OVERFLOW,
                max_borrowed_samples: DEFAULT_MAX_BORROWED_SAMPLES as nat,
                number_of_samples_per_segment: 0,
                number_of_segments: DEFAULT_MAX_SUPPORTED_SHARED_MEMORY_SEGMENTS,
            }),
    {
        Builder {
            name: *name,
            buffer_size: DEFAULT_BUFFER_SIZE,
            enable_safe_overflow: DEFAULT_ENABLE_SAFE_OVERFLOW,
            max_borrowed_samples: DEFAULT_MAX_BORROWED_SAMPLES,
            number_of_samples_per_segment: 0,
            number_of_segments: DEFAULT_MAX_SUPPORTED_SHARED_MEMORY_SEGMENTS,
            timeout: None,
        }
    }

    /// Number of segments the connection supports; at least one.
    pub fn max_supported_shared_memory_segments(self, value: u8) -> (builder: Builder)
        ensures
            builder@.well_formed(),
            builder.spec_name() == self.spec_name(),
            builder.spec_timeout() == self.spec_timeout(),
            builder@ == (BuilderView { number_of_segments: if value == 0 { 1u8 } else { value }, ..self@ }),
    {
        proof {
            use_type_invariant(&self);
        }
        let mut builder = self;
        builder.number_of_segments = if value == 0 { 1 } else { value };
        builder
    }

    /// Capacity of the submission channel; at least one.
    pub fn buffer_size(self, value: usize) -> (builder: Builder)
        ensures
            builder@.well_formed(),
            builder.spec_name() == self.spec_name(),
            builder.spec_timeout() == self.spec_timeout(),
            builder@ == (BuilderView { buffer_size: if value == 0 { 1nat } else { value as nat }, ..self@ }),
    {
        proof {
            use_type_invariant(&self);
        }
        let mut builder = self;
        builder.buffer_size = if value == 0 { 1 } else { value };
        builder
    }

    /// How long to wait for a concurrent creator of the connection.
    pub fn timeout(self, value: Duration) -> (builder: Builder)
        ensures
            builder@.well_formed(),
            builder@ == self@,
            builder.spec_name() == self.spec_name(),
            builder.spec_timeout() == Some(value),
    {
        proof {
            use_type_invariant(&self);
        }
        let mut builder = self;
        builder.timeout = Some(value);
        builder
    }

    /// The time that was set with `timeout`, if any.
    pub fn waiting_time(&self) -> (value: Option<Duration>)
        ensures
            value == self.spec_timeout(),
    {
        self.timeout
    }

    pub fn enable_safe_overflow(self, value: bool) -> (builder: Builder)
        ensures
            builder@.well_formed(),
            builder.spec_name() == self.spec_name(),
            builder.spec_timeout() == self.spec_timeout(),
            builder@ == (BuilderView { enable_safe_overflow: value, ..self@ }),
    {
        proof {
            use_type_invariant(&self);
        }
        let mut builder = self;
        builder.enable_safe_overflow = value;
        builder
    }

    pub fn number_of_samples_per_segment(self, value: usize) -> (builder: Builder)
        ensures
            builder@.well_formed(),
            builder.spec_name() == self.spec_name(),
            builder.spec_timeout() == self.spec_timeout(),
            builder@ == (BuilderView { number_of_samples_per_segment: value as nat, ..self@ }),
    {
        proof {
            use_type_invariant(&self);
        }
        let mut builder = self;
        builder.number_of_samples_per_segment = value;
        builder
    }

    /// Number of samples the receiver may hold at once; at least one.
    pub fn receiver_max_borrowed_samples(self, value: usize) -> (builder: Builder)
        ensures
            builder@.well_formed(),
            builder.spec_name() == self.spec_name(),
            builder.spec_timeout() == self.spec_timeout(),
            builder@ == (BuilderView {
                max_borrowed_samples: if value == 0 { 1nat } else { value as nat },
                ..self@
            }),
    {
        proof {
            use_type_invariant(&self);
        }
        let mut builder = self;
        builder.max_borrowed_samples = if value == 0 { 1 } else { value };
        builder
    }

    /// Whether the channels that these settings ask for can be allocated.
    pub fn fits(&self) -> (fits: bool)
        ensures
            fits == self@.fits(),
    {
        self.buffer_size <= MAX_CHANNEL_CAPACITY && self.max_borrowed_samples <= MAX_CHANNEL_CAPACITY
            && self.buffer_size + self.max_borrowed_samples + 1 <= MAX_CHANNEL_CAPACITY
    }

    /// The error of a creation whose storage could neither be opened nor
    /// created.
    pub open spec fn spec_storage_error(error: DynamicStorageOpenOrCreateError) -> ZeroCopyCreationError {
        match error {
            DynamicStorageOpenOrCreateError::DynamicStorageCreateError(
                DynamicStorageCreateError::InsufficientPermissions,
            ) => ZeroCopyCreationError::InsufficientPermissions,
            DynamicStorageOpenOrCreateError::DynamicStorageOpenError(
                DynamicStorageOpenError::VersionMismatch,
            ) => ZeroCopyCreationError::VersionMismatch,
            DynamicStorageOpenOrCreateError::DynamicStorageOpenError(
                DynamicStorageOpenError::InitializationNotYetFinalized,
            ) => ZeroCopyCreationError::InitializationNotYetFinalized,
            _ => ZeroCopyCreationError::InternalError,
        }
    }

    /// Names the error of a creation whose storage could neither be opened
    /// nor created.
    pub fn storage_error(error: DynamicStorageOpenOrCreateError) -> (e: ZeroCopyCreationError)
        ensures
            e == Self::spec_storage_error(error),
    {
        match error {
            DynamicStorageOpenOrCreateError::DynamicStorageCreateError(
                DynamicStorageCreateError::InsufficientPermissions,
            ) => ZeroCopyCreationError::InsufficientPermissions,
            DynamicStorageOpenOrCreateError::DynamicStorageOpenError(
                DynamicStorageOpenError::VersionMismatch,
            ) => ZeroCopyCreationError::VersionMismatch,
            DynamicStorageOpenOrCreateError::DynamicStorageOpenError(
                DynamicStorageOpenError::InitializationNotYetFinalized,
            ) => ZeroCopyCreationError::InitializationNotYetFinalized,
            _ => ZeroCopyCreationError::InternalError,
        }
    }

    /// Creates the block under the connection's name, or, where one
    /// exists, checks that it was created with the same settings.
    pub fn create_or_open_shm(&self, slot: &mut Option<SharedManagementData>) -> (result: Result<
        (),
        ZeroCopyCreationError,
    >)
        requires
            spec_slot_wf(*old(slot)),
            old(slot).is_none() ==> self@.fits(),
        ensures
            spec_slot_wf(*final(slot)),
            (spec_slot_view(*final(slot)), result) == self@.spec_create_or_open(spec_slot_view(*old(slot))),
            old(slot).is_some() ==> *final(slot) == *old(slot),
    {
        match slot {
            None => {
                proof {
                    use_type_invariant(self);
                }
                let block = SharedManagementData::new(
                    self.buffer_size,
                    self.buffer_size + self.max_borrowed_samples + 1,
                    self.enable_safe_overflow,
                    self.max_borrowed_samples,
                    self.number_of_samples_per_segment,
                    self.number_of_segments,
                );
                *slot = Some(block);
                Ok(())
            },
            Some(existing) => {
                let buffer_size = existing.submission_channel.capacity();
                let completion_size = existing.completion_channel.capacity();
                if buffer_size != self.buffer_size {
                    return Err(ZeroCopyCreationError::IncompatibleBufferSize);
                }
                if completion_size as u128 != self.buffer_size as u128 + self.max_borrowed_samples as u128 + 1 {
                    return Err(ZeroCopyCreationError::IncompatibleMaxBorrowedSampleSetting);
                }
                if existing.enable_safe_overflow != self.enable_safe_overflow {
                    return Err(ZeroCopyCreationError::IncompatibleOverflowSetting);
                }
                if existing.number_of_samples_per_segment != self.number_of_samples_per_segment {
                    return Err(ZeroCopyCreationError::IncompatibleNumberOfSamples);
                }
                if existing.number_of_segments != self.number_of_segments {
                    return Err(ZeroCopyCreationError::IncompatibleNumberOfSegments);
                }
                Ok(())
            },
        }
    }

    /// Sets the bit `new_state` in the state byte, unless a port holds it
    /// already or the connection is marked for destruction.
    pub fn reserve_port(&self, mgmt_ref: &mut SharedManagementData, new_state: u8) -> (result: Result<
        (),
        ZeroCopyCreationError,
    >)
        requires
            old(mgmt_ref).wf(),
        ensures
            final(mgmt_ref).wf(),
            match old(mgmt_ref)@.spec_reserved(new_state) {
                Ok(reserved) => result == Ok::<(), ZeroCopyCreationError>(()) && final(mgmt_ref)@ == reserved,
                Err(e) => result == Err::<(), ZeroCopyCreationError>(e) && *final(mgmt_ref) == *old(mgmt_ref),
            },
    {
        let state = reserve_port_step(mgmt_ref.state, new_state)?;
        mgmt_ref.state = state;
        proof {
            let expected = old(mgmt_ref)@.spec_reserved(new_state).unwrap();
            assert(mgmt_ref@.used =~= expected.used);
            assert(mgmt_ref@.sample_sizes =~= expected.sample_sizes);
            assert(mgmt_ref@ =~= expected);
        }
        Ok(())
    }

    /// Attaches the port that holds `bit`.
    fn create_port(&self, slot: &mut Option<SharedManagementData>, bit: u8) -> (result: Result<
        (),
        ZeroCopyCreationError,
    >)
        requires
            spec_slot_wf(*old(slot)),
            old(slot).is_none() ==> self@.fits(),
        ensures
            spec_slot_wf(*final(slot)),
            (spec_slot_view(*final(slot)), result) == self@.spec_create_port(spec_slot_view(*old(slot)), bit),
    {
        let ghost before = spec_slot_view(*old(slot));
        match self.create_or_open_shm(slot) {
            Err(e) => {
                return Err(e);
            },
            Ok(()) => {},
        }
        let opened = slot.take();
        match opened {
            None => Ok(()),
            Some(mut block) => {
                let ghost opened_view = block@;
                let result = self.reserve_port(&mut block, bit);
                *slot = Some(block);
                result
            },
        }
    }

    /// Attaches a sender to the connection, creating the connection if
    /// there is none. A connection has room for one sender.
    pub fn create_sender(self, slot: &mut Option<SharedManagementData>) -> (result: Result<
        Sender,
        ZeroCopyCreationError,
    >)
        requires
            spec_slot_wf(*old(slot)),
            old(slot).is_none() ==> self@.fits(),
        ensures
            spec_slot_wf(*final(slot)),
            spec_slot_view(*final(slot)) == self@.spec_create_port(spec_slot_view(*old(slot)), STATE_SENDER).0,
            match self@.spec_create_port(spec_slot_view(*old(slot)), STATE_SENDER).1 {
                Ok(()) => result matches Ok(sender) && sender.spec_name() == self.spec_name(),
                Err(e) => result matches Err(error) && error == e,
            },
    {
        self.create_port(slot, STATE_SENDER)?;
        Ok(Sender { name: self.name })
    }

    /// Attaches a receiver to the connection, creating the connection if
    /// there is none. A connection has room for one receiver, which starts
    /// with no sample borrowed.
    pub fn create_receiver(self, slot: &mut Option<SharedManagementData>) -> (result: Result<
        Receiver,
        ZeroCopyCreationError,
    >)
        requires
            spec_slot_wf(*old(slot)),
            old(slot).is_none() ==> self@.fits(),
        ensures
            spec_slot_wf(*final(slot)),
            spec_slot_view(*final(slot)) == self@.spec_create_port(spec_slot_view(*old(slot)), STATE_RECEIVER).0,
            match self@.spec_create_port(spec_slot_view(*old(slot)), STATE_RECEIVER).1 {
                Ok(()) => result matches Ok(receiver) && receiver.spec_borrow_counter() == 0 && receiver.spec_name()
                    == self.spec_name(),
                Err(e) => result matches Err(error) && error == e,
            },
    {
        self.create_port(slot, STATE_RECEIVER)?;
        Ok(Receiver { borrow_counter: 0, name: self.name })
    }
}

} // verus!
