//! The sending side of publish-subscribe: a publisher loans buckets from
//! its data segment, hands their addresses to every connected subscriber
//! and takes them back when the subscribers are done.
//!
//! A bucket can be held by the user as a loan, by the history, and by every
//! connection that has its address in flight. The publisher counts these
//! holders per bucket and returns a bucket to the data segment when the
//! count drops to zero.
//!
//! The management blocks of the connections live in memory that the
//! publisher shares with its subscribers. Here they are the entries of a
//! vector with one slot per subscriber, which every operation takes by
//! exclusive reference.

use vstd::prelude::*;
use crate::connection_laws::{
    lemma_fresh_connection_is_consistent, lemma_locate_after_forget, lemma_reclaim_keeps_consistency,
    lemma_send_keeps_consistency, spec_protocol_consistent,
};
use crate::data_segment::{DataSegment, DataSegmentType};
use crate::history::{History, MAX_HISTORY_SIZE, OffsetAndSize};
use crate::naming_scheme::connection_name;
use crate::pointer_offset::{spec_offset_of, spec_segment_of, MAX_OFFSET, PointerOffset, SegmentId};
use crate::publisher_model::{
    lemma_balance_at, lemma_can_send, lemma_empty_flight_means_empty_channels, lemma_flight_names_a_bucket,
    lemma_held_is_no_unsent_loan, lemma_history_is_no_unsent_loan, lemma_holder_change, lemma_holders_bound,
    lemma_holders_update, lemma_live_is_countable, lemma_nothing_is_live, lemma_occurrences_bound,
    lemma_occurrences_push, lemma_occurrences_skip, lemma_product_and_more, lemma_reclaimed_all_holds_less,
    lemma_send_changes_holding, lemma_slots_stay_ok, lemma_state_is_irrelevant, lemma_unsent_holds_nothing,
    lemma_word_names_its_bucket, spec_all_reclaimed, spec_bucket_of, spec_connect, spec_creation_result,
    spec_deliver_step, spec_delivery_from, spec_delivery_outcome, spec_gives_up, spec_holders, spec_holds,
    spec_live, spec_loans_untouched, spec_occurrences, spec_populate_outcome, spec_populated, spec_pristine,
    spec_recipients, spec_reclaimed_all, spec_reconciled_slot, spec_refusal, spec_replayed, spec_send_outcome,
    spec_settled,
    spec_sent_via, spec_update_outcome, spec_views, PublisherModel,
};
use crate::shm_allocator::{AllocationStrategy, Layout, ShmAllocationError};
use crate::zero_copy_connection::{
    spec_after_detach, spec_slot_view, spec_slot_wf, Builder, ConnectionView, Sender, SharedManagementData,
    ZeroCopyCreationError, ZeroCopyPortRemoveError, ZeroCopySendError, STATE_SENDER,
};

verus! {

/// Greatest number of subscriber slots a publisher keeps connections for.
pub const MAX_SUBSCRIBER_SLOTS: usize = 0x03ff_ffff;

/// Why a publisher could not be created.
#[derive(Debug, PartialEq, Eq, Structural, Copy, Clone)]
pub enum PublisherCreateError {
    /// The service has as many publishers as it supports.
    ExceedsMaxSupportedPublishers,
    /// The data segment for the payload could not be created.
    UnableToCreateDataSegment,
}

/// Why a publisher could not loan a sample.
#[derive(Debug, PartialEq, Eq, Structural, Copy, Clone, Hash)]
pub enum PublisherLoanError {
    /// The data segment has no bucket left.
    OutOfMemory,
    /// The user holds as many loans as the publisher allows.
    ExceedsMaxLoanedSamples,
    /// The slice is longer than the publisher's greatest slice length.
    ExceedsMaxLoanSize,
    /// The implementation or the system's configuration is at fault.
    InternalFailure,
}

/// Why a connection to a subscriber could not be established.
#[derive(Debug, PartialEq, Eq, Structural, Copy, Clone)]
pub enum ConnectionFailure {
    FailedToEstablishConnection(ZeroCopyCreationError),
    UnableToMapPublishersDataSegment(crate::data_segment::SharedMemoryOpenError),
}

/// Why a sample could not be sent.
#[derive(Debug, Eq, PartialEq, Structural, Copy, Clone)]
pub enum PublisherSendError {
    /// The publisher of the sample is gone.
    ConnectionBrokenSincePublisherNoLongerExists,
    /// A connection to a subscriber is corrupted.
    ConnectionCorrupted,
    /// The memory for the payload could not be loaned.
    LoanError(PublisherLoanError),
    /// A connection to a subscriber could not be established.
    ConnectionError(ConnectionFailure),
}

impl PublisherSendError {
    pub fn from_loan_error(value: PublisherLoanError) -> (error: PublisherSendError)
        ensures
            error == PublisherSendError::LoanError(value),
    {
        PublisherSendError::LoanError(value)
    }

    pub fn from_connection_failure(value: ConnectionFailure) -> (error: PublisherSendError)
        ensures
            error == PublisherSendError::ConnectionError(value),
    {
        PublisherSendError::ConnectionError(value)
    }
}

/// Why a port could not be removed from all of its connections.
#[derive(Debug, Eq, PartialEq, Structural, Clone, Copy)]
pub enum RemovePubSubPortFromAllConnectionsError {
    CleanupRaceDetected,
    InsufficientPermissions,
    VersionMismatch,
    InternalError,
}

/// What a publisher does with a sample that a subscriber has no room for.
#[derive(Debug, Eq, PartialEq, Structural, Clone, Copy)]
pub enum UnableToDeliverStrategy {
    /// Wait until the subscriber has room.
    Block,
    /// Leave the subscriber out.
    DiscardSample,
}

/// What a publisher does about a connection that has degraded.
#[derive(Debug, Eq, PartialEq, Structural, Clone, Copy)]
pub enum DegrationAction {
    /// Go on without a word.
    Ignore,
    /// Go on and report it.
    Warn,
    /// Give up with an error.
    Fail,
}

/// Names the error of a forced removal of a port from one connection.
pub fn handle_port_remove_error(result: Result<(), ZeroCopyPortRemoveError>) -> (outcome: Result<
    (),
    RemovePubSubPortFromAllConnectionsError,
>)
    ensures
        outcome == match result {
            Ok(()) => Ok::<(), RemovePubSubPortFromAllConnectionsError>(()),
            Err(ZeroCopyPortRemoveError::DoesNotExist) => Err(
                RemovePubSubPortFromAllConnectionsError::CleanupRaceDetected,
            ),
            Err(ZeroCopyPortRemoveError::InsufficientPermissions) => Err(
                RemovePubSubPortFromAllConnectionsError::InsufficientPermissions,
            ),
            Err(ZeroCopyPortRemoveError::VersionMismatch) => Err(
                RemovePubSubPortFromAllConnectionsError::VersionMismatch,
            ),
            Err(ZeroCopyPortRemoveError::InternalError) => Err(RemovePubSubPortFromAllConnectionsError::InternalError),
        },
{
    match result {
        Ok(()) => Ok(()),
        Err(ZeroCopyPortRemoveError::DoesNotExist) => Err(RemovePubSubPortFromAllConnectionsError::CleanupRaceDetected),
        Err(ZeroCopyPortRemoveError::InsufficientPermissions) => Err(
            RemovePubSubPortFromAllConnectionsError::InsufficientPermissions,
        ),
        Err(ZeroCopyPortRemoveError::VersionMismatch) => Err(RemovePubSubPortFromAllConnectionsError::VersionMismatch),
        Err(ZeroCopyPortRemoveError::InternalError) => Err(RemovePubSubPortFromAllConnectionsError::InternalError),
    }
}

/// What a publisher keeps for one segment of its data segment.
pub struct SegmentState {
    sample_reference_counter: Vec<u64>,
    payload_size: usize,
}

impl SegmentState {
    /// Per bucket, the number of holders.
    pub closed spec fn spec_counters(&self) -> Seq<u64> {
        self.sample_reference_counter@
    }

    /// The size of the buckets, or zero as long as it is not known.
    pub closed spec fn spec_payload_size(&self) -> nat {
        self.payload_size as nat
    }

    /// A state for `number_of_samples` buckets without a holder.
    pub fn new(number_of_samples: usize) -> (state: SegmentState)
        ensures
            state.spec_counters() == Seq::new(number_of_samples as nat, |b: int| 0u64),
            state.spec_payload_size() == 0,
    {
        let mut sample_reference_counter: Vec<u64> = Vec::new();
        let mut i: usize = 0;
        while i < number_of_samples
            invariant
                i <= number_of_samples,
                sample_reference_counter@ == Seq::new(i as nat, |b: int| 0u64),
            decreases number_of_samples - i,
        {
            sample_reference_counter.push(0);
            i += 1;
            assert(sample_reference_counter@ =~= Seq::new(i as nat, |b: int| 0u64));
        }
        SegmentState { sample_reference_counter, payload_size: 0 }
    }

    pub fn set_payload_size(&mut self, value: usize)
        ensures
            final(self).spec_payload_size() == value,
            final(self).spec_counters() == old(self).spec_counters(),
    {
        self.payload_size = value;
    }

    pub fn payload_size(&self) -> (size: usize)
        ensures
            size == self.spec_payload_size(),
    {
        self.payload_size
    }

    /// The index of the bucket at the byte distance `distance_to_chunk`.
    pub fn sample_index(&self, distance_to_chunk: usize) -> (index: usize)
        requires
            self.spec_payload_size() > 0,
        ensures
            index == distance_to_chunk as nat / self.spec_payload_size(),
    {
        distance_to_chunk / self.payload_size
    }

    /// Counts one more holder of the bucket at `distance_to_chunk` and
    /// returns the count before.
    pub fn borrow_sample(&mut self, distance_to_chunk: usize) -> (before: u64)
        requires
            old(self).spec_payload_size() > 0,
            distance_to_chunk as nat / old(self).spec_payload_size() < old(self).spec_counters().len(),
            old(self).spec_counters()[(distance_to_chunk as nat / old(self).spec_payload_size()) as int] < u64::MAX,
        ensures
            final(self).spec_payload_size() == old(self).spec_payload_size(),
            before == old(self).spec_counters()[(distance_to_chunk as nat / old(self).spec_payload_size()) as int],
            final(self).spec_counters() == old(self).spec_counters().update(
                (distance_to_chunk as nat / old(self).spec_payload_size()) as int,
                (before + 1) as u64,
            ),
    {
        let index = self.sample_index(distance_to_chunk);
        let before = self.sample_reference_counter[index];
        self.sample_reference_counter[index] = before + 1;
        before
    }

    /// Counts one holder less of the bucket at `distance_to_chunk` and
    /// returns the count before.
    pub fn release_sample(&mut self, distance_to_chunk: usize) -> (before: u64)
        requires
            old(self).spec_payload_size() > 0,
            distance_to_chunk as nat / old(self).spec_payload_size() < old(self).spec_counters().len(),
            old(self).spec_counters()[(distance_to_chunk as nat / old(self).spec_payload_size()) as int] > 0,
        ensures
            final(self).spec_payload_size() == old(self).spec_payload_size(),
            before == old(self).spec_counters()[(distance_to_chunk as nat / old(self).spec_payload_size()) as int],
            final(self).spec_counters() == old(self).spec_counters().update(
                (distance_to_chunk as nat / old(self).spec_payload_size()) as int,
                (before - 1) as u64,
            ),
    {
        let index = self.sample_index(distance_to_chunk);
        let before = self.sample_reference_counter[index];
        self.sample_reference_counter[index] = before - 1;
        before
    }
}

/// What a publisher is told when it is created.
#[derive(Debug, Clone, Copy)]
pub struct LocalPublisherConfig {
    /// Greatest number of loans the user may hold at once.
    pub max_loaned_samples: usize,
    pub unable_to_deliver_strategy: UnableToDeliverStrategy,
    /// What the user wants done about a degraded connection, if anything.
    pub degration_callback: Option<DegrationAction>,
    pub initial_max_slice_len: usize,
    pub allocation_strategy: AllocationStrategy,
}

/// What the registry of a service says about a subscriber.
#[derive(Debug, Clone, Copy, PartialEq, Eq, Structural)]
pub struct SubscriberDetails {
    pub subscriber_id: u128,
    pub node_id: u128,
    pub buffer_size: usize,
}

/// What the registry of a service says about a publisher.
#[derive(Debug, Clone, Copy, PartialEq, Eq, Structural)]
pub struct PublisherDetails {
    pub publisher_id: u128,
    pub node_id: u128,
    pub number_of_samples: usize,
    pub max_slice_len: usize,
    pub data_segment_type: DataSegmentType,
    pub max_number_of_segments: u8,
}

/// The settings of a publish-subscribe service.
#[derive(Debug, Clone, Copy, PartialEq, Eq, Structural)]
pub struct StaticConfig {
    pub max_subscribers: usize,
    pub max_publishers: usize,
    pub max_nodes: usize,
    pub history_size: usize,
    pub subscriber_max_buffer_size: usize,
    pub subscriber_max_borrowed_samples: usize,
    pub enable_safe_overflow: bool,
}

impl StaticConfig {
    /// Number of buckets a publisher needs so that it can never run out
    /// while every subscriber holds and has queued as much as it may, the
    /// history is full and the user holds `publisher_max_loaned_samples`
    /// loans: all of these, and one to spare.
    pub open spec fn spec_required_amount_of_samples_per_data_segment(
        &self,
        publisher_max_loaned_samples: nat,
    ) -> nat {
        (self.max_subscribers * (self.subscriber_max_buffer_size + self.subscriber_max_borrowed_samples)
            + self.history_size + publisher_max_loaned_samples + 1) as nat
    }

    /// Computes the number of buckets a publisher needs, or `None` if it
    /// is no machine number.
    pub fn required_amount_of_samples_per_data_segment(&self, publisher_max_loaned_samples: usize) -> (samples:
        Option<usize>)
        ensures
            match samples {
                Some(n) => n == self.spec_required_amount_of_samples_per_data_segment(
                    publisher_max_loaned_samples as nat,
                ),
                None => self.spec_required_amount_of_samples_per_data_segment(publisher_max_loaned_samples as nat)
                    > usize::MAX,
            },
    {
        let per_subscriber = match self.subscriber_max_buffer_size.checked_add(self.subscriber_max_borrowed_samples) {
            Some(v) => v,
            None => {
                proof {
                    lemma_product_and_more(
                        self.max_subscribers as nat,
                        (self.subscriber_max_buffer_size + self.subscriber_max_borrowed_samples) as nat,
                    );
                }
                return if self.max_subscribers == 0 {
                    match self.history_size.checked_add(publisher_max_loaned_samples) {
                        Some(v) => v.checked_add(1),
                        None => None,
                    }
                } else {
                    None
                };
            },
        };
        let for_subscribers = match self.max_subscribers.checked_mul(per_subscriber) {
            Some(v) => v,
            None => {
                return None;
            },
        };
        let with_history = match for_subscribers.checked_add(self.history_size) {
            Some(v) => v,
            None => {
                return None;
            },
        };
        let with_loans = match with_history.checked_add(publisher_max_loaned_samples) {
            Some(v) => v,
            None => {
                return None;
            },
        };
        with_loans.checked_add(1)
    }
}

/// The sending port that a publisher holds for one subscriber.
#[derive(Debug)]
pub struct Connection {
    sender: Sender,
    subscriber_id: u128,
}

impl Connection {
    pub closed spec fn spec_subscriber_id(&self) -> u128 {
        self.subscriber_id
    }

    pub fn subscriber_id(&self) -> (id: u128)
        ensures
            id == self.spec_subscriber_id(),
    {
        self.subscriber_id
    }
}

/// The port of a publisher that does the work.
pub struct PublisherBackend {
    segment_states: Vec<SegmentState>,
    data_segment: DataSegment,
    port_id: u128,
    config: LocalPublisherConfig,
    connections: Vec<Option<Connection>>,
    subscriber_list_state: Vec<Option<SubscriberDetails>>,
    history: Option<History>,
    static_config: StaticConfig,
    number_of_samples: usize,
    max_number_of_segments: u8,
    loan_counter: usize,
    is_active: bool,
    loaned: Ghost<Set<u64>>,
}

impl PublisherBackend {
    pub closed spec fn view(&self) -> PublisherModel {
        PublisherModel {
            counters: Seq::new(self.segment_states.len() as nat, |s: int| self.segment_states[s].spec_counters()),
            payload_sizes: Seq::new(
                self.segment_states.len() as nat,
                |s: int| self.segment_states[s].spec_payload_size(),
            ),
            data: self.data_segment@,
            connected: Seq::new(
                self.connections.len() as nat,
                |i: int|
                    match self.connections[i] {
                        Some(connection) => Some(connection.spec_subscriber_id()),
                        None => None,
                    },
            ),
            history: match self.history {
                Some(history) => history@,
                None => Seq::empty(),
            },
            history_size: match self.history {
                Some(history) => history.spec_capacity(),
                None => 0,
            },
            loaned: self.loaned@,
            loan_counter: self.loan_counter as nat,
            max_loaned_samples: self.config.max_loaned_samples as nat,
            is_active: self.is_active,
            number_of_samples: self.number_of_samples as nat,
            max_number_of_segments: self.max_number_of_segments,
            subscriber_max_borrowed_samples: self.static_config.subscriber_max_borrowed_samples as nat,
            enable_safe_overflow: self.static_config.enable_safe_overflow,
            unable_to_deliver_strategy: self.config.unable_to_deliver_strategy,
            degration_action: self.config.degration_callback,
            subscribers: self.subscriber_list_state@,
            port_id: self.port_id,
        }
    }

    /// What holds of the publisher by itself, whatever the shared memory
    /// holds.
    pub closed spec fn inv(&self) -> bool {
        &&& self@.well_formed()
        &&& self.data_segment.wf()
        &&& self.subscriber_list_state.len() == self.connections.len()
        &&& match self.history {
            Some(history) => history.spec_capacity() >= 1,
            None => true,
        }
    }

    /// The publisher and the shared memory fit together: every slot is in
    /// order and the reference counts balance.
    pub closed spec fn wf(&self, shm: Seq<Option<SharedManagementData>>) -> bool {
        &&& self.inv()
        &&& shm.len() == self.connections.len()
        &&& forall|i: int| 0 <= i < shm.len() ==> self@.spec_slot_ok(self@.connected[i], #[trigger] shm[i])
        &&& self@.spec_balanced(spec_views(shm))
    }

    /// Reference-count balance: on a well-formed publisher the number of
    /// holders that is counted for a bucket is the number of its holders,
    /// which are the loan of the user, the entries of the history and the
    /// connections that have the bucket in flight; the data segment has
    /// handed out exactly the buckets that have a holder; and every slot
    /// of the shared memory is in order.
    pub proof fn lemma_reference_counts_balance(&self, shm: Seq<Option<SharedManagementData>>)
        requires
            self.wf(shm),
        ensures
            self@.well_formed(),
            self@.spec_balanced(spec_views(shm)),
            shm.len() == self@.connected.len(),
            forall|i: int| 0 <= i < shm.len() ==> self@.spec_slot_ok(self@.connected[i], #[trigger] shm[i]),
    {
    }

    pub fn port_id(&self) -> (id: u128)
        ensures
            id == self@.port_id,
    {
        self.port_id
    }

    pub fn number_of_samples(&self) -> (samples: usize)
        ensures
            samples == self@.number_of_samples,
    {
        self.number_of_samples
    }

    pub fn max_number_of_segments(&self) -> (segments: u8)
        ensures
            segments == self@.max_number_of_segments,
    {
        self.max_number_of_segments
    }

    pub fn loan_counter(&self) -> (loans: usize)
        ensures
            loans == self@.loan_counter,
    {
        self.loan_counter
    }

    /// Greatest number of loans the user may hold at once.
    pub fn max_loaned_samples(&self) -> (loans: usize)
        ensures
            loans == self@.max_loaned_samples,
    {
        self.config.max_loaned_samples
    }

    /// What the publisher does with a sample that a subscriber has no room
    /// for.
    pub fn unable_to_deliver_strategy(&self) -> (strategy: UnableToDeliverStrategy)
        ensures
            strategy == self@.unable_to_deliver_strategy,
    {
        self.config.unable_to_deliver_strategy
    }

    pub fn is_active(&self) -> (active: bool)
        ensures
            active == self@.is_active,
    {
        self.is_active
    }

    /// Number of subscriber slots.
    pub fn number_of_slots(&self) -> (slots: usize)
        ensures
            slots == self@.connected.len(),
    {
        self.connections.len()
    }

    /// The subscriber that the publisher is connected to in the slot
    /// `index`.
    pub fn connected_subscriber(&self, index: usize) -> (subscriber: Option<u128>)
        requires
            index < self@.connected.len(),
        ensures
            subscriber == self@.connected[index as int],
    {
        match &self.connections[index] {
            Some(connection) => Some(connection.subscriber_id),
            None => None,
        }
    }

    /// Number of holders that is counted for the bucket at `offset`.
    pub fn reference_count(&self, offset: PointerOffset) -> (count: u64)
        requires
            self.inv(),
        ensures
            count == self@.spec_refcount(offset.0),
    {
        let segment = offset.segment_id().value() as usize;
        if segment >= self.data_segment.number_of_segments() {
            return 0;
        }
        proof {
            self.data_segment.lemma_wf_view();
        }
        let size = self.data_segment.bucket_size(SegmentId::new(segment as u8)) as u64;
        let distance: u64 = offset.as_value() >> 8;
        if distance % size != 0 {
            return 0;
        }
        let bucket = distance / size;
        if bucket >= self.number_of_samples as u64 {
            return 0;
        }
        assert(self@.counters[segment as int].len() == self.number_of_samples);
        self.segment_states[segment].sample_reference_counter[bucket as usize]
    }
}

impl PublisherBackend {
    /// Counts one more holder of the bucket at `offset`. Returns the count
    /// before and the size of the bucket.
    fn borrow_sample(&mut self, offset: PointerOffset) -> (result: (u64, usize))
        requires
            old(self).inv(),
            spec_bucket_of(old(self)@.data, offset.0).is_some(),
            old(self)@.spec_refcount(offset.0) < u64::MAX,
        ensures
            final(self).inv(),
            final(self)@ == (PublisherModel {
                counters: final(self)@.counters,
                payload_sizes: final(self)@.payload_sizes,
                ..old(self)@
            }),
            result.0 == old(self)@.spec_refcount(offset.0),
            result.1 == old(self)@.data.bucket_sizes[offset.spec_segment_id() as int],
            forall|w: u64| #[trigger]
                final(self)@.spec_refcount(w) == old(self)@.spec_refcount(w) + if w == offset.0 {
                    1nat
                } else {
                    0nat
                },
    {
        let segment_id = offset.segment_id();
        let segment = segment_id.value() as usize;
        proof {
            self.data_segment.lemma_wf_view();
        }
        let payload_size = self.data_segment.bucket_size(segment_id);
        let ghost bucket = spec_bucket_of(self@.data, offset.0).unwrap().1;
        assert(self@.counters[segment as int].len() == self.number_of_samples);
        assert(self@.payload_sizes[segment as int] == 0 || self@.payload_sizes[segment as int] == payload_size);
        self.segment_states[segment].set_payload_size(payload_size);
        let distance: u64 = offset.as_value() >> 8;
        let index = (distance / (payload_size as u64)) as usize;
        let before = self.segment_states[segment].sample_reference_counter[index];
        self.segment_states[segment].sample_reference_counter[index] = before + 1;
        proof {
            let expected = PublisherModel {
                counters: old(self)@.counters.update(
                    segment as int,
                    old(self)@.counters[segment as int].update(bucket, (before + 1) as u64),
                ),
                payload_sizes: old(self)@.payload_sizes.update(segment as int, payload_size as nat),
                ..old(self)@
            };
            assert(self@.counters =~= expected.counters) by {
                assert forall|s: int| 0 <= s < self@.counters.len() implies self@.counters[s] =~= expected.counters[s] by {}
            }
            assert(self@.payload_sizes =~= expected.payload_sizes);
            assert(self@.connected =~= expected.connected);
            assert(self@ =~= expected);
            assert forall|w: u64| #[trigger]
                self@.spec_refcount(w) == old(self)@.spec_refcount(w) + if w == offset.0 {
                    1nat
                } else {
                    0nat
                } by {
                lemma_word_names_its_bucket(self@.data, segment as int, bucket, w);
                lemma_word_names_its_bucket(self@.data, segment as int, bucket, offset.0);
            }
        }
        (before, payload_size)
    }

    /// Counts one holder less of the bucket at `offset`, and gives the
    /// bucket back to the data segment if that was its last holder.
    fn release_sample(&mut self, offset: PointerOffset)
        requires
            old(self).inv(),
            spec_bucket_of(old(self)@.data, offset.0).is_some(),
            old(self)@.spec_refcount(offset.0) >= 1,
            old(self)@.data.spec_is_allocated(offset),
        ensures
            final(self).inv(),
            final(self)@ == (PublisherModel {
                counters: final(self)@.counters,
                data: final(self)@.data,
                ..old(self)@
            }),
            forall|w: u64| #[trigger]
                final(self)@.spec_refcount(w) + (if w == offset.0 {
                    1nat
                } else {
                    0nat
                }) == old(self)@.spec_refcount(w),
            forall|w: u64| #[trigger]
                final(self)@.data.spec_is_allocated(PointerOffset(w)) == (old(self)@.data.spec_is_allocated(
                    PointerOffset(w),
                ) && !(w == offset.0 && old(self)@.spec_refcount(offset.0) == 1)),
            final(self)@.data.spec_same_layout(old(self)@.data),
    {
        let segment_id = offset.segment_id();
        let segment = segment_id.value() as usize;
        proof {
            self.data_segment.lemma_wf_view();
        }
        let payload_size = self.data_segment.bucket_size(segment_id);
        let ghost bucket = spec_bucket_of(self@.data, offset.0).unwrap().1;
        assert(self@.counters[segment as int].len() == self.number_of_samples);
        let distance: u64 = offset.as_value() >> 8;
        let index = (distance / (payload_size as u64)) as usize;
        let before = self.segment_states[segment].sample_reference_counter[index];
        self.segment_states[segment].sample_reference_counter[index] = before - 1;
        if before == 1 {
            self.data_segment.deallocate_bucket(offset);
        }
        proof {
            self.data_segment.lemma_wf_view();
            let expected = PublisherModel {
                counters: old(self)@.counters.update(
                    segment as int,
                    old(self)@.counters[segment as int].update(bucket, (before - 1) as u64),
                ),
                data: self.data_segment@,
                ..old(self)@
            };
            assert(self@.counters =~= expected.counters) by {
                assert forall|s: int| 0 <= s < self@.counters.len() implies self@.counters[s] =~= expected.counters[s] by {}
            }
            assert(self@.payload_sizes =~= expected.payload_sizes);
            assert(self@.connected =~= expected.connected);
            assert(self@ =~= expected);
            assert forall|w: u64| #[trigger]
                self@.spec_refcount(w) + (if w == offset.0 {
                    1nat
                } else {
                    0nat
                }) == old(self)@.spec_refcount(w) by {
                lemma_word_names_its_bucket(old(self)@.data, segment as int, bucket, w);
                lemma_word_names_its_bucket(old(self)@.data, segment as int, bucket, offset.0);
            }
            assert forall|w: u64| #[trigger]
                self@.data.spec_is_allocated(PointerOffset(w)) == (old(self)@.data.spec_is_allocated(PointerOffset(w))
                    && !(w == offset.0 && old(self)@.spec_refcount(offset.0) == 1)) by {
                if old(self)@.data.spec_is_allocated(PointerOffset(w)) {
                    let s = spec_segment_of(w) as int;
                    let b = spec_offset_of(w) as int / (old(self)@.data.bucket_sizes[s] as int);
                    lemma_word_names_its_bucket(old(self)@.data, s, b, w);
                    lemma_word_names_its_bucket(old(self)@.data, segment as int, bucket, offset.0);
                }
            }
            assert forall|k: int| 0 <= k < self@.history.len() implies {
                &&& spec_bucket_of(self@.data, (#[trigger] self@.history[k]).offset).is_some()
                &&& self@.history[k].size == self@.data.bucket_sizes[spec_segment_of(self@.history[k].offset) as int]
            } by {
                assert(spec_bucket_of(old(self)@.data, old(self)@.history[k].offset).is_some());
            }
        }
    }
}

impl PublisherBackend {
    /// Takes everything off the completion channel of the connection in
    /// the slot `index` and lets go of the buckets that come back.
    fn reclaim_from(&mut self, shm: &mut Vec<Option<SharedManagementData>>, index: usize)
        requires
            old(self).wf(old(shm)@),
            index < old(shm).len(),
            old(self)@.connected[index as int].is_some(),
        ensures
            final(self).wf(final(shm)@),
            final(shm).len() == old(shm).len(),
            forall|i: int| 0 <= i < old(shm).len() && i != index ==> final(shm)[i] == old(shm)[i],
            final(shm)[index as int].is_some(),
            final(shm)[index as int].unwrap()@ == spec_reclaimed_all(old(shm)[index as int].unwrap()@),
            final(self)@ == (PublisherModel {
                counters: final(self)@.counters,
                data: final(self)@.data,
                ..old(self)@
            }),
            final(self)@.data.spec_same_layout(old(self)@.data),
            spec_loans_untouched(old(self)@, final(self)@),
    {
        let ghost before = old(shm)@;
        proof {
            assert(self@.spec_slot_ok(self@.connected[index as int], before[index as int]));
        }
        let taken = shm[index].take();
        let mut block = match taken {
            Some(block) => block,
            None => {
                return ;
            },
        };
        let ghost start = block@;
        proof {
            assert(shm@ =~= before.update(index as int, None));
            assert(before.update(index as int, Some(block)) =~= before);
        }
        loop
            invariant
                index < shm.len(),
                index < before.len(),
                shm@ == before.update(index as int, None),
                before == old(shm)@,
                before[index as int].is_some(),
                start == before[index as int].unwrap()@,
                self.wf(before.update(index as int, Some(block))),
                self@.connected[index as int].is_some(),
                spec_reclaimed_all(block@) == spec_reclaimed_all(start),
                self@ == (PublisherModel { counters: self@.counters, data: self@.data, ..old(self)@ }),
                self@.data.spec_same_layout(old(self)@.data),
                spec_loans_untouched(old(self)@, self@),
            ensures
                block@.completion.len() == 0,
            decreases block@.completion.len(),
        {
            let ghost shm_before = before.update(index as int, Some(block));
            let ghost view_before = block@;
            let ghost model_before = self@;
            proof {
                assert(self@.spec_slot_ok(self@.connected[index as int], shm_before[index as int]));
                block.lemma_wf_view();
                lemma_reclaim_keeps_consistency(view_before);
            }
            let connection = match &self.connections[index] {
                Some(connection) => connection,
                None => {
                    break ;
                },
            };
            let result = connection.sender.reclaim(&mut block);
            let ghost shm_after = before.update(index as int, Some(block));
            proof {
                assert(spec_views(shm_after) =~= spec_views(shm_before).update(index as int, Some(block@)));
                assert(spec_views(shm_before)[index as int] == Some(view_before));
            }
            match result {
                Ok(Some(ptr)) => {
                    let ghost popped = ConnectionView { completion: view_before.completion.skip(1), ..view_before };
                    proof {
                        assert(popped.spec_locate(ptr.0) == view_before.spec_locate(ptr.0));
                        lemma_flight_names_a_bucket(model_before, view_before, ptr.0);
                        lemma_holders_update(spec_views(shm_before), index as int, Some(block@), ptr.0);
                        lemma_locate_after_forget(popped, ptr.0, ptr.0);
                        assert(spec_holds(Some(view_before), ptr.0) == 1);
                        assert(model_before.spec_refcount(ptr.0) == spec_live(
                            model_before.loaned,
                            model_before.history,
                            spec_views(shm_before),
                            ptr.0,
                        ));
                        lemma_held_is_no_unsent_loan(model_before, spec_views(shm_before), index as int, ptr.0);
                    }
                    self.release_sample(ptr);
                    proof {
                        assert forall|w: u64| #[trigger] old(self)@.spec_is_unsent_loan(w) implies self@.spec_is_unsent_loan(
                            w,
                        ) by {
                            assert(model_before.spec_is_unsent_loan(w));
                            assert(self@.spec_refcount(w) + (if w == ptr.0 {
                                1nat
                            } else {
                                0nat
                            }) == model_before.spec_refcount(w));
                        }
                        assert forall|w: u64|
                            {
                                &&& #[trigger] self@.spec_refcount(w) == spec_live(
                                    self@.loaned,
                                    self@.history,
                                    spec_views(shm_after),
                                    w,
                                )
                                &&& self@.data.spec_is_allocated(PointerOffset(w)) <==> self@.spec_refcount(w) > 0
                            } by {
                            lemma_holders_update(spec_views(shm_before), index as int, Some(block@), w);
                            lemma_locate_after_forget(popped, ptr.0, w);
                            assert(popped.spec_locate(w) == view_before.spec_locate(w));
                            assert(model_before.spec_refcount(w) == spec_live(
                                model_before.loaned,
                                model_before.history,
                                spec_views(shm_before),
                                w,
                            ));
                        }
                        assert forall|i: int| 0 <= i < shm_after.len() implies self@.spec_slot_ok(
                            self@.connected[i],
                            #[trigger] shm_after[i],
                        ) by {
                            assert(model_before.spec_slot_ok(model_before.connected[i], shm_before[i]));
                        }
                    }
                },
                Ok(None) => {
                    proof {
                        assert(spec_views(shm_after) =~= spec_views(shm_before));
                        assert forall|i: int| 0 <= i < shm_after.len() implies self@.spec_slot_ok(
                            self@.connected[i],
                            #[trigger] shm_after[i],
                        ) by {
                            assert(model_before.spec_slot_ok(model_before.connected[i], shm_before[i]));
                        }
                    }
                    break ;
                },
                Err(_) => {
                    proof {
                        assert(false);
                    }
                },
            }
        }
        shm[index] = Some(block);
        proof {
            assert(shm@ =~= before.update(index as int, Some(block)));
        }
    }
}

/// A loan: the address of a bucket and the size of the bucket.
#[derive(Debug, Clone, Copy)]
pub struct AllocationPair {
    pub offset: PointerOffset,
    pub sample_size: usize,
}

impl PublisherBackend {
    /// Takes everything off the completion channels of all connections
    /// and lets go of the buckets that come back.
    pub fn retrieve_returned_samples(&mut self, shm: &mut Vec<Option<SharedManagementData>>)
        requires
            old(self).wf(old(shm)@),
        ensures
            final(self).wf(final(shm)@),
            final(shm).len() == old(shm).len(),
            forall|i: int|
                0 <= i < old(shm).len() ==> if old(self)@.connected[i].is_some() {
                    (#[trigger] final(shm)[i]).is_some() && final(shm)[i].unwrap()@ == spec_reclaimed_all(
                        old(shm)[i].unwrap()@,
                    )
                } else {
                    final(shm)[i] == old(shm)[i]
                },
            final(self)@ == (PublisherModel {
                counters: final(self)@.counters,
                data: final(self)@.data,
                ..old(self)@
            }),
            final(self)@.data.spec_same_layout(old(self)@.data),
            spec_loans_untouched(old(self)@, final(self)@),
    {
        let mut i: usize = 0;
        while i < self.connections.len()
            invariant
                i <= self.connections.len(),
                self.wf(shm@),
                shm.len() == old(shm).len(),
                shm.len() == self.connections.len(),
                forall|k: int|
                    0 <= k < i ==> if old(self)@.connected[k].is_some() {
                        (#[trigger] shm[k]).is_some() && shm[k].unwrap()@ == spec_reclaimed_all(old(shm)[k].unwrap()@)
                    } else {
                        shm[k] == old(shm)[k]
                    },
                forall|k: int| i <= k < shm.len() ==> shm[k] == old(shm)[k],
                self@ == (PublisherModel { counters: self@.counters, data: self@.data, ..old(self)@ }),
                self@.data.spec_same_layout(old(self)@.data),
                spec_loans_untouched(old(self)@, self@),
            decreases self.connections.len() - i,
        {
            if self.connections[i].is_some() {
                assert(self@.connected[i as int].is_some());
                self.reclaim_from(shm, i);
            } else {
                assert(self@.connected[i as int].is_none());
            }
            i += 1;
        }
    }

    /// Loans a bucket for a request of the given layout: takes back what
    /// the subscribers have returned, lets the data segment hand out a
    /// bucket, and counts the user as its first holder.
    pub fn allocate(&mut self, shm: &mut Vec<Option<SharedManagementData>>, layout: Layout) -> (result: Result<
        AllocationPair,
        ShmAllocationError,
    >)
        requires
            old(self).wf(old(shm)@),
            old(self)@.loan_counter < usize::MAX,
        ensures
            final(self).wf(final(shm)@),
            final(shm).len() == old(shm).len(),
            forall|i: int|
                0 <= i < old(shm).len() ==> if old(self)@.connected[i].is_some() {
                    (#[trigger] final(shm)[i]).is_some() && final(shm)[i].unwrap()@ == spec_reclaimed_all(
                        old(shm)[i].unwrap()@,
                    )
                } else {
                    final(shm)[i] == old(shm)[i]
                },
            final(self)@.connected == old(self)@.connected,
            final(self)@.history == old(self)@.history,
            final(self)@.is_active == old(self)@.is_active,
            match result {
                Ok(pair) => {
                    &&& !old(self)@.loaned.contains(pair.offset.0)
                    &&& final(self)@.loaned == old(self)@.loaned.insert(pair.offset.0)
                    &&& final(self)@.loan_counter == old(self)@.loan_counter + 1
                    &&& final(self)@.spec_is_unsent_loan(pair.offset.0)
                    &&& spec_bucket_of(final(self)@.data, pair.offset.0).is_some()
                    &&& pair.sample_size == final(self)@.data.bucket_sizes[pair.offset.spec_segment_id() as int]
                    &&& layout.size <= pair.sample_size
                    &&& pair.offset.spec_segment_id() == final(self)@.data.spec_newest()
                    &&& final(self)@.data.spec_same_layout(
                        if old(self)@.data.spec_fits(layout) {
                            old(self)@.data
                        } else {
                            old(self)@.data.spec_grown(
                                old(self)@.data.spec_grown_layout(layout).0,
                                old(self)@.data.spec_grown_layout(layout).1,
                            )
                        },
                    )
                },
                Err(e) => {
                    &&& final(self)@.loaned == old(self)@.loaned
                    &&& final(self)@.loan_counter == old(self)@.loan_counter
                    &&& final(self)@.data.spec_same_layout(old(self)@.data)
                    &&& spec_refusal(final(self)@.data, layout, e)
                },
            },
    {
        self.retrieve_returned_samples(shm);
        let ghost before = self@;
        let ghost views = spec_views(shm@);
        let ptr = match self.data_segment.allocate(layout) {
            Ok(ptr) => ptr,
            Err(e) => {
                proof {
                    assert(self@ =~= before);
                }
                return Err(e);
            },
        };
        proof {
            self.data_segment.lemma_wf_view();
            let data = self@.data;
            let segment = ptr.spec_segment_id() as int;
            let bucket = (ptr.spec_offset() / data.bucket_sizes[segment]) as int;
            assert(spec_bucket_of(data, ptr.0) == Some((segment, bucket)));
            assert forall|s: int| 0 <= s < before.data.bucket_sizes.len() implies data.bucket_sizes[s]
                == before.data.bucket_sizes[s] by {}
            assert forall|w: u64| spec_bucket_of(before.data, w).is_some() implies spec_bucket_of(data, w)
                == spec_bucket_of(before.data, w) by {}
            assert forall|k: int| 0 <= k < self@.history.len() implies {
                &&& spec_bucket_of(self@.data, (#[trigger] self@.history[k]).offset).is_some()
                &&& self@.history[k].size == self@.data.bucket_sizes[spec_segment_of(self@.history[k].offset) as int]
            } by {
                assert(spec_bucket_of(before.data, before.history[k].offset).is_some());
            }
            assert(self@.counters =~= before.counters);
            assert(self@.payload_sizes =~= before.payload_sizes);
            assert(self@.connected =~= before.connected);
            assert(before.spec_refcount(ptr.0) == spec_live(before.loaned, before.history, views, ptr.0));
            assert(!before.data.spec_is_allocated(PointerOffset(ptr.0)));
            assert(self@.spec_refcount(ptr.0) == 0) by {
                if spec_bucket_of(before.data, ptr.0).is_some() {
                    assert(before.spec_refcount(ptr.0) == 0);
                } else {
                    assert(self@.counters[segment][bucket] == 0);
                }
            }
            assert forall|w: u64|
                {
                    &&& #[trigger] self@.spec_refcount(w) == before.spec_refcount(w)
                    &&& self@.data.spec_is_allocated(PointerOffset(w)) == (before.data.spec_is_allocated(
                        PointerOffset(w),
                    ) || w == ptr.0)
                } by {
                lemma_word_names_its_bucket(data, segment, bucket, w);
                lemma_word_names_its_bucket(data, segment, bucket, ptr.0);
                if spec_bucket_of(before.data, w).is_none() && spec_bucket_of(data, w).is_some() {
                    let (s, b) = spec_bucket_of(data, w).unwrap();
                    assert(self@.counters[s][b] == 0);
                }
                if before.data.spec_is_allocated(PointerOffset(w)) {
                    let s = spec_segment_of(w) as int;
                    assert(before.data.allocated[s].contains(spec_offset_of(w) as int / (before.data.bucket_sizes[s] as int)));
                }
            }
        }
        let ghost allocated = self@;
        let (ref_count, sample_size) = self.borrow_sample(ptr);
        let ghost borrowed = self@;
        self.loan_counter = self.loan_counter + 1;
        proof {
            self.loaned@ = self.loaned@.insert(ptr.0);
            assert(self@.connected =~= before.connected);
            assert(self@.counters =~= borrowed.counters);
            assert(self@.payload_sizes =~= borrowed.payload_sizes);
            assert forall|w: u64|
                {
                    &&& #[trigger] self@.spec_refcount(w) == spec_live(self@.loaned, self@.history, views, w)
                    &&& self@.data.spec_is_allocated(PointerOffset(w)) <==> self@.spec_refcount(w) > 0
                } by {
                assert(before.spec_refcount(w) == spec_live(before.loaned, before.history, views, w));
                assert(before.data.spec_is_allocated(PointerOffset(w)) <==> before.spec_refcount(w) > 0);
                assert(allocated.spec_refcount(w) == before.spec_refcount(w));
                assert(borrowed.spec_refcount(w) == allocated.spec_refcount(w) + if w == ptr.0 {
                    1nat
                } else {
                    0nat
                });
                assert(self@.spec_refcount(w) == borrowed.spec_refcount(w));
            }
            assert forall|i: int| 0 <= i < shm.len() implies self@.spec_slot_ok(self@.connected[i], #[trigger] shm[i]) by {
                assert(before.spec_slot_ok(before.connected[i], shm[i]));
            }
        }
        Ok(AllocationPair { offset: ptr, sample_size })
    }

    /// Takes back a loan that the user no longer wants: the user stops
    /// being a holder of the bucket.
    pub fn return_loaned_sample(&mut self, shm: &Vec<Option<SharedManagementData>>, distance_to_chunk: PointerOffset)
        requires
            old(self).wf(shm@),
            old(self)@.loaned.contains(distance_to_chunk.0),
        ensures
            final(self).wf(shm@),
            final(self)@ == (PublisherModel {
                counters: final(self)@.counters,
                data: final(self)@.data,
                loaned: old(self)@.loaned.remove(distance_to_chunk.0),
                loan_counter: (old(self)@.loan_counter - 1) as nat,
                ..old(self)@
            }),
            final(self)@.data.spec_same_layout(old(self)@.data),
    {
        let ghost before = self@;
        let ghost views = spec_views(shm@);
        proof {
            assert(before.spec_refcount(distance_to_chunk.0) == spec_live(
                before.loaned,
                before.history,
                views,
                distance_to_chunk.0,
            ));
            assert(before.loaned.len() > 0) by {
                vstd::set::axiom_set_contains_len(before.loaned, distance_to_chunk.0);
            }
        }
        self.release_sample(distance_to_chunk);
        let ghost released = self@;
        self.loan_counter = self.loan_counter - 1;
        proof {
            self.loaned@ = self.loaned@.remove(distance_to_chunk.0);
            assert(self@.connected =~= before.connected);
            assert(self@.counters =~= released.counters);
            assert(self@.payload_sizes =~= released.payload_sizes);
            assert forall|w: u64|
                {
                    &&& #[trigger] self@.spec_refcount(w) == spec_live(self@.loaned, self@.history, views, w)
                    &&& self@.data.spec_is_allocated(PointerOffset(w)) <==> self@.spec_refcount(w) > 0
                } by {
                assert(before.spec_refcount(w) == spec_live(before.loaned, before.history, views, w));
                assert(before.data.spec_is_allocated(PointerOffset(w)) <==> before.spec_refcount(w) > 0);
                assert(released.spec_refcount(w) + (if w == distance_to_chunk.0 {
                    1nat
                } else {
                    0nat
                }) == before.spec_refcount(w));
                assert(released.data.spec_is_allocated(PointerOffset(w)) == (before.data.spec_is_allocated(
                    PointerOffset(w),
                ) && !(w == distance_to_chunk.0 && before.spec_refcount(distance_to_chunk.0) == 1)));
                assert(self@.spec_refcount(w) == released.spec_refcount(w));
            }
            assert forall|i: int| 0 <= i < shm.len() implies self@.spec_slot_ok(self@.connected[i], #[trigger] shm[i]) by {
                assert(before.spec_slot_ok(before.connected[i], shm[i]));
            }
        }
    }
}

impl PublisherBackend {
    /// Puts the sample at `offset` into the history, if there is one. The
    /// history becomes a holder of the bucket; when the history was full,
    /// its oldest sample leaves and stops being a holder of its bucket.
    pub fn add_sample_to_history(
        &mut self,
        shm: &Vec<Option<SharedManagementData>>,
        offset: PointerOffset,
        sample_size: usize,
    )
        requires
            old(self).wf(shm@),
            old(self)@.loaned.contains(offset.0),
            spec_occurrences(old(self)@.history, offset.0) == 0,
            sample_size == old(self)@.data.bucket_sizes[offset.spec_segment_id() as int],
        ensures
            final(self).wf(shm@),
            final(self)@ == (PublisherModel {
                counters: final(self)@.counters,
                payload_sizes: final(self)@.payload_sizes,
                data: final(self)@.data,
                history: if old(self)@.history_size == 0 {
                    old(self)@.history
                } else {
                    History::spec_after_push(
                        old(self)@.history,
                        old(self)@.history_size,
                        OffsetAndSize { offset: offset.0, size: sample_size },
                    )
                },
                ..old(self)@
            }),
            final(self)@.data.spec_same_layout(old(self)@.data),
    {
        if self.history.is_none() {
            return ;
        }
        let ghost before = self@;
        let ghost views = spec_views(shm@);
        let entry = OffsetAndSize { offset: offset.as_value(), size: sample_size };
        proof {
            assert(before.spec_refcount(offset.0) == spec_live(before.loaned, before.history, views, offset.0));
            assert(before.data.spec_is_allocated(PointerOffset(offset.0)) <==> before.spec_refcount(offset.0) > 0);
            lemma_live_is_countable(before, views, offset.0);
            self.data_segment.lemma_wf_view();
        }
        self.borrow_sample(offset);
        let ghost borrowed = self@;
        let evicted = match &mut self.history {
            Some(history) => history.push_with_overflow(entry),
            None => None,
        };
        let ghost pushed = self@;
        proof {
            assert(pushed.counters =~= borrowed.counters);
            assert(pushed.payload_sizes =~= borrowed.payload_sizes);
            assert(pushed.connected =~= borrowed.connected);
            assert(pushed.history == History::spec_after_push(before.history, before.history_size, entry));
            assert forall|w: u64| #[trigger] pushed.spec_refcount(w) == borrowed.spec_refcount(w) by {}
            lemma_occurrences_bound(before.history, offset.0);
            if evicted.is_some() {
                assert(pushed.history =~= before.history.skip(1).push(entry));
            } else {
                assert(pushed.history =~= before.history.push(entry));
            }
            assert forall|k: int| 0 <= k < pushed.history.len() implies {
                &&& spec_bucket_of(pushed.data, (#[trigger] pushed.history[k]).offset).is_some()
                &&& pushed.history[k].size == pushed.data.bucket_sizes[spec_segment_of(pushed.history[k].offset) as int]
            } by {
                if k < pushed.history.len() - 1 {
                    if evicted.is_some() {
                        assert(pushed.history[k] == before.history[k + 1]);
                    } else {
                        assert(pushed.history[k] == before.history[k]);
                    }
                }
            }
            assert forall|j: int, k: int| 0 <= j < k < pushed.history.len() implies (#[trigger] pushed.history[j]).offset
                != (#[trigger] pushed.history[k]).offset by {
                if evicted.is_some() {
                    assert(pushed.history[j] == before.history[j + 1]);
                    if k < pushed.history.len() - 1 {
                        assert(pushed.history[k] == before.history[k + 1]);
                    }
                } else {
                    assert(pushed.history[j] == before.history[j]);
                    if k < pushed.history.len() - 1 {
                        assert(pushed.history[k] == before.history[k]);
                    }
                }
            }
            assert(pushed.well_formed());
        }
        match evicted {
            None => {
                proof {
                    assert forall|w: u64|
                        {
                            &&& #[trigger] self@.spec_refcount(w) == spec_live(self@.loaned, self@.history, views, w)
                            &&& self@.data.spec_is_allocated(PointerOffset(w)) <==> self@.spec_refcount(w) > 0
                        } by {
                        assert(before.spec_refcount(w) == spec_live(before.loaned, before.history, views, w));
                        assert(before.data.spec_is_allocated(PointerOffset(w)) <==> before.spec_refcount(w) > 0);
                        assert(borrowed.spec_refcount(w) == before.spec_refcount(w) + if w == offset.0 {
                            1nat
                        } else {
                            0nat
                        });
                        lemma_occurrences_push(before.history, entry, w);
                    }
                    assert forall|i: int| 0 <= i < shm.len() implies self@.spec_slot_ok(
                        self@.connected[i],
                        #[trigger] shm[i],
                    ) by {
                        assert(before.spec_slot_ok(before.connected[i], shm[i]));
                    }
                }
            },
            Some(old) => {
                let old_ptr = PointerOffset::from_value(old.offset);
                proof {
                    assert(old == before.history[0]);
                    assert(spec_bucket_of(before.data, old.offset).is_some());
                    lemma_occurrences_bound(before.history, old.offset);
                    assert(before.spec_refcount(old.offset) == spec_live(
                        before.loaned,
                        before.history,
                        views,
                        old.offset,
                    ));
                    assert(before.data.spec_is_allocated(PointerOffset(old.offset)) <==> before.spec_refcount(old.offset)
                        > 0);
                    assert(borrowed.spec_refcount(old.offset) == before.spec_refcount(old.offset) + if old.offset
                        == offset.0 {
                        1nat
                    } else {
                        0nat
                    });
                    assert(pushed.spec_refcount(old.offset) == borrowed.spec_refcount(old.offset));
                }
                self.release_sample(old_ptr);
                proof {
                    let released = self@;
                    assert forall|w: u64|
                        {
                            &&& #[trigger] self@.spec_refcount(w) == spec_live(self@.loaned, self@.history, views, w)
                            &&& self@.data.spec_is_allocated(PointerOffset(w)) <==> self@.spec_refcount(w) > 0
                        } by {
                        assert(before.spec_refcount(w) == spec_live(before.loaned, before.history, views, w));
                        assert(before.data.spec_is_allocated(PointerOffset(w)) <==> before.spec_refcount(w) > 0);
                        assert(borrowed.spec_refcount(w) == before.spec_refcount(w) + if w == offset.0 {
                            1nat
                        } else {
                            0nat
                        });
                        assert(pushed.spec_refcount(w) == borrowed.spec_refcount(w));
                        assert(released.spec_refcount(w) + (if w == old.offset {
                            1nat
                        } else {
                            0nat
                        }) == pushed.spec_refcount(w));
                        assert(released.data.spec_is_allocated(PointerOffset(w)) == (pushed.data.spec_is_allocated(
                            PointerOffset(w),
                        ) && !(w == old.offset && pushed.spec_refcount(old.offset) == 1)));
                        lemma_occurrences_skip(before.history, w);
                        lemma_occurrences_push(before.history.skip(1), entry, w);
                    }
                    assert forall|i: int| 0 <= i < shm.len() implies self@.spec_slot_ok(
                        self@.connected[i],
                        #[trigger] shm[i],
                    ) by {
                        assert(before.spec_slot_ok(before.connected[i], shm[i]));
                    }
                }
            },
        }
    }
}

/// What became of the delivery of a sample to one subscriber.
#[derive(Debug, Clone, Copy, PartialEq, Eq, Structural)]
pub enum DeliverStep {
    /// The subscriber has the sample in its buffer.
    Delivered,
    /// The subscriber has no room and is left out.
    Skipped,
    /// The subscriber has no room and the publisher has to wait for it.
    Wait,
}

/// What became of the delivery of a sample to the subscribers.
#[derive(Debug, Clone, Copy, PartialEq, Eq, Structural)]
pub enum Delivery {
    /// Every connected subscriber was served or left out; so many have
    /// the sample.
    Done { recipients: usize },
    /// The subscriber in the slot `connection` has no room and the
    /// publisher has to wait for it; so many of the slots before it have
    /// the sample. The delivery goes on from that slot.
    Blocked { connection: usize, recipients: usize },
}

/// What a publisher does when it finds a connection corrupted: it gives up
/// only if the user asked for that.
pub fn on_corrupted_connection(action: Option<DegrationAction>) -> (outcome: Result<(), PublisherSendError>)
    ensures
        outcome == match action {
            Some(DegrationAction::Fail) => Err::<(), PublisherSendError>(PublisherSendError::ConnectionCorrupted),
            _ => Ok(()),
        },
{
    match action {
        Some(DegrationAction::Fail) => Err(PublisherSendError::ConnectionCorrupted),
        _ => Ok(()),
    }
}

impl PublisherBackend {
    /// Delivers the sample at `offset` to the subscriber in the slot
    /// `index`. A subscriber that gets the sample becomes a holder of the
    /// bucket; a sample that it gives up for it stops being held by it.
    fn deliver_to(
        &mut self,
        shm: &mut Vec<Option<SharedManagementData>>,
        index: usize,
        offset: PointerOffset,
        sample_size: usize,
        strategy: UnableToDeliverStrategy,
    ) -> (result: Result<DeliverStep, PublisherSendError>)
        requires
            old(self).wf(old(shm)@),
            index < old(shm).len(),
            old(self)@.connected[index as int].is_some(),
            spec_bucket_of(old(self)@.data, offset.0).is_some(),
            old(self)@.spec_refcount(offset.0) > 0,
            spec_holds(spec_views(old(shm)@)[index as int], offset.0) == 0,
            sample_size == old(self)@.data.bucket_sizes[offset.spec_segment_id() as int],
        ensures
            final(self).wf(final(shm)@),
            final(shm).len() == old(shm).len(),
            forall|i: int| 0 <= i < old(shm).len() && i != index ==> final(shm)[i] == old(shm)[i],
            final(shm)[index as int].is_some(),
            result == Ok::<DeliverStep, PublisherSendError>(
                spec_deliver_step(old(shm)[index as int].unwrap()@, strategy, offset, sample_size as nat),
            ),
            (result == Ok::<DeliverStep, PublisherSendError>(DeliverStep::Delivered)) == old(shm)[index as int].unwrap()@.spec_try_send(
                offset,
                sample_size as nat,
            ).1.is_ok(),
            final(self)@.spec_refcount(offset.0) >= old(self)@.spec_refcount(offset.0),
            forall|w: u64| w != offset.0 && #[trigger] old(self)@.spec_is_unsent_loan(w) ==> final(self)@.spec_is_unsent_loan(w),
            final(shm)[index as int].unwrap()@ == old(shm)[index as int].unwrap()@.spec_try_send(
                offset,
                sample_size as nat,
            ).0,
            final(self)@ == (PublisherModel {
                counters: final(self)@.counters,
                payload_sizes: final(self)@.payload_sizes,
                data: final(self)@.data,
                ..old(self)@
            }),
            final(self)@.data.spec_same_layout(old(self)@.data),
    {
        let ghost before = old(shm)@;
        let ghost model_before = self@;
        proof {
            assert(self@.spec_slot_ok(self@.connected[index as int], before[index as int]));
        }
        let taken = shm[index].take();
        let mut block = match taken {
            Some(block) => block,
            None => {
                return Ok(DeliverStep::Skipped);
            },
        };
        let ghost view_before = block@;
        let ghost views_before = spec_views(before);
        proof {
            assert(shm@ =~= before.update(index as int, None));
            assert(views_before[index as int] == Some(view_before));
            block.lemma_wf_view();
            if !view_before.spec_send_rejected() {
                lemma_can_send(model_before, view_before, offset, sample_size as nat);
            }
            lemma_send_keeps_consistency(view_before, offset, sample_size as nat);
        }
        let connection = match &self.connections[index] {
            Some(connection) => connection,
            None => {
                shm[index] = Some(block);
                return Ok(DeliverStep::Skipped);
            },
        };
        let result = match strategy {
            UnableToDeliverStrategy::Block => match connection.sender.blocking_send(&mut block, offset, sample_size) {
                crate::zero_copy_connection::BlockingSend::Wait => {
                    shm[index] = Some(block);
                    proof {
                        self.lemma_same_views_keep_wf(before, shm@);
                    }
                    return Ok(DeliverStep::Wait);
                },
                crate::zero_copy_connection::BlockingSend::Done(result) => result,
            },
            UnableToDeliverStrategy::DiscardSample => connection.sender.try_send(&mut block, offset, sample_size),
        };
        let ghost view_after = block@;
        shm[index] = Some(block);
        proof {
            assert(shm@ =~= before.update(index as int, Some(block)));
            assert(spec_views(shm@) =~= views_before.update(index as int, Some(view_after)));
        }
        match result {
            Err(ZeroCopySendError::ReceiveBufferFull) | Err(ZeroCopySendError::UsedChunkListFull) => {
                proof {
                    self.lemma_same_views_keep_wf(before, shm@);
                }
                Ok(DeliverStep::Skipped)
            },
            Err(ZeroCopySendError::ConnectionCorrupted) => {
                proof {
                    assert(false);
                }
                match on_corrupted_connection(self.config.degration_callback) {
                    Ok(()) => Ok(DeliverStep::Skipped),
                    Err(e) => Err(e),
                }
            },
            Ok(overflow) => {
                proof {
                    assert(model_before.spec_refcount(offset.0) == spec_live(
                        model_before.loaned,
                        model_before.history,
                        views_before,
                        offset.0,
                    ));
                    lemma_live_is_countable(model_before, views_before, offset.0);
                    lemma_send_changes_holding(view_before, offset, sample_size as nat, offset.0);
                }
                self.borrow_sample(offset);
                let ghost borrowed = self@;
                let ghost lost: Option<u64> = match overflow {
                    Some(old) => Some(old.0),
                    None => None,
                };
                match overflow {
                    None => {},
                    Some(old) => {
                        proof {
                            if old.0 != offset.0 {
                                lemma_flight_names_a_bucket(model_before, view_before, old.0);
                                assert(spec_holds(views_before[index as int], old.0) == 1);
                                lemma_held_is_no_unsent_loan(model_before, views_before, index as int, old.0);
                                lemma_holders_bound(views_before, old.0);
                                assert(model_before.spec_refcount(old.0) == spec_live(
                                    model_before.loaned,
                                    model_before.history,
                                    views_before,
                                    old.0,
                                ));
                            }
                            assert(model_before.data.spec_is_allocated(PointerOffset(old.0)) <==> model_before.spec_refcount(
                                old.0,
                            ) > 0);
                            assert(borrowed.spec_refcount(old.0) == model_before.spec_refcount(old.0) + if old.0
                                == offset.0 {
                                1nat
                            } else {
                                0nat
                            });
                        }
                        self.release_sample(old);
                    },
                }
                proof {
                    assert forall|w: u64| w != offset.0 && #[trigger] model_before.spec_is_unsent_loan(
                        w,
                    ) implies self@.spec_is_unsent_loan(w) by {
                        assert(borrowed.spec_refcount(w) == model_before.spec_refcount(w) + if w == offset.0 {
                            1nat
                        } else {
                            0nat
                        });
                        assert(self@.spec_refcount(w) + (if lost == Some(w) {
                            1nat
                        } else {
                            0nat
                        }) == borrowed.spec_refcount(w));
                    }
                    assert(borrowed.spec_refcount(offset.0) == model_before.spec_refcount(offset.0) + 1);
                    assert(self@.spec_refcount(offset.0) + (if lost == Some(offset.0) {
                        1nat
                    } else {
                        0nat
                    }) == borrowed.spec_refcount(offset.0));
                    assert forall|w: u64|
                        (#[trigger] view_after.spec_locate(w)).is_some() == ((view_before.spec_locate(w).is_some()
                            || Some(offset.0) == Some(w)) && lost != Some(w)) by {
                        lemma_send_changes_holding(view_before, offset, sample_size as nat, w);
                    }
                    lemma_holder_change(
                        model_before,
                        borrowed,
                        self@,
                        views_before,
                        index as int,
                        view_after,
                        Some(offset.0),
                        lost,
                    );
                    lemma_can_send(model_before, view_before, offset, sample_size as nat);
                    lemma_slots_stay_ok(model_before, self@, before, shm@, index as int);
                }
                Ok(DeliverStep::Delivered)
            },
        }
    }

    /// A publisher stays well-formed when blocks are replaced by
    /// well-formed blocks of the same content.
    proof fn lemma_same_views_keep_wf(&self, before: Seq<Option<SharedManagementData>>, after: Seq<Option<SharedManagementData>>)
        requires
            self.wf(before),
            after.len() == before.len(),
            forall|i: int|
                0 <= i < before.len() ==> match (#[trigger] before[i], after[i]) {
                    (Some(a), Some(b)) => b.wf() && a@ == b@,
                    (None, None) => true,
                    _ => false,
                },
        ensures
            self.wf(after),
    {
        assert(spec_views(after) =~= spec_views(before));
        assert forall|i: int| 0 <= i < after.len() implies self@.spec_slot_ok(self@.connected[i], #[trigger] after[i]) by {
            assert(self@.spec_slot_ok(self@.connected[i], before[i]));
        }
    }
}

impl PublisherBackend {
    /// Delivers the sample at `offset` to the subscribers in the slots
    /// from `first` on, the way the publisher was told to deal with
    /// subscribers that have no room. `recipients` is the number of
    /// subscribers that got the sample before.
    pub fn deliver_sample_from(
        &mut self,
        shm: &mut Vec<Option<SharedManagementData>>,
        offset: PointerOffset,
        sample_size: usize,
        first: usize,
        recipients: usize,
    ) -> (result: Result<Delivery, PublisherSendError>)
        requires
            old(self).wf(old(shm)@),
            first <= old(shm).len(),
            recipients <= first,
            old(self)@.spec_refcount(offset.0) > 0,
            forall|i: int| first <= i < old(shm).len() ==> spec_holds(#[trigger] spec_views(old(shm)@)[i], offset.0) == 0,
            sample_size == old(self)@.data.bucket_sizes[offset.spec_segment_id() as int],
        ensures
            result is Ok,
            final(self).wf(final(shm)@),
            final(shm).len() == old(shm).len(),
            final(self)@ == (PublisherModel {
                counters: final(self)@.counters,
                payload_sizes: final(self)@.payload_sizes,
                data: final(self)@.data,
                ..old(self)@
            }),
            final(self)@.data.spec_same_layout(old(self)@.data),
            forall|i: int| 0 <= i < first ==> final(shm)[i] == old(shm)[i],
            spec_delivery_from(
                old(self)@.connected,
                old(self)@.unable_to_deliver_strategy,
                spec_views(old(shm)@),
                spec_views(final(shm)@),
                offset,
                sample_size as nat,
                first as int,
                recipients as nat,
                result.unwrap(),
            ),
            ({
                let stop = match result.unwrap() {
                    Delivery::Done { recipients } => old(shm).len() as int,
                    Delivery::Blocked { connection, recipients } => connection as int,
                };
                let served = match result.unwrap() {
                    Delivery::Done { recipients } => recipients,
                    Delivery::Blocked { connection, recipients } => recipients,
                };
                &&& first <= stop <= old(shm).len()
                &&& served == recipients + spec_recipients(
                    spec_views(old(shm)@),
                    old(self)@.connected,
                    offset,
                    sample_size as nat,
                    first as int,
                    stop,
                )
                &&& forall|i: int|
                    first <= i < stop ==> if old(self)@.connected[i].is_some() {
                        (#[trigger] final(shm)[i]).is_some() && final(shm)[i].unwrap()@ == old(shm)[i].unwrap()@.spec_try_send(
                            offset,
                            sample_size as nat,
                        ).0
                    } else {
                        final(shm)[i] == old(shm)[i]
                    }
                &&& forall|i: int|
                    stop <= i < old(shm).len() ==> crate::zero_copy_connection::spec_slot_view(#[trigger] final(shm)[i])
                        == crate::zero_copy_connection::spec_slot_view(old(shm)[i])
                &&& result.unwrap() is Blocked ==> {
                    &&& stop < old(shm).len()
                    &&& old(self)@.connected[stop].is_some()
                    &&& old(self)@.unable_to_deliver_strategy == UnableToDeliverStrategy::Block
                    &&& old(shm)[stop].unwrap()@.spec_send_rejected()
                }
                &&& result.unwrap() is Done && old(self)@.unable_to_deliver_strategy == UnableToDeliverStrategy::Block
                    ==> forall|i: int|
                    first <= i < stop && old(self)@.connected[i].is_some() ==> !(#[trigger] old(shm)[i]).unwrap()@.spec_send_rejected()
            }),
    {
        let strategy = self.config.unable_to_deliver_strategy;
        let ghost views = spec_views(old(shm)@);
        let ghost connected = self@.connected;
        let mut number_of_recipients = recipients;
        let mut i: usize = first;
        proof {
            assert(spec_bucket_of(self@.data, offset.0).is_some());
            assert forall|k: int| 0 <= k < shm.len() && connected[k].is_some() implies (#[trigger] old(shm)[k]).is_some() by {
                assert(self@.spec_slot_ok(self@.connected[k], old(shm)[k]));
            }
        }
        while i < self.connections.len()
            invariant
                first <= i <= self.connections.len(),
                self.wf(shm@),
                shm.len() == old(shm).len(),
                shm.len() == self.connections.len(),
                strategy == old(self)@.unable_to_deliver_strategy,
                views == spec_views(old(shm)@),
                connected == old(self)@.connected,
                self@ == (PublisherModel {
                    counters: self@.counters,
                    payload_sizes: self@.payload_sizes,
                    data: self@.data,
                    ..old(self)@
                }),
                self@.data.spec_same_layout(old(self)@.data),
                spec_bucket_of(self@.data, offset.0).is_some(),
                self@.spec_refcount(offset.0) > 0,
                sample_size == self@.data.bucket_sizes[offset.spec_segment_id() as int],
                number_of_recipients <= i,
                number_of_recipients == recipients + spec_recipients(
                    views,
                    connected,
                    offset,
                    sample_size as nat,
                    first as int,
                    i as int,
                ),
                forall|k: int| 0 <= k < first ==> shm[k] == old(shm)[k],
                forall|k: int|
                    first <= k < i ==> if connected[k].is_some() {
                        (#[trigger] shm[k]).is_some() && shm[k].unwrap()@ == old(shm)[k].unwrap()@.spec_try_send(
                            offset,
                            sample_size as nat,
                        ).0
                    } else {
                        shm[k] == old(shm)[k]
                    },
                forall|k: int| i <= k < shm.len() ==> shm[k] == old(shm)[k],
                forall|k: int| first <= k < shm.len() ==> spec_holds(#[trigger] views[k], offset.0) == 0,
                forall|k: int| 0 <= k < shm.len() && connected[k].is_some() ==> (#[trigger] old(shm)[k]).is_some(),
                strategy == UnableToDeliverStrategy::Block ==> forall|k: int|
                    first <= k < i && connected[k].is_some() ==> !(#[trigger] old(shm)[k]).unwrap()@.spec_send_rejected(),
            decreases self.connections.len() - i,
        {
            if self.connections[i].is_some() {
                let ghost model_before = self@;
                proof {
                    assert(self@.connected[i as int].is_some());
                    assert(spec_views(shm@)[i as int] == views[i as int]);
                    assert(self@.spec_slot_ok(self@.connected[i as int], shm@[i as int]));
                    assert(model_before.spec_balanced(spec_views(shm@)));
                }
                let step = match self.deliver_to(shm, i, offset, sample_size, strategy) {
                    Ok(step) => step,
                    Err(e) => {
                        return Err(e);
                    },
                };
                proof {
                    let view = old(shm)[i as int].unwrap()@;
                    assert(views[i as int] == Some(view));
                }
                match step {
                    DeliverStep::Wait => {
                        proof {
                            let views_after = spec_views(shm@);
                            assert forall|k: int| first <= k < i implies (#[trigger] views_after[k]) == if connected[k].is_some()
                                && views[k].is_some() {
                                Some(views[k].unwrap().spec_try_send(offset, sample_size as nat).0)
                            } else {
                                views[k]
                            } by {
                                if connected[k].is_some() {
                                    assert(shm[k].is_some());
                                    assert(old(shm)[k].is_some());
                                } else {
                                    assert(shm[k] == old(shm)[k]);
                                }
                            }
                            assert forall|k: int| 0 <= k < first || i <= k < views.len() implies (
                            #[trigger] views_after[k]) == views[k] by {
                                if k != i {
                                    assert(shm[k] == old(shm)[k]);
                                }
                            }
                        }
                        return Ok(Delivery::Blocked { connection: i, recipients: number_of_recipients });
                    },
                    DeliverStep::Delivered => {
                        number_of_recipients = number_of_recipients + 1;
                    },
                    DeliverStep::Skipped => {},
                }
            } else {
                assert(self@.connected[i as int].is_none());
            }
            i += 1;
        }
        proof {
            let views_after = spec_views(shm@);
            assert forall|k: int| first <= k < views.len() implies (#[trigger] views_after[k]) == if connected[k].is_some()
                && views[k].is_some() {
                Some(views[k].unwrap().spec_try_send(offset, sample_size as nat).0)
            } else {
                views[k]
            } by {
                if connected[k].is_some() {
                    assert(shm[k].is_some());
                    assert(old(shm)[k].is_some());
                } else {
                    assert(shm[k] == old(shm)[k]);
                }
            }
            assert forall|k: int| 0 <= k < first implies (#[trigger] views_after[k]) == views[k] by {
                assert(shm[k] == old(shm)[k]);
            }
        }
        Ok(Delivery::Done { recipients: number_of_recipients })
    }

    /// Delivers the sample at `offset` to all connected subscribers, after
    /// taking back what they have returned.
    pub fn deliver_sample(
        &mut self,
        shm: &mut Vec<Option<SharedManagementData>>,
        offset: PointerOffset,
        sample_size: usize,
    ) -> (result: Result<Delivery, PublisherSendError>)
        requires
            old(self).wf(old(shm)@),
            old(self)@.spec_refcount(offset.0) > 0,
            spec_holders(spec_views(old(shm)@), offset.0) == 0,
            sample_size == old(self)@.data.bucket_sizes[offset.spec_segment_id() as int],
        ensures
            result is Ok,
            final(self).wf(final(shm)@),
            final(shm).len() == old(shm).len(),
            final(self)@ == (PublisherModel {
                counters: final(self)@.counters,
                payload_sizes: final(self)@.payload_sizes,
                data: final(self)@.data,
                ..old(self)@
            }),
            final(self)@.data.spec_same_layout(old(self)@.data),
            spec_delivery_outcome(
                old(self)@.connected,
                old(self)@.unable_to_deliver_strategy,
                spec_views(old(shm)@),
                spec_views(final(shm)@),
                offset,
                sample_size as nat,
                result.unwrap(),
            ),
            ({
                let stop = match result.unwrap() {
                    Delivery::Done { recipients } => old(shm).len() as int,
                    Delivery::Blocked { connection, recipients } => connection as int,
                };
                let served = match result.unwrap() {
                    Delivery::Done { recipients } => recipients,
                    Delivery::Blocked { connection, recipients } => recipients,
                };
                let reclaimed = spec_all_reclaimed(spec_views(old(shm)@), old(self)@.connected);
                &&& 0 <= stop <= old(shm).len()
                &&& served == spec_recipients(reclaimed, old(self)@.connected, offset, sample_size as nat, 0, stop)
                &&& forall|i: int|
                    0 <= i < stop ==> if old(self)@.connected[i].is_some() {
                        (#[trigger] final(shm)[i]).is_some() && final(shm)[i].unwrap()@ == reclaimed[i].unwrap().spec_try_send(
                            offset,
                            sample_size as nat,
                        ).0
                    } else {
                        final(shm)[i] == old(shm)[i]
                    }
                &&& forall|i: int|
                    stop <= i < old(shm).len() ==> crate::zero_copy_connection::spec_slot_view(#[trigger] final(shm)[i])
                        == reclaimed[i]
                &&& result.unwrap() is Blocked ==> {
                    &&& stop < old(shm).len()
                    &&& old(self)@.connected[stop].is_some()
                    &&& old(self)@.unable_to_deliver_strategy == UnableToDeliverStrategy::Block
                    &&& reclaimed[stop].unwrap().spec_send_rejected()
                }
            }),
    {
        let ghost before = self@;
        let ghost views_before = spec_views(shm@);
        self.retrieve_returned_samples(shm);
        let ghost reclaimed = spec_all_reclaimed(views_before, before.connected);
        proof {
            assert(spec_views(shm@) =~= reclaimed);
            lemma_holders_bound(views_before, offset.0);
            assert forall|i: int| 0 <= i < shm.len() implies spec_holds(#[trigger] spec_views(shm@)[i], offset.0) == 0 by {
                assert(spec_holds(views_before[i], offset.0) == 0);
                if before.connected[i].is_some() {
                    assert(before.spec_slot_ok(before.connected[i], old(shm)[i]));
                    old(shm)[i].unwrap().lemma_wf_view();
                    lemma_reclaimed_all_holds_less(views_before[i].unwrap(), offset.0);
                }
            }
            lemma_balance_at(self@, spec_views(shm@), offset.0);
            assert(before.spec_refcount(offset.0) == spec_live(before.loaned, before.history, views_before, offset.0));
            lemma_holders_bound(spec_views(shm@), offset.0);
        }
        let ghost mid = shm@;
        let result = self.deliver_sample_from(shm, offset, sample_size, 0, 0);
        let ghost delivery = result.unwrap();
        proof {
            let views_after = spec_views(shm@);
            let stop = match delivery {
                Delivery::Done { recipients } => old(shm).len() as int,
                Delivery::Blocked { connection, recipients } => connection as int,
            };
            assert forall|i: int| 0 <= i < shm.len() && before.connected[i].is_some() implies reclaimed[i].is_some() by {
                assert(before.spec_slot_ok(before.connected[i], old(shm)[i]));
            }
            assert forall|i: int| 0 <= i < stop implies (#[trigger] views_after[i]) == if before.connected[i].is_some()
                && reclaimed[i].is_some() {
                Some(reclaimed[i].unwrap().spec_try_send(offset, sample_size as nat).0)
            } else {
                reclaimed[i]
            } by {
                assert(spec_views(mid)[i] == reclaimed[i]);
                if before.connected[i].is_some() {
                    assert(shm[i].is_some());
                } else {
                    assert(shm[i] == mid[i]);
                }
            }
            assert forall|i: int| stop <= i < shm.len() implies (#[trigger] views_after[i]) == reclaimed[i] by {
                assert(spec_views(mid)[i] == reclaimed[i]);
                assert(spec_slot_view(shm[i]) == spec_slot_view(mid[i]));
            }
            if delivery is Blocked {
                assert(spec_views(mid)[stop] == reclaimed[stop]);
            }
        }
        result
    }
}

impl PublisherBackend {
    /// Tears down the connection in the slot `index`, if there is one:
    /// takes back every bucket that the connection still has in flight,
    /// detaches the sender, and forgets the block.
    pub fn remove_connection(&mut self, shm: &mut Vec<Option<SharedManagementData>>, index: usize)
        requires
            old(self).wf(old(shm)@),
            index < old(shm).len(),
        ensures
            final(self).wf(final(shm)@),
            final(shm).len() == old(shm).len(),
            forall|i: int| 0 <= i < old(shm).len() && i != index ==> final(shm)[i] == old(shm)[i],
            final(shm)[index as int] == if old(self)@.connected[index as int].is_some() {
                None
            } else {
                old(shm)[index as int]
            },
            final(self)@ == (PublisherModel {
                counters: final(self)@.counters,
                data: final(self)@.data,
                connected: old(self)@.connected.update(index as int, None),
                ..old(self)@
            }),
            final(self)@.data.spec_same_layout(old(self)@.data),
            spec_loans_untouched(old(self)@, final(self)@),
            old(self)@.connected[index as int].is_none() ==> final(self)@ == old(self)@,
    {
        let ghost before = old(shm)@;
        let ghost model_before = self@;
        let ghost views_before = spec_views(before);
        proof {
            assert(self@.spec_slot_ok(self@.connected[index as int], before[index as int]));
        }
        let connection = match self.connections[index].take() {
            Some(connection) => connection,
            None => {
                proof {
                    assert(self.connections@ =~= old(self).connections@);
                    assert(self@.connected =~= model_before.connected.update(index as int, None));
                    assert(self@.counters =~= model_before.counters);
                    assert(self@.payload_sizes =~= model_before.payload_sizes);
                    assert(self@ =~= model_before);
                }
                return ;
            },
        };
        let taken = shm[index].take();
        let mut block = match taken {
            Some(block) => block,
            None => {
                proof {
                    assert(false);
                }
                return ;
            },
        };
        let ghost view_before = block@;
        proof {
            block.lemma_wf_view();
        }
        let offsets = connection.sender.acquire_used_offsets(&mut block);
        let ghost views_after = views_before.update(index as int, None);
        proof {
            assert(shm@ =~= before.update(index as int, None));
            assert(spec_views(shm@) =~= views_after);
            assert(self@.connected =~= model_before.connected.update(index as int, None));
            assert(self@.counters =~= model_before.counters);
            assert(self@.payload_sizes =~= model_before.payload_sizes);
            assert forall|w: u64| #[trigger] self@.spec_refcount(w) == model_before.spec_refcount(w) by {}
            assert(offsets@.skip(0) =~= offsets@);
            assert forall|w: u64|
                {
                    &&& #[trigger] self@.spec_refcount(w) == spec_live(
                        model_before.loaned,
                        model_before.history,
                        views_after,
                        w,
                    ) + if offsets@.skip(0).contains(PointerOffset(w)) {
                        1nat
                    } else {
                        0nat
                    }
                    &&& self@.data.spec_is_allocated(PointerOffset(w)) <==> self@.spec_refcount(w) > 0
                } by {
                lemma_holders_update(views_before, index as int, None, w);
                assert(model_before.spec_refcount(w) == spec_live(
                    model_before.loaned,
                    model_before.history,
                    views_before,
                    w,
                ));
                assert(model_before.data.spec_is_allocated(PointerOffset(w)) <==> model_before.spec_refcount(w) > 0);
                assert(offsets@.contains(PointerOffset(w)) <==> view_before.spec_locate(w).is_some());
            }
        }
        let mut k: usize = 0;
        while k < offsets.len()
            invariant
                k <= offsets.len(),
                index < before.len(),
                index < model_before.connected.len(),
                self.inv(),
                shm@ == before.update(index as int, None),
                views_after == views_before.update(index as int, None),
                views_before == spec_views(before),
                views_before[index as int] == Some(view_before),
                model_before.well_formed(),
                model_before.spec_balanced(views_before),
                model_before.spec_compatible(view_before),
                view_before.well_formed(),
                offsets@.no_duplicates(),
                forall|ptr: PointerOffset| offsets@.contains(ptr) <==> view_before.spec_locate(ptr.0).is_some(),
                self@ == (PublisherModel {
                    counters: self@.counters,
                    data: self@.data,
                    connected: model_before.connected.update(index as int, None),
                    ..model_before
                }),
                self@.data.spec_same_layout(model_before.data),
                self@.data.number_of_samples == model_before.data.number_of_samples,
                spec_loans_untouched(model_before, self@),
                forall|w: u64|
                    {
                        &&& #[trigger] self@.spec_refcount(w) == spec_live(
                            model_before.loaned,
                            model_before.history,
                            views_after,
                            w,
                        ) + if offsets@.skip(k as int).contains(PointerOffset(w)) {
                            1nat
                        } else {
                            0nat
                        }
                        &&& self@.data.spec_is_allocated(PointerOffset(w)) <==> self@.spec_refcount(w) > 0
                    },
            decreases offsets.len() - k,
        {
            let ptr = offsets[k];
            let ghost model_now = self@;
            proof {
                assert(offsets@.contains(ptr));
                assert(offsets@.skip(k as int)[0] == ptr);
                assert(offsets@.skip(k as int).contains(PointerOffset(ptr.0)));
                lemma_flight_names_a_bucket(model_before, view_before, ptr.0);
                assert(spec_bucket_of(self@.data, ptr.0) == spec_bucket_of(model_before.data, ptr.0));
                assert(self@.spec_refcount(ptr.0) >= 1);
                assert(spec_holds(views_before[index as int], ptr.0) == 1);
                lemma_held_is_no_unsent_loan(model_before, views_before, index as int, ptr.0);
            }
            self.release_sample(ptr);
            proof {
                assert forall|w: u64| #[trigger] model_before.spec_is_unsent_loan(w) implies self@.spec_is_unsent_loan(
                    w,
                ) by {
                    assert(model_now.spec_is_unsent_loan(w));
                    assert(self@.spec_refcount(w) + (if w == ptr.0 {
                        1nat
                    } else {
                        0nat
                    }) == model_now.spec_refcount(w));
                }
                let rest = offsets@.skip(k as int);
                let next = offsets@.skip(k as int + 1);
                assert forall|w: u64|
                    {
                        &&& #[trigger] self@.spec_refcount(w) == spec_live(
                            model_before.loaned,
                            model_before.history,
                            views_after,
                            w,
                        ) + if next.contains(PointerOffset(w)) {
                            1nat
                        } else {
                            0nat
                        }
                        &&& self@.data.spec_is_allocated(PointerOffset(w)) <==> self@.spec_refcount(w) > 0
                    } by {
                    assert(model_now.spec_refcount(w) == spec_live(
                        model_before.loaned,
                        model_before.history,
                        views_after,
                        w,
                    ) + if rest.contains(PointerOffset(w)) {
                        1nat
                    } else {
                        0nat
                    });
                    assert(model_now.data.spec_is_allocated(PointerOffset(w)) <==> model_now.spec_refcount(w) > 0);
                    assert(self@.spec_refcount(w) + (if w == ptr.0 {
                        1nat
                    } else {
                        0nat
                    }) == model_now.spec_refcount(w));
                    assert(self@.data.spec_is_allocated(PointerOffset(w)) == (model_now.data.spec_is_allocated(
                        PointerOffset(w),
                    ) && !(w == ptr.0 && model_now.spec_refcount(ptr.0) == 1)));
                    if next.contains(PointerOffset(w)) {
                        let j = choose|j: int| 0 <= j < next.len() && next[j] == PointerOffset(w);
                        assert(rest[j + 1] == PointerOffset(w));
                        assert(offsets@[k + j + 1] == PointerOffset(w));
                        assert(w != ptr.0);
                    }
                    if rest.contains(PointerOffset(w)) && w != ptr.0 {
                        let j = choose|j: int| 0 <= j < rest.len() && rest[j] == PointerOffset(w);
                        assert(j > 0);
                        assert(next[j - 1] == PointerOffset(w));
                    }
                }
            }
            k += 1;
        }
        let mut slot = Some(block);
        match connection {
            Connection { sender, subscriber_id } => {
                sender.detach(&mut slot);
            },
        }
        proof {
            assert(offsets@.skip(offsets.len() as int) =~= Seq::<PointerOffset>::empty());
            assert forall|i: int| 0 <= i < shm.len() implies self@.spec_slot_ok(self@.connected[i], #[trigger] shm[i]) by {
                if i != index {
                    assert(model_before.spec_slot_ok(model_before.connected[i], before[i]));
                }
            }
            assert forall|w: u64|
                {
                    &&& #[trigger] self@.spec_refcount(w) == spec_live(self@.loaned, self@.history, spec_views(shm@), w)
                    &&& self@.data.spec_is_allocated(PointerOffset(w)) <==> self@.spec_refcount(w) > 0
                } by {
                assert(self@.spec_refcount(w) == spec_live(model_before.loaned, model_before.history, views_after, w)
                    + if offsets@.skip(offsets.len() as int).contains(PointerOffset(w)) {
                    1nat
                } else {
                    0nat
                });
            }
        }
    }
}

impl PublisherBackend {
    /// Ends the port: the sender of every connection detaches. Nothing is
    /// taken back from the connections; a block stays behind, with what it
    /// has in flight, exactly where a receiver is still attached to it.
    pub fn detach_all(self, shm: &mut Vec<Option<SharedManagementData>>)
        requires
            self.wf(old(shm)@),
        ensures
            final(shm).len() == old(shm).len(),
            self@.connected.len() == old(shm).len(),
            forall|i: int|
                0 <= i < old(shm).len() ==> {
                    &&& spec_slot_wf(#[trigger] final(shm)[i])
                    &&& spec_slot_view(final(shm)[i]) == if self@.connected[i].is_some() {
                        spec_after_detach(spec_slot_view(old(shm)[i]), STATE_SENDER)
                    } else {
                        spec_slot_view(old(shm)[i])
                    }
                },
    {
        let mut backend = self;
        proof {
            assert forall|k: int| 0 <= k < shm.len() implies spec_slot_wf(#[trigger] shm[k]) by {
                assert(self@.spec_slot_ok(self@.connected[k], shm[k]));
            }
        }
        let mut i: usize = 0;
        while i < shm.len()
            invariant
                i <= shm.len(),
                shm.len() == old(shm).len(),
                backend.connections.len() == shm.len(),
                self.connections.len() == shm.len(),
                self@.connected.len() == shm.len(),
                forall|k: int| i <= k < shm.len() ==> backend.connections[k] == self.connections[k],
                forall|k: int| i <= k < shm.len() ==> shm[k] == old(shm)[k],
                forall|k: int| 0 <= k < shm.len() ==> spec_slot_wf(#[trigger] shm[k]),
                forall|k: int|
                    0 <= k < i ==> spec_slot_view(#[trigger] shm[k]) == if self@.connected[k].is_some() {
                        spec_after_detach(spec_slot_view(old(shm)[k]), STATE_SENDER)
                    } else {
                        spec_slot_view(old(shm)[k])
                    },
            decreases shm.len() - i,
        {
            let ghost slots = shm@;
            match backend.connections[i].take() {
                Some(connection) => {
                    let mut slot = shm[i].take();
                    match connection {
                        Connection { sender, subscriber_id } => {
                            sender.detach(&mut slot);
                        },
                    }
                    shm[i] = slot;
                },
                None => {},
            }
            proof {
                assert forall|k: int| 0 <= k < shm.len() implies spec_slot_wf(#[trigger] shm[k]) by {
                    if k != i {
                        assert(shm[k] == slots[k]);
                    }
                }
                assert forall|k: int| 0 <= k < i implies spec_slot_view(#[trigger] shm[k]) == if self@.connected[k].is_some() {
                    spec_after_detach(spec_slot_view(old(shm)[k]), STATE_SENDER)
                } else {
                    spec_slot_view(old(shm)[k])
                } by {
                    assert(shm[k] == slots[k]);
                }
            }
            i += 1;
        }
    }

    /// Connects the slot `index` to the subscriber `details`: attaches a
    /// sender to the block in the slot, or to a new block if the slot is
    /// empty.
    fn create_connection(
        &mut self,
        shm: &mut Vec<Option<SharedManagementData>>,
        index: usize,
        details: SubscriberDetails,
    ) -> (result: Result<(), ZeroCopyCreationError>)
        requires
            old(self).wf(old(shm)@),
            index < old(shm).len(),
            old(self)@.connected[index as int].is_none(),
        ensures
            final(self).wf(final(shm)@),
            final(shm).len() == old(shm).len(),
            forall|i: int| 0 <= i < old(shm).len() && i != index ==> final(shm)[i] == old(shm)[i],
            spec_slot_view(final(shm)[index as int]) == spec_connect(
                old(self)@.spec_connection_settings(details),
                spec_slot_view(old(shm)[index as int]),
            ).0,
            result == spec_connect(
                old(self)@.spec_connection_settings(details),
                spec_slot_view(old(shm)[index as int]),
            ).1,
            final(self)@ == (PublisherModel {
                connected: if result.is_ok() {
                    old(self)@.connected.update(index as int, Some(details.subscriber_id))
                } else {
                    old(self)@.connected
                },
                ..old(self)@
            }),
            result.is_ok() ==> forall|w: u64| #[trigger] final(shm)[index as int].unwrap()@.spec_locate(w).is_none(),
            result.is_ok() ==> final(shm)[index as int].unwrap()@.submission.len() == 0,
            spec_loans_untouched(old(self)@, final(self)@),
    {
        let ghost before = old(shm)@;
        let ghost model_before = self@;
        let ghost views_before = spec_views(before);
        let ghost settings = model_before.spec_connection_settings(details);
        proof {
            assert(self@.spec_slot_ok(self@.connected[index as int], before[index as int]));
        }
        let name = connection_name(self.port_id, details.subscriber_id);
        let builder = Builder::new(&name).buffer_size(details.buffer_size).receiver_max_borrowed_samples(
            self.static_config.subscriber_max_borrowed_samples,
        ).enable_safe_overflow(self.static_config.enable_safe_overflow).number_of_samples_per_segment(
            self.number_of_samples,
        ).max_supported_shared_memory_segments(self.max_number_of_segments);
        assert(builder@ == settings);
        if shm[index].is_none() && !builder.fits() {
            return Err(ZeroCopyCreationError::InternalError);
        }
        let mut slot = shm[index].take();
        let ghost slot_before = spec_slot_view(slot);
        let created = builder.create_sender(&mut slot);
        let ghost slot_after = spec_slot_view(slot);
        shm[index] = slot;
        proof {
            assert(shm@ =~= before.update(index as int, slot));
            assert(spec_views(shm@) =~= views_before.update(index as int, slot_after));
            if slot_before.is_some() {
                before[index as int].unwrap().lemma_wf_view();
            }
            lemma_fresh_connection_is_consistent(settings);
        }
        match created {
            Err(e) => {
                proof {
                    assert(0u8 & 1u8 == 0 && 0u8 & 0x80u8 == 0) by (bit_vector);
                    assert(slot_after == slot_before);
                    assert(spec_views(shm@) =~= views_before);
                    assert forall|i: int| 0 <= i < shm.len() implies self@.spec_slot_ok(
                        self@.connected[i],
                        #[trigger] shm[i],
                    ) by {
                        assert(model_before.spec_slot_ok(model_before.connected[i], before[i]));
                    }
                }
                Err(e)
            },
            Ok(sender) => {
                self.connections[index] = Some(Connection { sender, subscriber_id: details.subscriber_id });
                proof {
                    let view = slot_after.unwrap();
                    let opened = settings.spec_create_or_open(slot_before).0.unwrap();
                    assert(view == (ConnectionView { state: view.state, ..opened }));
                    lemma_state_is_irrelevant(opened, view);
                    assert(self@.connected =~= model_before.connected.update(
                        index as int,
                        Some(details.subscriber_id),
                    ));
                    assert(self@.counters =~= model_before.counters);
                    assert(self@.payload_sizes =~= model_before.payload_sizes);
                    assert(settings.spec_incompatibility(opened).is_none());
                    assert forall|w: u64| #[trigger] view.spec_locate(w).is_none() by {
                        lemma_unsent_holds_nothing(view, w);
                    }
                    assert forall|i: int| 0 <= i < shm.len() implies self@.spec_slot_ok(
                        self@.connected[i],
                        #[trigger] shm[i],
                    ) by {
                        if i != index {
                            assert(model_before.spec_slot_ok(model_before.connected[i], before[i]));
                        }
                    }
                    assert forall|w: u64|
                        {
                            &&& #[trigger] self@.spec_refcount(w) == spec_live(
                                self@.loaned,
                                self@.history,
                                spec_views(shm@),
                                w,
                            )
                            &&& self@.data.spec_is_allocated(PointerOffset(w)) <==> self@.spec_refcount(w) > 0
                        } by {
                        lemma_holders_update(views_before, index as int, slot_after, w);
                        if slot_before.is_some() {
                            lemma_unsent_holds_nothing(slot_before.unwrap(), w);
                        }
                        assert(model_before.spec_refcount(w) == spec_live(
                            model_before.loaned,
                            model_before.history,
                            views_before,
                            w,
                        ));
                        assert(model_before.data.spec_is_allocated(PointerOffset(w)) <==> model_before.spec_refcount(w)
                            > 0);
                    }
                    lemma_empty_flight_means_empty_channels(view);
                }
                Ok(())
            },
        }
    }
}

impl PublisherBackend {
    /// The sample at the position `index` of the history, counted from the
    /// oldest.
    fn history_entry(&self, index: usize) -> (entry: OffsetAndSize)
        requires
            self.history.is_some(),
            index < self@.history.len(),
        ensures
            entry == self@.history[index as int],
    {
        match &self.history {
            Some(history) => history.get(index),
            None => OffsetAndSize { offset: 0, size: 0 },
        }
    }

    /// Sends the most recent samples of the history to the subscriber that
    /// has just been connected in the slot `index`: as many as fit into
    /// its buffer, oldest first. Before each of them the publisher takes
    /// back what has come back on that connection.
    fn deliver_sample_history(&mut self, shm: &mut Vec<Option<SharedManagementData>>, index: usize)
        requires
            old(self).wf(old(shm)@),
            index < old(shm).len(),
            old(self)@.connected[index as int].is_some(),
            forall|w: u64| #[trigger] old(shm)[index as int].unwrap()@.spec_locate(w).is_none(),
        ensures
            final(self).wf(final(shm)@),
            final(shm).len() == old(shm).len(),
            forall|i: int| 0 <= i < old(shm).len() && i != index ==> final(shm)[i] == old(shm)[i],
            final(shm)[index as int].is_some(),
            final(shm)[index as int].unwrap()@ == spec_replayed(
                old(shm)[index as int].unwrap()@,
                old(self)@.spec_history_tail(old(shm)[index as int].unwrap()@.buffer_size),
            ),
            final(self)@ == (PublisherModel {
                counters: final(self)@.counters,
                payload_sizes: final(self)@.payload_sizes,
                data: final(self)@.data,
                ..old(self)@
            }),
            final(self)@.data.spec_same_layout(old(self)@.data),
            spec_loans_untouched(old(self)@, final(self)@),
            old(self)@.history.len() == 0 ==> final(self)@ == old(self)@ && final(shm)@ == old(shm)@,
    {
        let ghost model_before = self@;
        let ghost history = self@.history;
        proof {
            assert(self@.spec_slot_ok(self@.connected[index as int], shm@[index as int]));
        }
        let ghost view_start = shm@[index as int].unwrap()@;
        let (length, buffer_size) = match (&self.history, &shm[index]) {
            (Some(history), Some(block)) => (history.len(), block.buffer_size()),
            _ => {
                proof {
                    assert(history.len() == 0);
                    assert(model_before.spec_history_tail(view_start.buffer_size) =~= Seq::<OffsetAndSize>::empty());
                }
                return ;
            },
        };
        let start = if length > buffer_size { length - buffer_size } else { 0 };
        let ghost tail = model_before.spec_history_tail(view_start.buffer_size);
        let mut k: usize = start;
        proof {
            assert(tail == history.skip(start as int));
            assert forall|w: u64| (#[trigger] shm[index as int].unwrap()@.spec_locate(w)).is_some() implies exists|
                j: int,
            | start <= j < k && history[j].offset == w by {
                assert(old(shm)[index as int].unwrap()@.spec_locate(w).is_none());
            }
        }
        proof {
            assert(spec_protocol_consistent(view_start));
            lemma_empty_flight_means_empty_channels(view_start);
        }
        while k < length
            invariant
                start <= k <= length,
                length == history.len(),
                self.history.is_some(),
                index < shm.len(),
                shm.len() == old(shm).len(),
                self.wf(shm@),
                shm[index as int].unwrap()@.completion.len() == 0,
                history == model_before.history,
                tail == history.skip(start as int),
                self@ == (PublisherModel {
                    counters: self@.counters,
                    payload_sizes: self@.payload_sizes,
                    data: self@.data,
                    ..model_before
                }),
                self@.data.spec_same_layout(model_before.data),
                model_before == old(self)@,
                k == start ==> self@ == model_before && shm@ == old(shm)@,
                model_before.well_formed(),
                model_before.connected[index as int].is_some(),
                spec_loans_untouched(model_before, self@),
                forall|i: int| 0 <= i < old(shm).len() && i != index ==> shm[i] == old(shm)[i],
                shm[index as int].is_some(),
                spec_replayed(shm[index as int].unwrap()@, history.skip(k as int)) == spec_replayed(view_start, tail),
                forall|w: u64|
                    (#[trigger] shm[index as int].unwrap()@.spec_locate(w)).is_some() ==> exists|j: int|
                        start <= j < k && history[j].offset == w,
            decreases length - k,
        {
            let ghost model_unreclaimed = self@;
            let ghost view_unreclaimed = shm@[index as int].unwrap()@;
            self.reclaim_from(shm, index);
            proof {
                assert(shm@[index as int].unwrap()@ == view_unreclaimed);
                assert forall|w: u64| #[trigger] model_before.spec_is_unsent_loan(w) implies self@.spec_is_unsent_loan(
                    w,
                ) by {
                    assert(model_unreclaimed.spec_is_unsent_loan(w));
                }
            }
            let entry = self.history_entry(k);
            let offset = PointerOffset::from_value(entry.offset);
            let ghost view_now = shm@[index as int].unwrap()@;
            let ghost model_now = self@;
            proof {
                assert(entry == history[k as int]);
                assert(model_now.well_formed());
                assert(model_before.well_formed());
                assert(spec_bucket_of(model_now.data, entry.offset) == spec_bucket_of(model_before.data, entry.offset));
                lemma_occurrences_bound(history, entry.offset);
                lemma_balance_at(model_now, spec_views(shm@), entry.offset);
                assert(spec_views(shm@)[index as int] == Some(view_now));
                if view_now.spec_locate(entry.offset).is_some() {
                    let j = choose|j: int| start <= j < k && history[j].offset == entry.offset;
                    assert(false);
                }
                assert(history.skip(k as int)[0] == entry);
                assert(history.skip(k as int).skip(1) =~= history.skip(k as int + 1));
                assert(self@.spec_slot_ok(self@.connected[index as int], shm@[index as int]));
                shm@[index as int].unwrap().lemma_wf_view();
                if !view_now.spec_send_rejected() {
                    lemma_can_send(model_now, view_now, offset, entry.size as nat);
                    lemma_send_keeps_consistency(view_now, offset, entry.size as nat);
                }
                lemma_history_is_no_unsent_loan(model_now, spec_views(shm@), k as int);
            }
            let _ = self.deliver_to(shm, index, offset, entry.size, UnableToDeliverStrategy::DiscardSample);
            proof {
                assert forall|w: u64| #[trigger] model_before.spec_is_unsent_loan(w) implies self@.spec_is_unsent_loan(
                    w,
                ) by {
                    assert(model_now.spec_is_unsent_loan(w));
                }
                let view_next = shm@[index as int].unwrap()@;
                assert forall|w: u64| (#[trigger] view_next.spec_locate(w)).is_some() implies exists|j: int|
                    start <= j < k + 1 && history[j].offset == w by {
                    if !view_now.spec_send_rejected() {
                        lemma_send_changes_holding(view_now, offset, entry.size as nat, w);
                    }
                    if view_now.spec_locate(w).is_some() {
                        let j = choose|j: int| start <= j < k && history[j].offset == w;
                        assert(start <= j < k + 1 && history[j].offset == w);
                    } else {
                        assert(w == entry.offset);
                        assert(history[k as int].offset == w);
                    }
                }
            }
            k += 1;
        }
        proof {
            assert(history.skip(length as int) =~= Seq::<OffsetAndSize>::empty());
        }
    }
}

impl PublisherBackend {
    /// Reconciles the slot `index` with what the registry said about it.
    fn reconcile_slot(&mut self, shm: &mut Vec<Option<SharedManagementData>>, index: usize) -> (result: Result<
        (),
        ZeroCopyCreationError,
    >)
        requires
            old(self).wf(old(shm)@),
            index < old(shm).len(),
        ensures
            final(self).wf(final(shm)@),
            final(shm).len() == old(shm).len(),
            forall|i: int| 0 <= i < old(shm).len() && i != index ==> final(shm)[i] == old(shm)[i],
            ({
                let outcome = spec_reconciled_slot(
                    old(self)@,
                    old(self)@.subscribers[index as int],
                    old(self)@.connected[index as int],
                    spec_slot_view(old(shm)[index as int]),
                );
                &&& spec_slot_view(final(shm)[index as int]) == outcome.1
                &&& final(self)@ == (PublisherModel {
                    counters: final(self)@.counters,
                    payload_sizes: final(self)@.payload_sizes,
                    data: final(self)@.data,
                    connected: old(self)@.connected.update(index as int, outcome.0),
                    ..old(self)@
                })
                &&& result == if spec_gives_up(old(self)@.degration_action, outcome.2) {
                    Err::<(), ZeroCopyCreationError>(outcome.2.unwrap())
                } else {
                    Ok(())
                }
            }),
            final(self)@.data.spec_same_layout(old(self)@.data),
            spec_loans_untouched(old(self)@, final(self)@),
            spec_settled(old(self)@.subscribers[index as int], old(self)@.connected[index as int]) ==> final(self)@
                == old(self)@ && final(shm)@ == old(shm)@,
            old(self)@.history.len() == 0 && old(self)@.connected[index as int].is_none()
                ==> final(self)@.spec_same_buckets(old(self)@),
    {
        let ghost model_before = self@;
        let entry = self.subscriber_list_state[index];
        proof {
            assert(self@.spec_slot_ok(self@.connected[index as int], shm@[index as int]));
        }
        match entry {
            None => {
                self.remove_connection(shm, index);
                Ok(())
            },
            Some(details) => {
                let create_connection = match &self.connections[index] {
                    None => true,
                    Some(connection) => connection.subscriber_id != details.subscriber_id,
                };
                if !create_connection {
                    proof {
                        assert(self@.connected.update(index as int, self@.connected[index as int]) =~= self@.connected);
                    }
                    return Ok(());
                }
                self.remove_connection(shm, index);
                let ghost model_removed = self@;
                let ghost base = spec_slot_view(shm@[index as int]);
                match self.create_connection(shm, index, details) {
                    Ok(()) => {
                        let ghost model_created = self@;
                        self.deliver_sample_history(shm, index);
                        proof {
                            assert(model_removed.spec_connection_settings(details) == model_before.spec_connection_settings(
                                details,
                            ));
                            assert(model_created.history == model_before.history);
                            assert(self@.connected =~= model_before.connected.update(
                                index as int,
                                Some(details.subscriber_id),
                            ));
                        }
                        Ok(())
                    },
                    Err(e) => {
                        proof {
                            assert(self@.connected =~= model_before.connected.update(index as int, None));
                        }
                        match self.config.degration_callback {
                            Some(DegrationAction::Fail) => Err(e),
                            _ => Ok(()),
                        }
                    },
                }
            },
        }
    }
}

impl PublisherBackend {
    /// Reconciles every slot with what the registry said about it. A slot
    /// that stays connected to its subscriber is left alone. Gives up at
    /// the first slot that cannot be connected if the user asked for
    /// that; the slots behind it are then left as they are.
    pub fn populate_subscriber_channels(&mut self, shm: &mut Vec<Option<SharedManagementData>>) -> (result: Result<
        (),
        ZeroCopyCreationError,
    >)
        requires
            old(self).wf(old(shm)@),
        ensures
            final(self).wf(final(shm)@),
            final(shm).len() == old(shm).len(),
            final(self)@ == (PublisherModel {
                counters: final(self)@.counters,
                payload_sizes: final(self)@.payload_sizes,
                data: final(self)@.data,
                connected: final(self)@.connected,
                ..old(self)@
            }),
            final(self)@.data.spec_same_layout(old(self)@.data),
            spec_loans_untouched(old(self)@, final(self)@),
            exists|stop: int| #[trigger]
                spec_populate_outcome(
                    old(self)@,
                    spec_views(old(shm)@),
                    final(self)@.connected,
                    spec_views(final(shm)@),
                    stop,
                    result,
                ),
            result is Ok ==> result == Ok::<(), ZeroCopyCreationError>(()),
            old(self)@.spec_all_settled(old(self)@.subscribers) ==> final(self)@ == old(self)@
                && final(shm)@ == old(shm)@,
            old(self)@.spec_is_fresh() ==> final(self)@.spec_same_buckets(old(self)@),
    {
        let ghost model_before = self@;
        let ghost views_before = spec_views(shm@);
        let mut i: usize = 0;
        while i < self.connections.len()
            invariant
                i <= self.connections.len(),
                self.wf(shm@),
                shm.len() == old(shm).len(),
                shm.len() == self.connections.len(),
                model_before == old(self)@,
                views_before == spec_views(old(shm)@),
                views_before.len() == shm.len(),
                model_before.spec_all_settled(model_before.subscribers) ==> self@ == model_before && shm@ == old(shm)@,
                model_before.spec_is_fresh() ==> self@.spec_same_buckets(model_before),
                self@ == (PublisherModel {
                    counters: self@.counters,
                    payload_sizes: self@.payload_sizes,
                    data: self@.data,
                    connected: self@.connected,
                    ..model_before
                }),
                self@.data.spec_same_layout(model_before.data),
                spec_loans_untouched(model_before, self@),
                spec_populated(model_before, views_before, self@.connected, spec_views(shm@), i as int),
                forall|k: int|
                    0 <= k < i ==> !spec_gives_up(
                        model_before.degration_action,
                        #[trigger] spec_reconciled_slot(
                            model_before,
                            model_before.subscribers[k],
                            model_before.connected[k],
                            views_before[k],
                        ).2,
                    ),
            decreases self.connections.len() - i,
        {
            let ghost model_now = self@;
            let ghost views_now = spec_views(shm@);
            proof {
                if model_before.spec_all_settled(model_before.subscribers) {
                    assert(spec_settled(model_before.subscribers[i as int], model_before.connected[i as int]));
                }
                if model_before.spec_is_fresh() {
                    assert(model_before.connected[i as int].is_none());
                    assert(model_now.connected[i as int] == model_before.connected[i as int]);
                }
            }
            let result = self.reconcile_slot(shm, i);
            proof {
                let outcome = spec_reconciled_slot(
                    model_before,
                    model_before.subscribers[i as int],
                    model_before.connected[i as int],
                    views_before[i as int],
                );
                assert(model_now.connected[i as int] == model_before.connected[i as int]);
                assert(views_now[i as int] == views_before[i as int]);
                assert(model_now.spec_connection_settings(model_now.subscribers[i as int].unwrap())
                    == model_before.spec_connection_settings(model_before.subscribers[i as int].unwrap()));
                assert(spec_reconciled_slot(
                    model_now,
                    model_now.subscribers[i as int],
                    model_now.connected[i as int],
                    views_now[i as int],
                ) == outcome);
                assert(spec_populated(model_before, views_before, self@.connected, spec_views(shm@), i as int + 1)) by {
                    assert forall|k: int| 0 <= k < i + 1 implies {
                        &&& (#[trigger] self@.connected[k]) == spec_reconciled_slot(
                            model_before,
                            model_before.subscribers[k],
                            model_before.connected[k],
                            views_before[k],
                        ).0
                        &&& spec_views(shm@)[k] == spec_reconciled_slot(
                            model_before,
                            model_before.subscribers[k],
                            model_before.connected[k],
                            views_before[k],
                        ).1
                    } by {
                        if k < i {
                            assert(model_now.connected[k] == self@.connected[k]);
                            assert(views_now[k] == spec_views(shm@)[k]);
                        }
                    }
                    assert forall|k: int| i + 1 <= k < views_before.len() implies (#[trigger] self@.connected[k])
                        == model_before.connected[k] && spec_views(shm@)[k] == views_before[k] by {
                        assert(model_now.connected[k] == self@.connected[k]);
                        assert(views_now[k] == spec_views(shm@)[k]);
                    }
                }
            }
            match result {
                Ok(()) => {},
                Err(e) => {
                    proof {
                        assert(spec_populate_outcome(
                            model_before,
                            views_before,
                            self@.connected,
                            spec_views(shm@),
                            i as int + 1,
                            Err(e),
                        ));
                    }
                    return Err(e);
                },
            }
            i += 1;
        }
        proof {
            assert(spec_populate_outcome(
                model_before,
                views_before,
                self@.connected,
                spec_views(shm@),
                shm.len() as int,
                Ok(()),
            ));
        }
        Ok(())
    }
}

/// Whether two snapshots of a registry entry say the same.
fn same_entry(a: &Option<SubscriberDetails>, b: &Option<SubscriberDetails>) -> (same: bool)
    ensures
        same == (*a == *b),
{
    match (a, b) {
        (None, None) => true,
        (Some(x), Some(y)) => x.subscriber_id == y.subscriber_id && x.node_id == y.node_id && x.buffer_size
            == y.buffer_size,
        _ => false,
    }
}

impl PublisherBackend {
    /// Whether the registry says something else than it said when the
    /// publisher last looked.
    fn registry_changed(&self, registry: &Vec<Option<SubscriberDetails>>) -> (changed: bool)
        requires
            registry.len() == self@.subscribers.len(),
        ensures
            changed == (registry@ != self@.subscribers),
    {
        let mut i: usize = 0;
        while i < registry.len()
            invariant
                i <= registry.len(),
                registry.len() == self.subscriber_list_state.len(),
                forall|k: int| 0 <= k < i ==> registry[k] == self.subscriber_list_state[k],
            decreases registry.len() - i,
        {
            if !same_entry(&registry[i], &self.subscriber_list_state[i]) {
                return true;
            }
            i += 1;
        }
        proof {
            assert(registry@ =~= self.subscriber_list_state@);
        }
        false
    }

    /// Looks at the registry of subscribers and, if it has changed since
    /// the publisher last looked, reconciles the connections with it.
    pub fn update_connections(
        &mut self,
        shm: &mut Vec<Option<SharedManagementData>>,
        registry: &Vec<Option<SubscriberDetails>>,
    ) -> (result: Result<(), ConnectionFailure>)
        requires
            old(self).wf(old(shm)@),
            registry.len() == old(shm).len(),
        ensures
            final(self).wf(final(shm)@),
            final(shm).len() == old(shm).len(),
            final(self)@ == (PublisherModel {
                counters: final(self)@.counters,
                payload_sizes: final(self)@.payload_sizes,
                data: final(self)@.data,
                connected: final(self)@.connected,
                subscribers: registry@,
                ..old(self)@
            }),
            final(self)@.data.spec_same_layout(old(self)@.data),
            spec_loans_untouched(old(self)@, final(self)@),
            spec_update_outcome(
                old(self)@,
                spec_views(old(shm)@),
                registry@,
                final(self)@.connected,
                spec_views(final(shm)@),
                result,
            ),
            old(self)@.spec_all_settled(registry@) ==> final(self)@.spec_same_buckets(old(self)@)
                && final(self)@.connected == old(self)@.connected && final(shm)@ == old(shm)@,
            old(self)@.spec_is_fresh() ==> final(self)@.spec_same_buckets(old(self)@),
    {
        let ghost model_before = self@;
        if !self.registry_changed(registry) {
            proof {
                assert(self@ =~= (PublisherModel { subscribers: registry@, ..self@ }));
            }
            return Ok(());
        }
        let mut snapshot: Vec<Option<SubscriberDetails>> = Vec::new();
        let mut i: usize = 0;
        while i < registry.len()
            invariant
                i <= registry.len(),
                snapshot.len() == i,
                forall|k: int| 0 <= k < i ==> snapshot[k] == registry[k],
            decreases registry.len() - i,
        {
            snapshot.push(registry[i]);
            i += 1;
        }
        proof {
            assert(snapshot@ =~= registry@);
        }
        self.subscriber_list_state = snapshot;
        proof {
            let updated = PublisherModel { subscribers: registry@, ..model_before };
            assert(self@.counters =~= updated.counters);
            assert(self@.payload_sizes =~= updated.payload_sizes);
            assert(self@.connected =~= updated.connected);
            assert(self@ =~= updated);
            assert forall|i: int| 0 <= i < shm.len() implies self@.spec_slot_ok(self@.connected[i], #[trigger] shm[i]) by {
                assert(model_before.spec_slot_ok(model_before.connected[i], shm[i]));
            }
            assert forall|w: u64|
                {
                    &&& #[trigger] self@.spec_refcount(w) == spec_live(self@.loaned, self@.history, spec_views(shm@), w)
                    &&& self@.data.spec_is_allocated(PointerOffset(w)) <==> self@.spec_refcount(w) > 0
                } by {
                assert(model_before.spec_refcount(w) == spec_live(
                    model_before.loaned,
                    model_before.history,
                    spec_views(shm@),
                    w,
                ));
                assert(model_before.data.spec_is_allocated(PointerOffset(w)) <==> model_before.spec_refcount(w) > 0);
            }
        }
        let ghost updated = self@;
        let ghost views_before = spec_views(shm@);
        let inner = self.populate_subscriber_channels(shm);
        let result = match inner {
            Ok(()) => Ok(()),
            Err(e) => Err(ConnectionFailure::FailedToEstablishConnection(e)),
        };
        proof {
            let stop = choose|stop: int| #[trigger]
                spec_populate_outcome(updated, views_before, self@.connected, spec_views(shm@), stop, inner);
            assert(spec_creation_result(result) == inner);
            assert(updated == (PublisherModel { subscribers: registry@, ..model_before }));
            assert forall|w: u64| #[trigger] model_before.spec_is_unsent_loan(w) implies self@.spec_is_unsent_loan(w) by {
                assert(updated.spec_refcount(w) == model_before.spec_refcount(w));
                assert(updated.spec_is_unsent_loan(w));
            }
            assert(spec_populate_outcome(
                PublisherModel { subscribers: registry@, ..model_before },
                views_before,
                self@.connected,
                spec_views(shm@),
                stop,
                spec_creation_result(result),
            ));
        }
        result
    }
}

/// A shared memory with the given number of empty slots.
pub fn new_shared_memory(number_of_slots: usize) -> (shm: Vec<Option<SharedManagementData>>)
    ensures
        shm.len() == number_of_slots,
        forall|i: int| 0 <= i < number_of_slots ==> (#[trigger] shm[i]).is_none(),
{
    let mut shm: Vec<Option<SharedManagementData>> = Vec::new();
    let mut i: usize = 0;
    while i < number_of_slots
        invariant
            i <= number_of_slots,
            shm.len() == i,
            forall|k: int| 0 <= k < i ==> (#[trigger] shm[k]).is_none(),
        decreases number_of_slots - i,
    {
        shm.push(None);
        i += 1;
    }
    shm
}

impl PublisherBackend {
    /// Sends the sample at `offset`, which the user holds as a loan and
    /// has not sent before: looks at the registry of subscribers, puts the
    /// sample into the history and delivers it to the subscribers. The
    /// loan stays with the user.
    pub fn send_sample(
        &mut self,
        shm: &mut Vec<Option<SharedManagementData>>,
        registry: &Vec<Option<SubscriberDetails>>,
        offset: PointerOffset,
        sample_size: usize,
    ) -> (result: Result<Delivery, PublisherSendError>)
        requires
            old(self).wf(old(shm)@),
            registry.len() == old(shm).len(),
            old(self)@.spec_is_unsent_loan(offset.0),
            sample_size == old(self)@.data.bucket_sizes[offset.spec_segment_id() as int],
        ensures
            final(self).wf(final(shm)@),
            final(shm).len() == old(shm).len(),
            final(self)@.loaned == old(self)@.loaned,
            final(self)@.loan_counter == old(self)@.loan_counter,
            final(self)@.is_active == old(self)@.is_active,
            final(self)@.data.spec_same_layout(old(self)@.data),
            spec_send_outcome(
                old(self)@,
                spec_views(old(shm)@),
                registry@,
                offset,
                sample_size as nat,
                final(self)@,
                spec_views(final(shm)@),
                result,
            ),
    {
        let ghost model_before = self@;
        let ghost views_before = spec_views(shm@);
        if !self.is_active {
            return Err(PublisherSendError::ConnectionBrokenSincePublisherNoLongerExists);
        }
        match self.update_connections(shm, registry) {
            Ok(()) => {},
            Err(failure) => {
                return Err(PublisherSendError::ConnectionError(failure));
            },
        }
        let ghost model_mid = self@;
        let ghost views_mid = spec_views(shm@);
        proof {
            assert(model_before.spec_is_unsent_loan(offset.0));
            assert(model_mid.spec_is_unsent_loan(offset.0));
            lemma_balance_at(model_mid, views_mid, offset.0);
            assert(model_mid.well_formed());
        }
        self.add_sample_to_history(shm, offset, sample_size);
        proof {
            lemma_balance_at(self@, views_mid, offset.0);
            assert(self@.well_formed());
        }
        let delivery = match self.deliver_sample(shm, offset, sample_size) {
            Ok(delivery) => delivery,
            Err(e) => {
                return Err(e);
            },
        };
        proof {
            assert(spec_sent_via(
                model_before,
                views_before,
                registry@,
                self@.connected,
                views_mid,
                spec_views(shm@),
                offset,
                sample_size as nat,
                delivery,
            ));
        }
        Ok(delivery)
    }

    /// A publisher without connections, loans or history entries, for a
    /// service with `number_of_slots` subscriber slots.
    pub fn new(
        port_id: u128,
        static_config: StaticConfig,
        config: LocalPublisherConfig,
        sample_layout: Layout,
        number_of_slots: usize,
    ) -> (result: Result<PublisherBackend, PublisherCreateError>)
        requires
            number_of_slots <= MAX_SUBSCRIBER_SLOTS,
            static_config.history_size <= MAX_HISTORY_SIZE,
        ensures
            match result {
                Ok(backend) => {
                    &&& forall|shm: Seq<Option<SharedManagementData>>|
                        shm.len() == number_of_slots && (forall|i: int|
                            0 <= i < shm.len() ==> spec_pristine(#[trigger] shm[i])) ==> #[trigger] backend.wf(shm)
                    &&& backend@.port_id == port_id
                    &&& backend@.connected == Seq::new(number_of_slots as nat, |i: int| None::<u128>)
                    &&& backend@.subscribers == Seq::new(number_of_slots as nat, |i: int| None::<SubscriberDetails>)
                    &&& backend@.history == Seq::<OffsetAndSize>::empty()
                    &&& backend@.history_size == static_config.history_size
                    &&& backend@.loaned == Set::<u64>::empty()
                    &&& backend@.loan_counter == 0
                    &&& backend@.is_active
                    &&& backend@.max_loaned_samples == config.max_loaned_samples
                    &&& backend@.unable_to_deliver_strategy == config.unable_to_deliver_strategy
                    &&& backend@.degration_action == config.degration_callback
                    &&& backend@.number_of_samples == static_config.spec_required_amount_of_samples_per_data_segment(
                        config.max_loaned_samples as nat,
                    )
                    &&& backend@.max_number_of_segments == DataSegmentType::spec_from_allocation_strategy(
                        config.allocation_strategy,
                    ).spec_max_number_of_segments()
                    &&& backend@.subscriber_max_borrowed_samples == static_config.subscriber_max_borrowed_samples
                    &&& backend@.enable_safe_overflow == static_config.enable_safe_overflow
                    &&& backend@.data.bucket_sizes == seq![sample_layout.size as nat]
                    &&& backend@.spec_is_unused()
                    &&& sample_layout.size > 0
                    &&& backend@.number_of_samples * sample_layout.size <= MAX_OFFSET
                    &&& backend@.number_of_samples * sample_layout.size <= usize::MAX
                },
                Err(e) => {
                    &&& e == PublisherCreateError::UnableToCreateDataSegment
                    &&& {
                        let samples = static_config.spec_required_amount_of_samples_per_data_segment(
                            config.max_loaned_samples as nat,
                        );
                        samples > usize::MAX || sample_layout.size == 0 || samples * sample_layout.size > MAX_OFFSET
                            || samples * sample_layout.size > usize::MAX
                    }
                },
            },
    {
        let number_of_samples = match static_config.required_amount_of_samples_per_data_segment(
            config.max_loaned_samples,
        ) {
            Some(n) => n,
            None => {
                return Err(PublisherCreateError::UnableToCreateDataSegment);
            },
        };
        let data_segment_type = DataSegmentType::new_from_allocation_strategy(config.allocation_strategy);
        let max_number_of_segments = DataSegment::max_number_of_segments(data_segment_type);
        let data_segment = match DataSegment::create(
            data_segment_type,
            number_of_samples,
            sample_layout,
            config.allocation_strategy,
        ) {
            Ok(data_segment) => data_segment,
            Err(_) => {
                return Err(PublisherCreateError::UnableToCreateDataSegment);
            },
        };
        let mut segment_states: Vec<SegmentState> = Vec::new();
        let mut s: u8 = 0;
        while s < max_number_of_segments
            invariant
                s <= max_number_of_segments,
                segment_states.len() == s,
                forall|k: int|
                    0 <= k < s ==> {
                        &&& (#[trigger] segment_states[k]).spec_counters() == Seq::new(
                            number_of_samples as nat,
                            |b: int| 0u64,
                        )
                        &&& segment_states[k].spec_payload_size() == 0
                    },
            decreases max_number_of_segments - s,
        {
            segment_states.push(SegmentState::new(number_of_samples));
            s += 1;
        }
        let mut connections: Vec<Option<Connection>> = Vec::new();
        let mut subscriber_list_state: Vec<Option<SubscriberDetails>> = Vec::new();
        let mut i: usize = 0;
        while i < number_of_slots
            invariant
                i <= number_of_slots,
                connections.len() == i,
                subscriber_list_state.len() == i,
                forall|k: int| 0 <= k < i ==> (#[trigger] connections[k]).is_none(),
                forall|k: int| 0 <= k < i ==> (#[trigger] subscriber_list_state[k]).is_none(),
            decreases number_of_slots - i,
        {
            connections.push(None);
            subscriber_list_state.push(None);
            i += 1;
        }
        let history = if static_config.history_size == 0 {
            None
        } else {
            Some(History::new(static_config.history_size))
        };
        let backend = PublisherBackend {
            segment_states,
            data_segment,
            port_id,
            config,
            connections,
            subscriber_list_state,
            history,
            static_config,
            number_of_samples,
            max_number_of_segments,
            loan_counter: 0,
            is_active: true,
            loaned: Ghost(Set::empty()),
        };
        proof {
            backend.data_segment.lemma_wf_view();
            assert(backend@.connected =~= Seq::new(number_of_slots as nat, |i: int| None::<u128>));
            assert(backend@.subscribers =~= Seq::new(number_of_slots as nat, |i: int| None::<SubscriberDetails>));
            assert(backend@.well_formed());
            assert forall|shm: Seq<Option<SharedManagementData>>|
                shm.len() == number_of_slots && (forall|i: int| 0 <= i < shm.len() ==> spec_pristine(#[trigger] shm[i]))
                    implies #[trigger] backend.wf(shm) by {
                let views = spec_views(shm);
                assert forall|i: int| 0 <= i < shm.len() implies backend@.spec_slot_ok(
                    backend@.connected[i],
                    #[trigger] shm[i],
                ) by {
                    assert(spec_pristine(shm[i]));
                }
                assert forall|w: u64|
                    {
                        &&& #[trigger] backend@.spec_refcount(w) == spec_live(
                            backend@.loaned,
                            backend@.history,
                            views,
                            w,
                        )
                        &&& backend@.data.spec_is_allocated(PointerOffset(w)) <==> backend@.spec_refcount(w) > 0
                    } by {
                    lemma_nothing_is_live(shm, w);
                    if spec_bucket_of(backend@.data, w).is_some() {
                        let (segment, bucket) = spec_bucket_of(backend@.data, w).unwrap();
                        assert(backend@.counters[segment][bucket] == 0);
                    }
                }
            }
        }
        Ok(backend)
    }

    /// Marks the publisher as gone: it refuses to send from now on.
    pub fn deactivate(&mut self)
        ensures
            final(self)@ == (PublisherModel { is_active: false, ..old(self)@ }),
            forall|shm: Seq<Option<SharedManagementData>>| old(self).wf(shm) ==> #[trigger] final(self).wf(shm),
    {
        let ghost before = self@;
        self.is_active = false;
        proof {
            let expected = PublisherModel { is_active: false, ..before };
            assert(self@.counters =~= expected.counters);
            assert(self@.payload_sizes =~= expected.payload_sizes);
            assert(self@.connected =~= expected.connected);
            assert(self@ =~= expected);
            assert forall|shm: Seq<Option<SharedManagementData>>| old(self).wf(shm) implies #[trigger] self.wf(shm) by {
                assert forall|i: int| 0 <= i < shm.len() implies self@.spec_slot_ok(self@.connected[i], #[trigger] shm[i]) by {
                    assert(before.spec_slot_ok(before.connected[i], shm[i]));
                }
                assert forall|w: u64|
                    {
                        &&& #[trigger] self@.spec_refcount(w) == spec_live(self@.loaned, self@.history, spec_views(shm), w)
                        &&& self@.data.spec_is_allocated(PointerOffset(w)) <==> self@.spec_refcount(w) > 0
                    } by {
                    assert(before.spec_refcount(w) == spec_live(before.loaned, before.history, spec_views(shm), w));
                    assert(before.data.spec_is_allocated(PointerOffset(w)) <==> before.spec_refcount(w) > 0);
                }
            }
        }
    }
}

impl PublisherBackend {
    /// What the subscriber does to a block does not upset the publisher: a
    /// publisher that fits together with the shared memory still does
    /// after the block in one slot has changed, as long as the used-chunk
    /// lists, the sample sizes and the settings of the block are the same
    /// and what is on its way on it is still in step with its used-chunk
    /// lists. That holds of receiving, of releasing a sample that was
    /// received, and of attaching and detaching a receiver.
    pub proof fn lemma_subscriber_side_keeps_wf(
        &self,
        before: Seq<Option<SharedManagementData>>,
        after: Seq<Option<SharedManagementData>>,
        index: int,
    )
        requires
            self.wf(before),
            after.len() == before.len(),
            0 <= index < before.len(),
            forall|i: int| 0 <= i < before.len() && i != index ==> after[i] == before[i],
            before[index].is_some(),
            after[index].is_some(),
            after[index].unwrap().wf(),
            spec_protocol_consistent(after[index].unwrap()@),
            after[index].unwrap()@.used == before[index].unwrap()@.used,
            after[index].unwrap()@.sample_sizes == before[index].unwrap()@.sample_sizes,
            after[index].unwrap()@.number_of_segments == before[index].unwrap()@.number_of_segments,
            after[index].unwrap()@.number_of_samples_per_segment == before[index].unwrap()@.number_of_samples_per_segment,
        ensures
            self.wf(after),
    {
        let views_before = spec_views(before);
        let views_after = spec_views(after);
        let old_view = before[index].unwrap()@;
        let new_view = after[index].unwrap()@;
        assert(self@.spec_slot_ok(self@.connected[index], before[index]));
        assert(views_after =~= views_before.update(index, Some(new_view)));
        assert forall|i: int| 0 <= i < after.len() implies self@.spec_slot_ok(self@.connected[i], #[trigger] after[i]) by {
            assert(self@.spec_slot_ok(self@.connected[i], before[i]));
        }
        assert forall|w: u64|
            {
                &&& #[trigger] self@.spec_refcount(w) == spec_live(self@.loaned, self@.history, views_after, w)
                &&& self@.data.spec_is_allocated(PointerOffset(w)) <==> self@.spec_refcount(w) > 0
            } by {
            lemma_holders_update(views_before, index, Some(new_view), w);
            assert(new_view.spec_locate(w) == old_view.spec_locate(w));
            assert(self@.spec_refcount(w) == spec_live(self@.loaned, self@.history, views_before, w));
        }
    }

    /// A subscriber that creates the block of a connection before the
    /// publisher has connected does not upset the publisher either.
    pub proof fn lemma_pristine_slot_keeps_wf(
        &self,
        before: Seq<Option<SharedManagementData>>,
        after: Seq<Option<SharedManagementData>>,
        index: int,
    )
        requires
            self.wf(before),
            after.len() == before.len(),
            0 <= index < before.len(),
            forall|i: int| 0 <= i < before.len() && i != index ==> after[i] == before[i],
            self@.connected[index].is_none(),
            spec_pristine(after[index]),
        ensures
            self.wf(after),
    {
        let views_before = spec_views(before);
        let views_after = spec_views(after);
        assert(self@.spec_slot_ok(self@.connected[index], before[index]));
        assert(views_after =~= views_before.update(index, spec_slot_view(after[index])));
        assert forall|i: int| 0 <= i < after.len() implies self@.spec_slot_ok(self@.connected[i], #[trigger] after[i]) by {
            assert(self@.spec_slot_ok(self@.connected[i], before[i]));
        }
        assert forall|w: u64|
            {
                &&& #[trigger] self@.spec_refcount(w) == spec_live(self@.loaned, self@.history, views_after, w)
                &&& self@.data.spec_is_allocated(PointerOffset(w)) <==> self@.spec_refcount(w) > 0
            } by {
            lemma_holders_update(views_before, index, spec_slot_view(after[index]), w);
            if before[index].is_some() {
                lemma_unsent_holds_nothing(before[index].unwrap()@, w);
            }
            if after[index].is_some() {
                lemma_unsent_holds_nothing(after[index].unwrap()@, w);
            }
            assert(self@.spec_refcount(w) == spec_live(self@.loaned, self@.history, views_before, w));
        }
    }
}

} // verus!
