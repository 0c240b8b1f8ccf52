//! The publisher as the user sees it: loans with a limit, errors in the
//! user's terms, and its entry in the registry of the service.

use vstd::prelude::*;
use crate::data_segment::DataSegmentType;
use crate::history::MAX_HISTORY_SIZE;
use crate::message_type_details::{MessageTypeDetails, TypeVariant};
use crate::pointer_offset::MAX_OFFSET;
use crate::publisher::{
    handle_port_remove_error, AllocationPair, Delivery, LocalPublisherConfig, MAX_SUBSCRIBER_SLOTS,
    PublisherBackend, PublisherCreateError, PublisherDetails, PublisherLoanError, PublisherSendError,
    RemovePubSubPortFromAllConnectionsError, StaticConfig, SubscriberDetails, UnableToDeliverStrategy,
};
use crate::history::OffsetAndSize;
use crate::publisher_model::{
    lemma_reclaimed_all_is_final, spec_bucket_of, spec_connect, spec_creation_result, spec_holds,
    spec_populate_outcome, spec_pristine, spec_reclaimed_all, spec_reconciled_slot, spec_refusal, spec_send_outcome,
    spec_views, PublisherModel,
};
use crate::shm_allocator::{AllocationStrategy, Layout, ShmAllocationError};
use crate::zero_copy_connection::{
    spec_after_detach, spec_slot_view, spec_slot_wf, Connection, ConnectionView, SharedManagementData, State,
    STATE_RECEIVER, STATE_SENDER,
};
use iceoryx2_bb_elementary::allocator::AllocationError;

verus! {

/// The publishers of a service, one slot each.
pub struct DynamicConfig {
    publishers: Vec<Option<PublisherDetails>>,
}

impl DynamicConfig {
    pub closed spec fn view(&self) -> Seq<Option<PublisherDetails>> {
        self.publishers@
    }

    /// A registry with room for `max_publishers` publishers and none in
    /// it.
    pub fn new(max_publishers: usize) -> (config: DynamicConfig)
        ensures
            config@ == Seq::new(max_publishers as nat, |i: int| None::<PublisherDetails>),
    {
        let mut publishers: Vec<Option<PublisherDetails>> = Vec::new();
        let mut i: usize = 0;
        while i < max_publishers
            invariant
                i <= max_publishers,
                publishers@ == Seq::new(i as nat, |k: int| None::<PublisherDetails>),
            decreases max_publishers - i,
        {
            publishers.push(None);
            i += 1;
            assert(publishers@ =~= Seq::new(i as nat, |k: int| None::<PublisherDetails>));
        }
        DynamicConfig { publishers }
    }

    /// Enters a publisher into the first free slot and returns the slot,
    /// or `None` if the service has as many publishers as it supports.
    pub fn add_publisher_id(&mut self, details: PublisherDetails) -> (handle: Option<usize>)
        ensures
            match handle {
                Some(h) => {
                    &&& h < old(self)@.len()
                    &&& old(self)@[h as int].is_none()
                    &&& forall|i: int| 0 <= i < h ==> (#[trigger] old(self)@[i]).is_some()
                    &&& final(self)@ == old(self)@.update(h as int, Some(details))
                },
                None => {
                    &&& forall|i: int| 0 <= i < old(self)@.len() ==> (#[trigger] old(self)@[i]).is_some()
                    &&& final(self)@ == old(self)@
                },
            },
    {
        let mut i: usize = 0;
        while i < self.publishers.len()
            invariant
                i <= self.publishers.len(),
                self.publishers@ == old(self).publishers@,
                forall|k: int| 0 <= k < i ==> (#[trigger] self.publishers[k]).is_some(),
            decreases self.publishers.len() - i,
        {
            if self.publishers[i].is_none() {
                self.publishers[i] = Some(details);
                return Some(i);
            }
            i += 1;
        }
        None
    }

    /// Takes the publisher in the slot `handle` out of the registry.
    pub fn release_publisher_handle(&mut self, handle: usize)
        ensures
            final(self)@ == if handle < old(self)@.len() {
                old(self)@.update(handle as int, None)
            } else {
                old(self)@
            },
    {
        if handle < self.publishers.len() {
            self.publishers[handle] = None;
        }
    }
}

/// What the first look of a new publisher at the registry of subscribers
/// has come to: before it, the publisher had no connection and had seen no
/// subscriber, and after it the publisher is what reconciling its slots
/// with the registry has made of it.
pub open spec fn spec_first_look(
    before: PublisherModel,
    after: PublisherModel,
    views_before: Seq<Option<ConnectionView>>,
    views_after: Seq<Option<ConnectionView>>,
    registry: Seq<Option<SubscriberDetails>>,
    result: Result<(), crate::publisher::ConnectionFailure>,
) -> bool {
    &&& before.connected == Seq::new(registry.len(), |i: int| None::<u128>)
    &&& before.subscribers == Seq::new(registry.len(), |i: int| None::<SubscriberDetails>)
    &&& after == (PublisherModel {
        counters: after.counters,
        payload_sizes: after.payload_sizes,
        data: after.data,
        connected: after.connected,
        subscribers: registry,
        ..before
    })
    &&& crate::publisher_model::spec_update_outcome(before, views_before, registry, after.connected, views_after, result)
}

/// The sending endpoint of a publish-subscribe service.
pub struct Publisher {
    backend: PublisherBackend,
    dynamic_publisher_handle: Option<usize>,
    message_type_details: MessageTypeDetails,
    initial_max_slice_len: usize,
    allocation_strategy: AllocationStrategy,
}

impl Publisher {
    pub closed spec fn view(&self) -> PublisherModel {
        self.backend@
    }

    /// The publisher and the shared memory fit together.
    pub closed spec fn wf(&self, shm: Seq<Option<SharedManagementData>>) -> bool {
        self.backend.wf(shm)
    }

    /// The slot of the publisher in the registry of the service.
    pub closed spec fn spec_handle(&self) -> Option<usize> {
        self.dynamic_publisher_handle
    }

    pub closed spec fn spec_message_type_details(&self) -> MessageTypeDetails {
        self.message_type_details
    }

    pub closed spec fn spec_initial_max_slice_len(&self) -> usize {
        self.initial_max_slice_len
    }

    pub closed spec fn spec_allocation_strategy(&self) -> AllocationStrategy {
        self.allocation_strategy
    }

    /// The port that does the work.
    pub fn backend(&self) -> (backend: &PublisherBackend)
        ensures
            backend@ == self@,
            forall|shm: Seq<Option<SharedManagementData>>| self.wf(shm) <==> #[trigger] backend.wf(shm),
    {
        &self.backend
    }

    pub fn id(&self) -> (id: u128)
        ensures
            id == self@.port_id,
    {
        self.backend.port_id()
    }

    /// What the publisher does with a sample that a subscriber has no room
    /// for.
    pub fn unable_to_deliver_strategy(&self) -> (strategy: UnableToDeliverStrategy)
        ensures
            strategy == self@.unable_to_deliver_strategy,
    {
        self.backend.unable_to_deliver_strategy()
    }

    /// Greatest length of a slice that a static publisher loans.
    pub fn initial_max_slice_len(&self) -> (len: usize)
        ensures
            len == self.spec_initial_max_slice_len(),
    {
        self.initial_max_slice_len
    }

    /// Whether the payload has a fixed size or is a slice.
    pub fn payload_type_variant(&self) -> (variant: TypeVariant)
        ensures
            variant == self.spec_message_type_details().payload.variant,
    {
        self.message_type_details.payload.variant
    }

    /// The layout of a sample with `number_of_elements` payload elements.
    pub open spec fn spec_sample_layout(&self, number_of_elements: nat) -> Layout {
        Layout {
            size: self.spec_message_type_details().spec_sample_size(number_of_elements) as usize,
            align: self.spec_message_type_details().spec_sample_alignment() as usize,
        }
    }

    /// The layout of a sample with `number_of_elements` payload elements.
    pub fn sample_layout(&self, number_of_elements: usize) -> (layout: Option<Layout>)
        ensures
            match layout {
                Some(l) => {
                    &&& l == self.spec_sample_layout(number_of_elements as nat)
                    &&& l.size == self.spec_message_type_details().spec_sample_size(number_of_elements as nat)
                    &&& l.align == self.spec_message_type_details().spec_sample_alignment()
                },
                None => self.spec_message_type_details().spec_sample_size(number_of_elements as nat) > usize::MAX,
            },
    {
        self.message_type_details.sample_layout(number_of_elements)
    }

    /// The shared memory `after` is what `before` becomes when a publisher
    /// with the connections `connected` takes back everything that its
    /// subscribers have returned: the completion channel of every
    /// connected slot is emptied, and the other slots stay as they are.
    pub open spec fn spec_taken_back(
        connected: Seq<Option<u128>>,
        before: Seq<Option<SharedManagementData>>,
        after: Seq<Option<SharedManagementData>>,
    ) -> bool {
        &&& after.len() == before.len()
        &&& forall|i: int|
            0 <= i < before.len() ==> if connected[i].is_some() {
                (#[trigger] after[i]).is_some() && after[i].unwrap()@ == spec_reclaimed_all(before[i].unwrap()@)
            } else {
                after[i] == before[i]
            }
    }

    /// The error that the user sees when the data segment refuses a
    /// request.
    pub open spec fn spec_loan_error(error: ShmAllocationError) -> PublisherLoanError {
        match error {
            ShmAllocationError::AllocationError(AllocationError::OutOfMemory) => PublisherLoanError::OutOfMemory,
            _ => PublisherLoanError::InternalFailure,
        }
    }

    /// Loans a bucket for a request of the given layout. The publisher
    /// first takes back what the subscribers have returned; the loan is
    /// then refused if the user holds as many loans as the publisher
    /// allows.
    pub fn allocate(&mut self, shm: &mut Vec<Option<SharedManagementData>>, layout: Layout) -> (result: Result<
        AllocationPair,
        PublisherLoanError,
    >)
        requires
            old(self).wf(old(shm)@),
        ensures
            final(self).wf(final(shm)@),
            final(shm).len() == old(shm).len(),
            Self::spec_taken_back(old(self)@.connected, old(shm)@, final(shm)@),
            final(self)@.connected == old(self)@.connected,
            final(self)@.history == old(self)@.history,
            final(self)@.is_active == old(self)@.is_active,
            final(self).spec_handle() == old(self).spec_handle(),
            final(self).spec_message_type_details() == old(self).spec_message_type_details(),
            final(self).spec_initial_max_slice_len() == old(self).spec_initial_max_slice_len(),
            final(self).spec_allocation_strategy() == old(self).spec_allocation_strategy(),
            result matches Err(PublisherLoanError::ExceedsMaxLoanedSamples) <==> old(self)@.loan_counter
                >= old(self)@.max_loaned_samples,
            match result {
                Ok(pair) => {
                    &&& old(self)@.loan_counter < old(self)@.max_loaned_samples
                    &&& !old(self)@.loaned.contains(pair.offset.0)
                    &&& final(self)@.loaned == old(self)@.loaned.insert(pair.offset.0)
                    &&& final(self)@.loan_counter == old(self)@.loan_counter + 1
                    &&& final(self)@.spec_is_unsent_loan(pair.offset.0)
                    &&& spec_bucket_of(final(self)@.data, pair.offset.0).is_some()
                    &&& pair.sample_size == final(self)@.data.bucket_sizes[pair.offset.spec_segment_id() as int]
                    &&& layout.size <= pair.sample_size
                },
                Err(e) => {
                    &&& final(self)@.loaned == old(self)@.loaned
                    &&& final(self)@.loan_counter == old(self)@.loan_counter
                    &&& final(self)@.data.spec_same_layout(old(self)@.data)
                    &&& if old(self)@.loan_counter >= old(self)@.max_loaned_samples {
                        e == PublisherLoanError::ExceedsMaxLoanedSamples
                    } else {
                        exists|refused: ShmAllocationError| #[trigger]
                            spec_refusal(final(self)@.data, layout, refused) && e == Self::spec_loan_error(refused)
                    }
                },
            },
    {
        let ghost connected = self@.connected;
        self.backend.retrieve_returned_samples(shm);
        let ghost reclaimed = shm@;
        if self.backend.loan_counter() >= self.backend.max_loaned_samples() {
            return Err(PublisherLoanError::ExceedsMaxLoanedSamples);
        }
        let allocated = self.backend.allocate(shm, layout);
        proof {
            assert forall|i: int| 0 <= i < old(shm).len() implies if connected[i].is_some() {
                (#[trigger] shm[i]).is_some() && shm[i].unwrap()@ == spec_reclaimed_all(old(shm)[i].unwrap()@)
            } else {
                shm[i] == old(shm)[i]
            } by {
                if connected[i].is_some() {
                    assert(reclaimed[i].is_some());
                    lemma_reclaimed_all_is_final(old(shm)[i].unwrap()@);
                } else {
                    assert(reclaimed[i] == old(shm)[i]);
                }
            }
        }
        match allocated {
            Ok(chunk) => Ok(chunk),
            Err(ShmAllocationError::AllocationError(AllocationError::OutOfMemory)) => {
                proof {
                    assert(spec_refusal(
                        self@.data,
                        layout,
                        ShmAllocationError::AllocationError(AllocationError::OutOfMemory),
                    ));
                }
                Err(PublisherLoanError::OutOfMemory)
            },
            Err(v) => {
                proof {
                    assert(spec_refusal(self@.data, layout, v));
                }
                Err(PublisherLoanError::InternalFailure)
            },
        }
    }

    /// Loans a bucket for a sample with one payload element.
    pub fn loan_uninit(&mut self, shm: &mut Vec<Option<SharedManagementData>>) -> (result: Result<
        AllocationPair,
        PublisherLoanError,
    >)
        requires
            old(self).wf(old(shm)@),
        ensures
            final(self).wf(final(shm)@),
            final(shm).len() == old(shm).len(),
            final(self)@.connected == old(self)@.connected,
            final(self)@.history == old(self)@.history,
            final(self).spec_handle() == old(self).spec_handle(),
            if old(self).spec_message_type_details().spec_sample_size(1) > usize::MAX {
                final(shm)@ == old(shm)@
            } else {
                Self::spec_taken_back(old(self)@.connected, old(shm)@, final(shm)@)
            },
            match result {
                Ok(pair) => {
                    &&& old(self)@.loan_counter < old(self)@.max_loaned_samples
                    &&& final(self)@.loaned == old(self)@.loaned.insert(pair.offset.0)
                    &&& final(self)@.loan_counter == old(self)@.loan_counter + 1
                    &&& final(self)@.spec_is_unsent_loan(pair.offset.0)
                    &&& pair.sample_size == final(self)@.data.bucket_sizes[pair.offset.spec_segment_id() as int]
                    &&& old(self).spec_message_type_details().spec_sample_size(1) <= pair.sample_size
                },
                Err(e) => {
                    &&& final(self)@.loaned == old(self)@.loaned
                    &&& final(self)@.loan_counter == old(self)@.loan_counter
                    &&& if old(self).spec_message_type_details().spec_sample_size(1) > usize::MAX {
                        e == PublisherLoanError::InternalFailure
                    } else if old(self)@.loan_counter >= old(self)@.max_loaned_samples {
                        e == PublisherLoanError::ExceedsMaxLoanedSamples
                    } else {
                        exists|refused: ShmAllocationError| #[trigger]
                            spec_refusal(final(self)@.data, old(self).spec_sample_layout(1), refused) && e
                                == Self::spec_loan_error(refused)
                    }
                },
            },
    {
        match self.sample_layout(1) {
            Some(layout) => {
                let result = self.allocate(shm, layout);
                proof {
                    if result is Err && old(self)@.loan_counter < old(self)@.max_loaned_samples {
                        let refused = choose|refused: ShmAllocationError| #[trigger]
                            spec_refusal(self@.data, layout, refused) && result.unwrap_err() == Self::spec_loan_error(
                                refused,
                            );
                        assert(spec_refusal(self@.data, old(self).spec_sample_layout(1), refused));
                    }
                }
                result
            },
            None => Err(PublisherLoanError::InternalFailure),
        }
    }

    /// Loans a bucket for a sample with `slice_len` payload elements. A
    /// publisher whose data segment cannot grow refuses slices beyond its
    /// greatest slice length.
    pub fn loan_slice_uninit(&mut self, shm: &mut Vec<Option<SharedManagementData>>, slice_len: usize) -> (result:
        Result<AllocationPair, PublisherLoanError>)
        requires
            old(self).wf(old(shm)@),
        ensures
            final(self).wf(final(shm)@),
            final(shm).len() == old(shm).len(),
            final(self)@.connected == old(self)@.connected,
            final(self)@.history == old(self)@.history,
            final(self).spec_handle() == old(self).spec_handle(),
            old(self).spec_allocation_strategy() == AllocationStrategy::Static && old(self).spec_initial_max_slice_len()
                < slice_len ==> result == Err::<AllocationPair, PublisherLoanError>(
                PublisherLoanError::ExceedsMaxLoanSize,
            ) && final(self)@ == old(self)@ && final(shm)@ == old(shm)@,
            if (old(self).spec_allocation_strategy() == AllocationStrategy::Static && old(
                self,
            ).spec_initial_max_slice_len() < slice_len) || old(self).spec_message_type_details().spec_sample_size(
                slice_len as nat,
            ) > usize::MAX {
                final(shm)@ == old(shm)@
            } else {
                Self::spec_taken_back(old(self)@.connected, old(shm)@, final(shm)@)
            },
            match result {
                Ok(pair) => {
                    &&& old(self)@.loan_counter < old(self)@.max_loaned_samples
                    &&& final(self)@.loaned == old(self)@.loaned.insert(pair.offset.0)
                    &&& final(self)@.loan_counter == old(self)@.loan_counter + 1
                    &&& final(self)@.spec_is_unsent_loan(pair.offset.0)
                    &&& pair.sample_size == final(self)@.data.bucket_sizes[pair.offset.spec_segment_id() as int]
                    &&& old(self).spec_message_type_details().spec_sample_size(slice_len as nat) <= pair.sample_size
                },
                Err(e) => {
                    &&& final(self)@.loaned == old(self)@.loaned
                    &&& final(self)@.loan_counter == old(self)@.loan_counter
                    &&& if old(self).spec_allocation_strategy() == AllocationStrategy::Static && old(
                        self,
                    ).spec_initial_max_slice_len() < slice_len {
                        e == PublisherLoanError::ExceedsMaxLoanSize
                    } else if old(self).spec_message_type_details().spec_sample_size(slice_len as nat) > usize::MAX {
                        e == PublisherLoanError::InternalFailure
                    } else if old(self)@.loan_counter >= old(self)@.max_loaned_samples {
                        e == PublisherLoanError::ExceedsMaxLoanedSamples
                    } else {
                        exists|refused: ShmAllocationError| #[trigger]
                            spec_refusal(final(self)@.data, old(self).spec_sample_layout(slice_len as nat), refused)
                                && e == Self::spec_loan_error(refused)
                    }
                },
            },
    {
        if self.allocation_strategy == AllocationStrategy::Static && self.initial_max_slice_len < slice_len {
            return Err(PublisherLoanError::ExceedsMaxLoanSize);
        }
        match self.sample_layout(slice_len) {
            Some(layout) => {
                let result = self.allocate(shm, layout);
                proof {
                    if result is Err && old(self)@.loan_counter < old(self)@.max_loaned_samples {
                        let refused = choose|refused: ShmAllocationError| #[trigger]
                            spec_refusal(self@.data, layout, refused) && result.unwrap_err() == Self::spec_loan_error(
                                refused,
                            );
                        assert(spec_refusal(self@.data, old(self).spec_sample_layout(slice_len as nat), refused));
                    }
                }
                result
            },
            None => Err(PublisherLoanError::InternalFailure),
        }
    }

    /// Takes back a loan that the user does not want to send.
    pub fn return_loaned_sample(&mut self, shm: &Vec<Option<SharedManagementData>>, loan: AllocationPair)
        requires
            old(self).wf(shm@),
            old(self)@.loaned.contains(loan.offset.0),
        ensures
            final(self).wf(shm@),
            final(self)@.loaned == old(self)@.loaned.remove(loan.offset.0),
            final(self)@.loan_counter + 1 == old(self)@.loan_counter,
            final(self)@.connected == old(self)@.connected,
            final(self)@.history == old(self)@.history,
            final(self).spec_handle() == old(self).spec_handle(),
    {
        proof {
            self.backend.lemma_reference_counts_balance(shm@);
            vstd::set::axiom_set_contains_len(self.backend@.loaned, loan.offset.0);
        }
        self.backend.return_loaned_sample(shm, loan.offset);
    }

    /// Sends a loan that was not sent before and gives it up. The loan
    /// stays with the user only while the delivery is blocked.
    pub fn send(
        &mut self,
        shm: &mut Vec<Option<SharedManagementData>>,
        registry: &Vec<Option<SubscriberDetails>>,
        loan: AllocationPair,
    ) -> (result: Result<Delivery, PublisherSendError>)
        requires
            old(self).wf(old(shm)@),
            registry.len() == old(shm).len(),
            old(self)@.spec_is_unsent_loan(loan.offset.0),
            loan.sample_size == old(self)@.data.bucket_sizes[loan.offset.spec_segment_id() as int],
        ensures
            final(self).wf(final(shm)@),
            final(shm).len() == old(shm).len(),
            final(self).spec_handle() == old(self).spec_handle(),
            final(self)@.loaned == if result matches Ok(Delivery::Blocked { .. }) {
                old(self)@.loaned
            } else {
                old(self)@.loaned.remove(loan.offset.0)
            },
            exists|sent: PublisherModel| #[trigger]
                spec_send_outcome(
                    old(self)@,
                    spec_views(old(shm)@),
                    registry@,
                    loan.offset,
                    loan.sample_size as nat,
                    sent,
                    spec_views(final(shm)@),
                    result,
                ) && final(self)@.connected == sent.connected && final(self)@.history == sent.history,
    {
        let result = self.backend.send_sample(shm, registry, loan.offset, loan.sample_size);
        let ghost sent = self.backend@;
        match result {
            Ok(Delivery::Blocked { connection, recipients }) => {},
            _ => {
                self.backend.return_loaned_sample(shm, loan.offset);
            },
        }
        proof {
            assert(spec_send_outcome(
                old(self)@,
                spec_views(old(shm)@),
                registry@,
                loan.offset,
                loan.sample_size as nat,
                sent,
                spec_views(shm@),
                result,
            ));
        }
        result
    }

    /// Goes on with a delivery that was blocked at the slot `connection`,
    /// and gives the loan up once the delivery is done.
    pub fn resume_send(
        &mut self,
        shm: &mut Vec<Option<SharedManagementData>>,
        loan: AllocationPair,
        connection: usize,
        recipients: usize,
    ) -> (result: Result<Delivery, PublisherSendError>)
        requires
            old(self).wf(old(shm)@),
            connection <= old(shm).len(),
            recipients <= connection,
            old(self)@.loaned.contains(loan.offset.0),
            forall|i: int|
                connection <= i < old(shm).len() ==> spec_holds(#[trigger] spec_views(old(shm)@)[i], loan.offset.0)
                    == 0,
            loan.sample_size == old(self)@.data.bucket_sizes[loan.offset.spec_segment_id() as int],
        ensures
            result is Ok,
            final(self).wf(final(shm)@),
            final(shm).len() == old(shm).len(),
            final(self).spec_handle() == old(self).spec_handle(),
            final(self)@.connected == old(self)@.connected,
            final(self)@.history == old(self)@.history,
            final(self)@.loaned == if result.unwrap() is Blocked {
                old(self)@.loaned
            } else {
                old(self)@.loaned.remove(loan.offset.0)
            },
            crate::publisher_model::spec_delivery_from(
                old(self)@.connected,
                old(self)@.unable_to_deliver_strategy,
                spec_views(old(shm)@),
                spec_views(final(shm)@),
                loan.offset,
                loan.sample_size as nat,
                connection as int,
                recipients as nat,
                result.unwrap(),
            ),
    {
        proof {
            self.backend.lemma_reference_counts_balance(shm@);
            crate::publisher_model::lemma_balance_at(self.backend@, spec_views(shm@), loan.offset.0);
        }
        let result = self.backend.deliver_sample_from(shm, loan.offset, loan.sample_size, connection, recipients);
        match result {
            Ok(Delivery::Blocked { connection, recipients }) => {},
            _ => {
                self.backend.return_loaned_sample(shm, loan.offset);
            },
        }
        result
    }

    /// Looks at the registry of subscribers and reconciles the connections
    /// with it.
    pub fn update_connections(
        &mut self,
        shm: &mut Vec<Option<SharedManagementData>>,
        registry: &Vec<Option<SubscriberDetails>>,
    ) -> (result: Result<(), crate::publisher::ConnectionFailure>)
        requires
            old(self).wf(old(shm)@),
            registry.len() == old(shm).len(),
        ensures
            final(self).wf(final(shm)@),
            final(shm).len() == old(shm).len(),
            final(self).spec_handle() == old(self).spec_handle(),
            final(self)@.loaned == old(self)@.loaned,
            final(self)@.history == old(self)@.history,
            crate::publisher_model::spec_update_outcome(
                old(self)@,
                spec_views(old(shm)@),
                registry@,
                final(self)@.connected,
                spec_views(final(shm)@),
                result,
            ),
    {
        self.backend.update_connections(shm, registry)
    }

    /// The data segment of a publisher with these settings cannot be
    /// created: the size of a sample or the number of buckets is no
    /// machine number, a sample has no size, or the buckets together are
    /// larger than what an address can hold.
    pub open spec fn spec_data_segment_cannot_be_created(
        static_config: StaticConfig,
        message_type_details: MessageTypeDetails,
        config: LocalPublisherConfig,
    ) -> bool {
        let size = message_type_details.spec_sample_size(config.initial_max_slice_len as nat);
        let samples = static_config.spec_required_amount_of_samples_per_data_segment(config.max_loaned_samples as nat);
        ||| size > usize::MAX
        ||| size == 0
        ||| samples > usize::MAX
        ||| samples * size > MAX_OFFSET
        ||| samples * size > usize::MAX
    }

    /// Creates a publisher: lays out its data segment, connects it to the
    /// subscribers in the registry and enters it into the registry of
    /// publishers. A publisher that finds no room in that registry
    /// detaches from its connections again.
    pub fn new(
        port_id: u128,
        node_id: u128,
        static_config: StaticConfig,
        message_type_details: MessageTypeDetails,
        config: LocalPublisherConfig,
        shm: &mut Vec<Option<SharedManagementData>>,
        subscribers: &Vec<Option<SubscriberDetails>>,
        dynamic_config: &mut DynamicConfig,
    ) -> (result: Result<Publisher, PublisherCreateError>)
        requires
            old(shm).len() <= MAX_SUBSCRIBER_SLOTS,
            subscribers.len() == old(shm).len(),
            static_config.history_size <= MAX_HISTORY_SIZE,
            forall|i: int| 0 <= i < old(shm).len() ==> spec_pristine(#[trigger] old(shm)[i]),
        ensures
            final(shm).len() == old(shm).len(),
            result matches Err(PublisherCreateError::UnableToCreateDataSegment)
                <==> Self::spec_data_segment_cannot_be_created(static_config, message_type_details, config),
            result matches Err(PublisherCreateError::ExceedsMaxSupportedPublishers) <==> {
                &&& !Self::spec_data_segment_cannot_be_created(static_config, message_type_details, config)
                &&& forall|i: int| 0 <= i < old(dynamic_config)@.len() ==> (#[trigger] old(dynamic_config)@[i]).is_some()
            },
            match result {
                Ok(publisher) => {
                    &&& publisher.wf(final(shm)@)
                    &&& publisher@.spec_is_unused()
                    &&& publisher@.port_id == port_id
                    &&& publisher.spec_handle() matches Some(h)
                    &&& h < old(dynamic_config)@.len()
                    &&& old(dynamic_config)@[h as int].is_none()
                    &&& final(dynamic_config)@ == old(dynamic_config)@.update(
                        h as int,
                        Some(
                            PublisherDetails {
                                publisher_id: port_id,
                                node_id,
                                number_of_samples: publisher@.number_of_samples as usize,
                                max_slice_len: config.initial_max_slice_len,
                                data_segment_type: DataSegmentType::spec_from_allocation_strategy(
                                    config.allocation_strategy,
                                ),
                                max_number_of_segments: publisher@.max_number_of_segments,
                            },
                        ),
                    )
                    &&& publisher@.loaned == Set::<u64>::empty()
                    &&& publisher@.loan_counter == 0
                    &&& publisher@.is_active
                    &&& publisher@.history.len() == 0
                    &&& publisher@.history_size == static_config.history_size
                    &&& publisher@.max_loaned_samples == config.max_loaned_samples
                    &&& publisher@.subscribers == subscribers@
                    &&& exists|before: PublisherModel, connected: Result<(), crate::publisher::ConnectionFailure>| #[trigger]
                        spec_first_look(
                            before,
                            publisher@,
                            spec_views(old(shm)@),
                            spec_views(final(shm)@),
                            subscribers@,
                            connected,
                        )
                    &&& publisher.spec_message_type_details() == message_type_details
                    &&& publisher.spec_initial_max_slice_len() == config.initial_max_slice_len
                    &&& publisher.spec_allocation_strategy() == config.allocation_strategy
                },
                Err(PublisherCreateError::ExceedsMaxSupportedPublishers) => {
                    &&& forall|i: int| 0 <= i < old(dynamic_config)@.len() ==> (#[trigger] old(dynamic_config)@[i]).is_some()
                    &&& final(dynamic_config)@ == old(dynamic_config)@
                    &&& forall|i: int|
                        0 <= i < old(shm).len() ==> (#[trigger] final(shm)[i]).is_none() || spec_slot_view(final(shm)[i])
                            == spec_slot_view(old(shm)[i])
                },
                Err(PublisherCreateError::UnableToCreateDataSegment) => {
                    &&& final(dynamic_config)@ == old(dynamic_config)@
                    &&& final(shm)@ == old(shm)@
                },
            },
    {
        let sample_layout = match message_type_details.sample_layout(config.initial_max_slice_len) {
            Some(layout) => layout,
            None => {
                return Err(PublisherCreateError::UnableToCreateDataSegment);
            },
        };
        let mut backend = match PublisherBackend::new(port_id, static_config, config, sample_layout, shm.len()) {
            Ok(backend) => backend,
            Err(e) => {
                return Err(PublisherCreateError::UnableToCreateDataSegment);
            },
        };
        assert(backend.wf(shm@));
        let ghost fresh = backend@;
        assert(fresh.spec_is_fresh());
        let connected = backend.update_connections(shm, subscribers);
        proof {
            assert(spec_first_look(fresh, backend@, spec_views(old(shm)@), spec_views(shm@), subscribers@, connected));
            assert forall|i: int| 0 <= i < shm.len() implies {
                let left = if (#[trigger] backend@.connected[i]).is_some() {
                    spec_after_detach(spec_slot_view(shm[i]), STATE_SENDER)
                } else {
                    spec_slot_view(shm[i])
                };
                left.is_none() || left == spec_slot_view(old(shm)[i])
            } by {
                let before = spec_views(old(shm)@);
                let after = spec_views(shm@);
                assert(after[i] == spec_slot_view(shm[i]));
                assert(before[i] == spec_slot_view(old(shm)[i]));
                if subscribers@ != fresh.subscribers {
                    let model = PublisherModel { subscribers: subscribers@, ..fresh };
                    let stop = choose|stop: int| #[trigger]
                        spec_populate_outcome(
                            model,
                            before,
                            backend@.connected,
                            after,
                            stop,
                            spec_creation_result(connected),
                        );
                    if i < stop {
                        assert(model.connected[i].is_none());
                        let made = spec_reconciled_slot(model, model.subscribers[i], model.connected[i], before[i]);
                        assert(after[i] == made.1);
                        assert(backend@.connected[i] == made.0);
                        if let Some(details) = model.subscribers[i] {
                            let settings = model.spec_connection_settings(details);
                            crate::connection_laws::lemma_one_port_of_each_kind_attaches(
                                settings,
                                STATE_SENDER,
                                STATE_RECEIVER,
                            );
                            if made.0.is_some() {
                                let attached = spec_connect(settings, before[i]).0.unwrap();
                                assert(model.spec_history_tail(attached.buffer_size) =~= Seq::<OffsetAndSize>::empty());
                                assert(after[i] == Some(attached));
                                let s = match before[i] {
                                    Some(found) => found.state,
                                    None => 0u8,
                                };
                                assert(attached.state == s | 1u8);
                                assert(s & 1u8 == 0 && s & 0x80u8 == 0);
                                assert(s & 1u8 == 0 && s & 0x80u8 == 0 ==> (s | 1u8) != 0x80u8 && ((s | 1u8) == 1u8 <==> s
                                    == 0u8) && (s | 1u8) & !1u8 == s) by (bit_vector);
                                if let Some(found) = before[i] {
                                    if s != 0u8 {
                                        assert(attached.spec_released(STATE_SENDER) =~= found);
                                    }
                                }
                            }
                        }
                    }
                }
            }
        }
        let publisher_details = PublisherDetails {
            publisher_id: port_id,
            node_id,
            number_of_samples: backend.number_of_samples(),
            max_slice_len: config.initial_max_slice_len,
            data_segment_type: DataSegmentType::new_from_allocation_strategy(config.allocation_strategy),
            max_number_of_segments: backend.max_number_of_segments(),
        };
        let handle = match dynamic_config.add_publisher_id(publisher_details) {
            Some(handle) => handle,
            None => {
                backend.detach_all(shm);
                return Err(PublisherCreateError::ExceedsMaxSupportedPublishers);
            },
        };
        Ok(
            Publisher {
                backend,
                dynamic_publisher_handle: Some(handle),
                message_type_details,
                initial_max_slice_len: config.initial_max_slice_len,
                allocation_strategy: config.allocation_strategy,
            },
        )
    }

    /// Ends the publisher: it leaves the registry of publishers and the
    /// sender of every connection detaches. A block stays behind, with
    /// what it has in flight, exactly where a receiver is still attached
    /// to it.
    pub fn release(self, shm: &mut Vec<Option<SharedManagementData>>, dynamic_config: &mut DynamicConfig)
        requires
            self.wf(old(shm)@),
        ensures
            final(shm).len() == old(shm).len(),
            self@.connected.len() == old(shm).len(),
            forall|i: int|
                0 <= i < old(shm).len() ==> {
                    &&& spec_slot_wf(#[trigger] final(shm)[i])
                    &&& spec_slot_view(final(shm)[i]) == if self@.connected[i].is_some() {
                        spec_after_detach(spec_slot_view(old(shm)[i]), STATE_SENDER)
                    } else {
                        spec_slot_view(old(shm)[i])
                    }
                },
            final(dynamic_config)@ == match self.spec_handle() {
                Some(h) => if h < old(dynamic_config)@.len() {
                    old(dynamic_config)@.update(h as int, None)
                } else {
                    old(dynamic_config)@
                },
                None => old(dynamic_config)@,
            },
    {
        if let Some(handle) = self.dynamic_publisher_handle {
            dynamic_config.release_publisher_handle(handle);
        }
        self.backend.detach_all(shm);
    }
}

/// Why the connections of a service could not be listed.
#[derive(Debug, Clone, Copy, PartialEq, Eq, Structural)]
pub enum NamedConceptListError {
    InsufficientPermissions,
    InternalError,
}

/// What is found under the name of one connection: the ports that the name
/// says it connects, and the block, if it still exists.
pub struct NamedConnection {
    pub publisher_id: u128,
    pub subscriber_id: u128,
    pub block: Option<SharedManagementData>,
}

/// The result of a cleanup whose listing of the connections came to
/// `listing`, as far as the listing decides it.
pub open spec fn spec_connections(listing: Result<(), NamedConceptListError>) -> Result<
    (),
    RemovePubSubPortFromAllConnectionsError,
> {
    match listing {
        Ok(()) => Ok(()),
        Err(NamedConceptListError::InsufficientPermissions) => Err(
            RemovePubSubPortFromAllConnectionsError::InsufficientPermissions,
        ),
        Err(NamedConceptListError::InternalError) => Err(RemovePubSubPortFromAllConnectionsError::InternalError),
    }
}

/// Passes on the outcome of listing the connections of a service.
pub fn connections(listing: Result<(), NamedConceptListError>) -> (result: Result<
    (),
    RemovePubSubPortFromAllConnectionsError,
>)
    ensures
        result == spec_connections(listing),
{
    match listing {
        Ok(()) => Ok(()),
        Err(NamedConceptListError::InsufficientPermissions) => Err(
            RemovePubSubPortFromAllConnectionsError::InsufficientPermissions,
        ),
        Err(NamedConceptListError::InternalError) => Err(RemovePubSubPortFromAllConnectionsError::InternalError),
    }
}

/// Whether the connection `entry` has the port `port_id` on the side that
/// `state` stands for.
pub open spec fn spec_concerns(entry: NamedConnection, port_id: u128, state: State) -> bool {
    match state {
        State::Sender => entry.publisher_id == port_id,
        State::Receiver => entry.subscriber_id == port_id,
        _ => false,
    }
}

/// What removing a dead port from all connections has made of the
/// connections of a service: the port is detached from every connection
/// that it was a port of, and the other connections are as they were.
pub open spec fn spec_port_removed(
    before: Seq<NamedConnection>,
    after: Seq<NamedConnection>,
    port_id: u128,
    state: State,
) -> bool {
    &&& after.len() == before.len()
    &&& forall|i: int|
        0 <= i < before.len() ==> {
            &&& (#[trigger] after[i]).publisher_id == before[i].publisher_id
            &&& after[i].subscriber_id == before[i].subscriber_id
            &&& spec_slot_wf(after[i].block)
            &&& spec_slot_view(after[i].block) == if spec_concerns(before[i], port_id, state) {
                spec_after_detach(spec_slot_view(before[i].block), state.spec_value())
            } else {
                spec_slot_view(before[i].block)
            }
        }
}

/// Removes the port `port_id` of a process that has died from all
/// connections that it was a port of.
fn remove_port_from_all_connections(
    port_id: u128,
    state: State,
    listing: Result<(), NamedConceptListError>,
    connection_list: &mut Vec<NamedConnection>,
) -> (result: Result<(), RemovePubSubPortFromAllConnectionsError>)
    requires
        state == State::Sender || state == State::Receiver,
        forall|i: int| 0 <= i < old(connection_list).len() ==> spec_slot_wf((#[trigger] old(connection_list)[i]).block),
    ensures
        match listing {
            Err(_) => result == spec_connections(listing) && final(connection_list)@ == old(connection_list)@,
            Ok(()) => {
                &&& spec_port_removed(old(connection_list)@, final(connection_list)@, port_id, state)
                &&& result == if exists|i: int|
                    0 <= i < old(connection_list).len() && spec_concerns(#[trigger] old(connection_list)[i], port_id, state)
                        && old(connection_list)[i].block.is_none() {
                    Err::<(), RemovePubSubPortFromAllConnectionsError>(
                        RemovePubSubPortFromAllConnectionsError::CleanupRaceDetected,
                    )
                } else {
                    Ok(())
                }
            },
        },
{
    connections(listing)?;
    let mut ret_val: Result<(), RemovePubSubPortFromAllConnectionsError> = Ok(());
    let mut i: usize = 0;
    while i < connection_list.len()
        invariant
            i <= connection_list.len(),
            connection_list.len() == old(connection_list).len(),
            state == State::Sender || state == State::Receiver,
            forall|k: int| i <= k < connection_list.len() ==> connection_list[k] == old(connection_list)[k],
            forall|k: int| 0 <= k < old(connection_list).len() ==> spec_slot_wf((#[trigger] old(connection_list)[k]).block),
            forall|k: int|
                0 <= k < i ==> {
                    &&& (#[trigger] connection_list[k]).publisher_id == old(connection_list)[k].publisher_id
                    &&& connection_list[k].subscriber_id == old(connection_list)[k].subscriber_id
                    &&& spec_slot_wf(connection_list[k].block)
                    &&& spec_slot_view(connection_list[k].block) == if spec_concerns(
                        old(connection_list)[k],
                        port_id,
                        state,
                    ) {
                        spec_after_detach(spec_slot_view(old(connection_list)[k].block), state.spec_value())
                    } else {
                        spec_slot_view(old(connection_list)[k].block)
                    }
                },
            ret_val == if exists|k: int|
                0 <= k < i && spec_concerns(#[trigger] old(connection_list)[k], port_id, state) && old(
                    connection_list,
                )[k].block.is_none() {
                Err::<(), RemovePubSubPortFromAllConnectionsError>(
                    RemovePubSubPortFromAllConnectionsError::CleanupRaceDetected,
                )
            } else {
                Ok(())
            },
        decreases connection_list.len() - i,
    {
        let concerned = match state {
            State::Sender => connection_list[i].publisher_id == port_id,
            _ => connection_list[i].subscriber_id == port_id,
        };
        if concerned {
            let mut block = connection_list[i].block.take();
            let removed = match state {
                State::Sender => Connection::remove_sender(&mut block),
                _ => Connection::remove_receiver(&mut block),
            };
            connection_list[i].block = block;
            let result = handle_port_remove_error(removed);
            if ret_val.is_ok() {
                ret_val = result;
            }
            proof {
                assert(old(connection_list)[i as int].block.is_none() <==> result.is_err());
            }
        }
        proof {
            assert(spec_concerns(old(connection_list)[i as int], port_id, state) == concerned);
        }
        i += 1;
    }
    ret_val
}

/// Removes the publisher `port_id` of a process that has died from all
/// connections: detaches its sender from each of them. A connection of
/// the publisher that is no longer there points to a race in the cleanup;
/// the others are dealt with all the same.
pub fn remove_publisher_from_all_connections(
    port_id: u128,
    listing: Result<(), NamedConceptListError>,
    connection_list: &mut Vec<NamedConnection>,
) -> (result: Result<(), RemovePubSubPortFromAllConnectionsError>)
    requires
        forall|i: int| 0 <= i < old(connection_list).len() ==> spec_slot_wf((#[trigger] old(connection_list)[i]).block),
    ensures
        match listing {
            Err(_) => result == spec_connections(listing) && final(connection_list)@ == old(connection_list)@,
            Ok(()) => {
                &&& spec_port_removed(old(connection_list)@, final(connection_list)@, port_id, State::Sender)
                &&& result == if exists|i: int|
                    0 <= i < old(connection_list).len() && (#[trigger] old(connection_list)[i]).publisher_id == port_id
                        && old(connection_list)[i].block.is_none() {
                    Err::<(), RemovePubSubPortFromAllConnectionsError>(
                        RemovePubSubPortFromAllConnectionsError::CleanupRaceDetected,
                    )
                } else {
                    Ok(())
                }
            },
        },
{
    let result = remove_port_from_all_connections(port_id, State::Sender, listing, connection_list);
    proof {
        if listing.is_ok() {
            let found = exists|i: int|
                0 <= i < old(connection_list).len() && spec_concerns(
                    #[trigger] old(connection_list)[i],
                    port_id,
                    State::Sender,
                ) && old(connection_list)[i].block.is_none();
            let wanted = exists|i: int|
                0 <= i < old(connection_list).len() && (#[trigger] old(connection_list)[i]).publisher_id == port_id
                    && old(connection_list)[i].block.is_none();
            if found {
                let i = choose|i: int|
                    0 <= i < old(connection_list).len() && spec_concerns(
                        #[trigger] old(connection_list)[i],
                        port_id,
                        State::Sender,
                    ) && old(connection_list)[i].block.is_none();
                assert(old(connection_list)[i].publisher_id == port_id);
            }
            if wanted {
                let i = choose|i: int|
                    0 <= i < old(connection_list).len() && (#[trigger] old(connection_list)[i]).publisher_id == port_id
                        && old(connection_list)[i].block.is_none();
                assert(spec_concerns(old(connection_list)[i], port_id, State::Sender));
            }
        }
    }
    result
}

/// Removes the subscriber `port_id` of a process that has died from all
/// connections: detaches its receiver from each of them.
pub fn remove_subscriber_from_all_connections(
    port_id: u128,
    listing: Result<(), NamedConceptListError>,
    connection_list: &mut Vec<NamedConnection>,
) -> (result: Result<(), RemovePubSubPortFromAllConnectionsError>)
    requires
        forall|i: int| 0 <= i < old(connection_list).len() ==> spec_slot_wf((#[trigger] old(connection_list)[i]).block),
    ensures
        match listing {
            Err(_) => result == spec_connections(listing) && final(connection_list)@ == old(connection_list)@,
            Ok(()) => {
                &&& spec_port_removed(old(connection_list)@, final(connection_list)@, port_id, State::Receiver)
                &&& result == if exists|i: int|
                    0 <= i < old(connection_list).len() && (#[trigger] old(connection_list)[i]).subscriber_id == port_id
                        && old(connection_list)[i].block.is_none() {
                    Err::<(), RemovePubSubPortFromAllConnectionsError>(
                        RemovePubSubPortFromAllConnectionsError::CleanupRaceDetected,
                    )
                } else {
                    Ok(())
                }
            },
        },
{
    let result = remove_port_from_all_connections(port_id, State::Receiver, listing, connection_list);
    proof {
        if listing.is_ok() {
            let found = exists|i: int|
                0 <= i < old(connection_list).len() && spec_concerns(
                    #[trigger] old(connection_list)[i],
                    port_id,
                    State::Receiver,
                ) && old(connection_list)[i].block.is_none();
            let wanted = exists|i: int|
                0 <= i < old(connection_list).len() && (#[trigger] old(connection_list)[i]).subscriber_id == port_id
                    && old(connection_list)[i].block.is_none();
            if found {
                let i = choose|i: int|
                    0 <= i < old(connection_list).len() && spec_concerns(
                        #[trigger] old(connection_list)[i],
                        port_id,
                        State::Receiver,
                    ) && old(connection_list)[i].block.is_none();
                assert(old(connection_list)[i].subscriber_id == port_id);
            }
            if wanted {
                let i = choose|i: int|
                    0 <= i < old(connection_list).len() && (#[trigger] old(connection_list)[i]).subscriber_id == port_id
                        && old(connection_list)[i].block.is_none();
                assert(spec_concerns(old(connection_list)[i], port_id, State::Receiver));
            }
        }
    }
    result
}

} // verus!
