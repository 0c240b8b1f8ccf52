//! The receiving side of publish-subscribe: the connections that a
//! subscriber holds to the publishers of its service, one slot each.

use vstd::prelude::*;
use crate::data_segment::{DataSegmentType, DataSegmentView, SharedMemoryOpenError};
use crate::naming_scheme::connection_name;
use crate::pointer_offset::PointerOffset;
use crate::publisher::{ConnectionFailure, PublisherDetails, StaticConfig};
use crate::zero_copy_connection::{
    spec_slot_view, spec_slot_wf, Builder, BuilderView, ConnectionView, Receiver, SharedManagementData,
    ZeroCopyCreationError, ZeroCopyReleaseError, STATE_RECEIVER,
};

verus! {

/// The receiving port that a subscriber holds for one publisher, and its
/// view of the publisher's data segment.
pub struct Connection {
    receiver: Receiver,
    data_segment: DataSegmentView,
    publisher_id: u128,
}

/// A sample as a subscriber gets it: the address of its bucket in the data
/// segment of the publisher, and the address of the same bucket in the
/// process of the subscriber.
#[derive(Debug, Clone, Copy, PartialEq, Eq, Structural)]
pub struct ReceivedSample {
    pub offset: PointerOffset,
    pub address: usize,
}

/// Why a subscriber could not get a sample.
#[derive(Debug, Clone, Copy, PartialEq, Eq, Structural)]
pub enum SubscriberReceiveError {
    /// The subscriber holds as many samples as it may.
    ExceedsMaxBorrowedSamples,
    /// The segment that the sample lives in could not be mapped. The
    /// sample stays borrowed until it is released.
    UnableToMapPublishersDataSegment(PointerOffset, SharedMemoryOpenError),
}

impl Connection {
    pub closed spec fn spec_publisher_id(&self) -> u128 {
        self.publisher_id
    }

    pub closed spec fn spec_borrow_counter(&self) -> nat {
        self.receiver.spec_borrow_counter()
    }

    /// Per segment id, where the segment is mapped, if it is.
    pub closed spec fn spec_segments(&self) -> Seq<Option<crate::data_segment::MappedSegment>> {
        self.data_segment@
    }

    /// Whether the data segment of the publisher is static or dynamic.
    pub closed spec fn spec_segment_type(&self) -> crate::data_segment::DataSegmentType {
        self.data_segment.spec_segment_type()
    }

    pub closed spec fn wf(&self) -> bool {
        self.data_segment.wf()
    }

    /// What receiving comes to once the connection has handed out the
    /// byte distance `offset`: the segments of the view afterwards, and
    /// the sample at its address here, or the reason why its segment
    /// could not be mapped.
    pub open spec fn spec_received_sample(
        segments: Seq<Option<crate::data_segment::MappedSegment>>,
        segment_type: crate::data_segment::DataSegmentType,
        offset: PointerOffset,
        mapping: Result<usize, SharedMemoryOpenError>,
    ) -> (Seq<Option<crate::data_segment::MappedSegment>>, Result<Option<ReceivedSample>, SubscriberReceiveError>) {
        let translated = crate::data_segment::DataSegmentView::spec_translated(segments, segment_type, offset, mapping);
        (
            translated.0,
            match translated.1 {
                Ok(address) => Ok(Some(ReceivedSample { offset, address })),
                Err(e) => Err(SubscriberReceiveError::UnableToMapPublishersDataSegment(offset, e)),
            },
        )
    }

    pub fn publisher_id(&self) -> (id: u128)
        ensures
            id == self.spec_publisher_id(),
    {
        self.publisher_id
    }

    pub fn borrow_counter(&self) -> (count: usize)
        ensures
            count == self.spec_borrow_counter(),
    {
        self.receiver.borrow_counter()
    }

    /// Whether the publisher has sent something that was not received yet.
    pub fn has_data(&self, storage: &SharedManagementData) -> (has_data: bool)
        ensures
            has_data == (storage@.submission.len() > 0),
    {
        self.receiver.has_data(storage)
    }

    /// Takes the oldest sample that the publisher has sent and finds the
    /// bucket in the memory of this process. The subscriber sees the
    /// bucket that the publisher wrote: its address here, less the address
    /// at which the segment is mapped here, is the byte distance that the
    /// publisher sent. `mapping` is what mapping the segment comes to
    /// where it is not mapped yet.
    pub fn receive(&mut self, storage: &mut SharedManagementData, mapping: Result<usize, SharedMemoryOpenError>) -> (result:
        Result<Option<ReceivedSample>, SubscriberReceiveError>)
        requires
            old(self).wf(),
            old(storage).wf(),
        ensures
            final(self).wf(),
            final(storage).wf(),
            final(self).spec_publisher_id() == old(self).spec_publisher_id(),
            final(self).spec_segment_type() == old(self).spec_segment_type(),
            old(storage)@.spec_receive(old(self).spec_borrow_counter()).2 matches Ok(Some(offset)) ==> (
                final(self).spec_segments(),
                result,
            ) == Self::spec_received_sample(old(self).spec_segments(), old(self).spec_segment_type(), offset, mapping),
            (final(storage)@, final(self).spec_borrow_counter()) == (
                old(storage)@.spec_receive(old(self).spec_borrow_counter()).0,
                old(storage)@.spec_receive(old(self).spec_borrow_counter()).1,
            ),
            match old(storage)@.spec_receive(old(self).spec_borrow_counter()).2 {
                Err(_) => result == Err::<Option<ReceivedSample>, SubscriberReceiveError>(
                    SubscriberReceiveError::ExceedsMaxBorrowedSamples,
                ) && final(self).spec_segments() == old(self).spec_segments(),
                Ok(None) => result == Ok::<Option<ReceivedSample>, SubscriberReceiveError>(None)
                    && final(self).spec_segments() == old(self).spec_segments(),
                Ok(Some(offset)) => match result {
                    Ok(Some(sample)) => {
                        &&& sample.offset == offset
                        &&& final(self).spec_segments()[offset.spec_segment_id() as int] matches Some(mapped)
                        &&& sample.address - mapped.payload_start_address == offset.spec_offset()
                    },
                    Err(SubscriberReceiveError::UnableToMapPublishersDataSegment(unmapped, _)) => unmapped == offset
                        && final(self).spec_segments() == old(self).spec_segments(),
                    _ => false,
                },
            },
    {
        match self.receiver.receive(storage) {
            Err(_) => Err(SubscriberReceiveError::ExceedsMaxBorrowedSamples),
            Ok(None) => Ok(None),
            Ok(Some(offset)) => match self.data_segment.register_and_translate_offset(offset, mapping) {
                Ok(address) => Ok(Some(ReceivedSample { offset, address })),
                Err(e) => Err(SubscriberReceiveError::UnableToMapPublishersDataSegment(offset, e)),
            },
        }
    }

    /// Gives a sample back to the publisher.
    pub fn release(&mut self, storage: &mut SharedManagementData, offset: PointerOffset) -> (result: Result<
        (),
        ZeroCopyReleaseError,
    >)
        requires
            old(self).wf(),
            old(storage).wf(),
            old(storage)@.completion.len() < old(storage)@.completion_capacity ==> old(self).spec_borrow_counter() > 0,
        ensures
            final(self).wf(),
            final(storage).wf(),
            final(self).spec_publisher_id() == old(self).spec_publisher_id(),
            (final(storage)@, final(self).spec_borrow_counter(), result) == old(storage)@.spec_release(
                old(self).spec_borrow_counter(),
                offset,
            ),
    {
        let result = self.receiver.release(storage, offset);
        if result.is_ok() {
            self.data_segment.unregister_offset(offset);
        }
        result
    }
}

/// The connections of a subscriber, one slot per publisher.
pub struct PublisherConnections {
    connections: Vec<Option<Connection>>,
    subscriber_id: u128,
    static_config: StaticConfig,
    buffer_size: usize,
}

impl PublisherConnections {
    /// Per slot, the publisher that the subscriber is connected to.
    pub closed spec fn view(&self) -> Seq<Option<u128>> {
        Seq::new(
            self.connections.len() as nat,
            |i: int|
                match self.connections[i] {
                    Some(connection) => Some(connection.spec_publisher_id()),
                    None => None,
                },
        )
    }

    pub closed spec fn wf(&self) -> bool {
        forall|i: int|
            0 <= i < self.connections.len() ==> match #[trigger] self.connections[i] {
                Some(connection) => connection.wf(),
                None => true,
            }
    }

    pub closed spec fn spec_subscriber_id(&self) -> u128 {
        self.subscriber_id
    }

    /// The settings of the connection to the publisher `details`.
    pub closed spec fn spec_connection_settings(&self, details: PublisherDetails) -> BuilderView {
        BuilderView {
            buffer_size: if self.buffer_size == 0 {
                1
            } else {
                self.buffer_size as nat
            },
            enable_safe_overflow: self.static_config.enable_safe_overflow,
            max_borrowed_samples: if self.static_config.subscriber_max_borrowed_samples == 0 {
                1
            } else {
                self.static_config.subscriber_max_borrowed_samples as nat
            },
            number_of_samples_per_segment: details.number_of_samples as nat,
            number_of_segments: if details.max_number_of_segments == 0 {
                1
            } else {
                details.max_number_of_segments
            },
        }
    }

    /// A table with `capacity` slots and no connection.
    pub fn new(capacity: usize, subscriber_id: u128, static_config: &StaticConfig, buffer_size: usize) -> (table:
        PublisherConnections)
        ensures
            table.wf(),
            table@ == Seq::new(capacity as nat, |i: int| None::<u128>),
            table.spec_subscriber_id() == subscriber_id,
    {
        let mut connections: Vec<Option<Connection>> = Vec::new();
        let mut i: usize = 0;
        while i < capacity
            invariant
                i <= capacity,
                connections.len() == i,
                forall|k: int| 0 <= k < i ==> (#[trigger] connections[k]).is_none(),
            decreases capacity - i,
        {
            connections.push(None);
            i += 1;
        }
        let table = PublisherConnections { connections, subscriber_id, static_config: *static_config, buffer_size };
        assert(table@ =~= Seq::new(capacity as nat, |i: int| None::<u128>));
        table
    }

    pub fn subscriber_id(&self) -> (id: u128)
        ensures
            id == self.spec_subscriber_id(),
    {
        self.subscriber_id
    }

    /// The connection in the slot `index`.
    pub fn get(&self, index: usize) -> (connection: &Option<Connection>)
        requires
            self.wf(),
            index < self@.len(),
        ensures
            match connection {
                Some(c) => self@[index as int] == Some(c.spec_publisher_id()) && c.wf(),
                None => self@[index as int].is_none(),
            },
    {
        &self.connections[index]
    }

    /// Takes the connection out of the slot `index`, to work with it, and
    /// leaves the slot empty.
    pub fn take(&mut self, index: usize) -> (connection: Option<Connection>)
        requires
            old(self).wf(),
            index < old(self)@.len(),
        ensures
            final(self).wf(),
            final(self)@ == old(self)@.update(index as int, None),
            final(self).spec_subscriber_id() == old(self).spec_subscriber_id(),
            match connection {
                Some(c) => old(self)@[index as int] == Some(c.spec_publisher_id()) && c.wf(),
                None => old(self)@[index as int].is_none(),
            },
    {
        let connection = self.connections[index].take();
        assert(self@ =~= old(self)@.update(index as int, None));
        connection
    }

    /// Puts a connection into the slot `index`.
    pub fn put(&mut self, index: usize, connection: Connection)
        requires
            old(self).wf(),
            connection.wf(),
            index < old(self)@.len(),
        ensures
            final(self).wf(),
            final(self)@ == old(self)@.update(index as int, Some(connection.spec_publisher_id())),
            final(self).spec_subscriber_id() == old(self).spec_subscriber_id(),
    {
        self.connections[index] = Some(connection);
        assert(self@ =~= old(self)@.update(index as int, Some(connection.spec_publisher_id())));
    }

    /// Connects the slot `index` to the publisher `details`: attaches a
    /// receiver to the block in `slot`, or to a new block if there is
    /// none, and opens the view of the publisher's data segment. `mapping`
    /// is what mapping the segment of a static data segment came to. If
    /// the view cannot be opened the receiver is detached again. A block
    /// that would have to be created is not created if its channels
    /// cannot be allocated.
    pub fn create(
        &mut self,
        index: usize,
        details: &PublisherDetails,
        slot: &mut Option<SharedManagementData>,
        mapping: Result<usize, SharedMemoryOpenError>,
    ) -> (result: Result<(), ConnectionFailure>)
        requires
            old(self).wf(),
            index < old(self)@.len(),
            spec_slot_wf(*old(slot)),
        ensures
            final(self).wf(),
            spec_slot_wf(*final(slot)),
            final(self).spec_subscriber_id() == old(self).spec_subscriber_id(),
            ({
                let settings = old(self).spec_connection_settings(*details);
                let attempt = if old(slot).is_none() && !settings.fits() {
                    (None::<ConnectionView>, Err::<(), ZeroCopyCreationError>(ZeroCopyCreationError::InternalError))
                } else {
                    settings.spec_create_port(spec_slot_view(*old(slot)), STATE_RECEIVER)
                };
                match attempt.1 {
                    Err(e) => {
                        &&& result == Err::<(), ConnectionFailure>(ConnectionFailure::FailedToEstablishConnection(e))
                        &&& spec_slot_view(*final(slot)) == attempt.0
                        &&& final(self)@ == old(self)@
                    },
                    Ok(()) => if details.data_segment_type == DataSegmentType::Static && mapping.is_err() {
                        &&& result == Err::<(), ConnectionFailure>(
                            ConnectionFailure::UnableToMapPublishersDataSegment(mapping.unwrap_err()),
                        )
                        &&& spec_slot_view(*final(slot)) == crate::zero_copy_connection::spec_after_detach(
                            attempt.0,
                            STATE_RECEIVER,
                        )
                        &&& final(self)@ == old(self)@
                    } else {
                        &&& result == Ok::<(), ConnectionFailure>(())
                        &&& spec_slot_view(*final(slot)) == attempt.0
                        &&& final(self)@ == old(self)@.update(index as int, Some(details.publisher_id))
                    },
                }
            }),
    {
        let name = connection_name(details.publisher_id, self.subscriber_id);
        let builder = Builder::new(&name).buffer_size(self.buffer_size).receiver_max_borrowed_samples(
            self.static_config.subscriber_max_borrowed_samples,
        ).enable_safe_overflow(self.static_config.enable_safe_overflow).number_of_samples_per_segment(
            details.number_of_samples,
        ).max_supported_shared_memory_segments(details.max_number_of_segments);
        if slot.is_none() && !builder.fits() {
            return Err(ConnectionFailure::FailedToEstablishConnection(ZeroCopyCreationError::InternalError));
        }
        let receiver = match builder.create_receiver(slot) {
            Ok(receiver) => receiver,
            Err(e) => {
                return Err(ConnectionFailure::FailedToEstablishConnection(e));
            },
        };
        let data_segment = match DataSegmentView::open(details.data_segment_type, mapping) {
            Ok(data_segment) => data_segment,
            Err(e) => {
                receiver.detach(slot);
                return Err(ConnectionFailure::UnableToMapPublishersDataSegment(e));
            },
        };
        self.connections[index] = Some(Connection { receiver, data_segment, publisher_id: details.publisher_id });
        proof {
            assert(self@ =~= old(self)@.update(index as int, Some(details.publisher_id)));
        }
        Ok(())
    }

    /// Gives up the connection in the slot `index`, if there is one, and
    /// detaches its receiver from the block in `slot`.
    pub fn remove(&mut self, index: usize, slot: &mut Option<SharedManagementData>)
        requires
            old(self).wf(),
            index < old(self)@.len(),
            spec_slot_wf(*old(slot)),
        ensures
            final(self).wf(),
            spec_slot_wf(*final(slot)),
            final(self)@ == old(self)@.update(index as int, None),
            final(self).spec_subscriber_id() == old(self).spec_subscriber_id(),
            spec_slot_view(*final(slot)) == if old(self)@[index as int].is_some() {
                crate::zero_copy_connection::spec_after_detach(spec_slot_view(*old(slot)), STATE_RECEIVER)
            } else {
                spec_slot_view(*old(slot))
            },
    {
        let connection = self.connections[index].take();
        proof {
            assert(self@ =~= old(self)@.update(index as int, None));
        }
        match connection {
            Some(connection) => match connection {
                Connection { receiver, data_segment, publisher_id } => {
                    receiver.detach(slot);
                },
            },
            None => {},
        }
    }

    /// Number of slots.
    pub fn len(&self) -> (len: usize)
        ensures
            len == self@.len(),
    {
        self.connections.len()
    }

    /// Number of slots.
    pub fn capacity(&self) -> (capacity: usize)
        ensures
            capacity == self@.len(),
    {
        self.connections.len()
    }
}

} // verus!
