use zero_copy_transport::data_segment::{DataSegmentType, SharedMemoryOpenError};
use zero_copy_transport::message_type_details::{MessageTypeDetails, TypeDetail, TypeVariant};
use zero_copy_transport::pointer_offset::PointerOffset;
use zero_copy_transport::port::{DynamicConfig, Publisher};
use zero_copy_transport::publisher::{
    handle_port_remove_error, new_shared_memory, on_corrupted_connection, AllocationPair, ConnectionFailure,
    DegrationAction, Delivery, LocalPublisherConfig, PublisherCreateError, PublisherDetails, PublisherLoanError,
    PublisherSendError, RemovePubSubPortFromAllConnectionsError, StaticConfig, SubscriberDetails,
    UnableToDeliverStrategy,
};
use zero_copy_transport::publisher_connections::{PublisherConnections, ReceivedSample, SubscriberReceiveError};
use zero_copy_transport::shm_allocator::AllocationStrategy;
use zero_copy_transport::zero_copy_connection::{
    Connection, SharedManagementData, ZeroCopyCreationError, ZeroCopyPortRemoveError,
};

const PUBLISHER_ID: u128 = 1000;
const NODE_ID: u128 = 7;
const BASE_ADDRESS: usize = 0x10_0000;

fn static_config(history_size: usize, buffer_size: usize, max_borrow: usize, overflow: bool) -> StaticConfig {
    StaticConfig {
        max_subscribers: 2,
        max_publishers: 1,
        max_nodes: 4,
        history_size,
        subscriber_max_buffer_size: buffer_size,
        subscriber_max_borrowed_samples: max_borrow,
        enable_safe_overflow: overflow,
    }
}

fn local_config(max_loaned_samples: usize, strategy: UnableToDeliverStrategy) -> LocalPublisherConfig {
    LocalPublisherConfig {
        max_loaned_samples,
        unable_to_deliver_strategy: strategy,
        degration_callback: None,
        initial_max_slice_len: 1,
        allocation_strategy: AllocationStrategy::Static,
    }
}

fn message_type_details() -> MessageTypeDetails {
    MessageTypeDetails::from_details(
        TypeDetail::new(TypeVariant::FixedSize, "Header".to_string(), 8, 8),
        TypeDetail::new(TypeVariant::FixedSize, "()".to_string(), 0, 1),
        TypeDetail::new(TypeVariant::FixedSize, "u64".to_string(), 8, 8),
    )
}

fn subscriber(id: u128, buffer_size: usize) -> Option<SubscriberDetails> {
    Some(SubscriberDetails { subscriber_id: id, node_id: NODE_ID, buffer_size })
}

struct Fixture {
    publisher: Publisher,
    shm: Vec<Option<SharedManagementData>>,
    registry: Vec<Option<SubscriberDetails>>,
    dynamic_config: DynamicConfig,
    config: StaticConfig,
}

impl Fixture {
    fn new(config: StaticConfig, local: LocalPublisherConfig) -> Self {
        let mut shm = new_shared_memory(2);
        let registry = vec![None, None];
        let mut dynamic_config = DynamicConfig::new(1);
        let publisher = Publisher::new(
            PUBLISHER_ID,
            NODE_ID,
            config,
            message_type_details(),
            local,
            &mut shm,
            &registry,
            &mut dynamic_config,
        )
        .unwrap();
        Self { publisher, shm, registry, dynamic_config, config }
    }

    fn details(&self) -> PublisherDetails {
        PublisherDetails {
            publisher_id: PUBLISHER_ID,
            node_id: NODE_ID,
            number_of_samples: self.publisher.backend().number_of_samples(),
            max_slice_len: 1,
            data_segment_type: DataSegmentType::Static,
            max_number_of_segments: self.publisher.backend().max_number_of_segments(),
        }
    }

    fn join(&mut self, slot: usize, id: u128, buffer_size: usize) -> PublisherConnections {
        self.registry[slot] = subscriber(id, buffer_size);
        let mut table = PublisherConnections::new(1, id, &self.config, buffer_size);
        let details = self.details();
        table.create(0, &details, &mut self.shm[slot], Ok(BASE_ADDRESS)).unwrap();
        table
    }

    fn loan(&mut self) -> AllocationPair {
        self.publisher.loan_uninit(&mut self.shm).unwrap()
    }

    fn publish(&mut self) -> (AllocationPair, Delivery) {
        let loan = self.loan();
        let delivery = self.publisher.send(&mut self.shm, &self.registry, loan).unwrap();
        (loan, delivery)
    }

    fn receive(&mut self, table: &mut PublisherConnections, slot: usize) -> Option<ReceivedSample> {
        let mut connection = table.take(0).unwrap();
        let sample = connection.receive(self.shm[slot].as_mut().unwrap(), Ok(BASE_ADDRESS)).unwrap();
        table.put(0, connection);
        sample
    }

    fn release(&mut self, table: &mut PublisherConnections, slot: usize, offset: PointerOffset) {
        let mut connection = table.take(0).unwrap();
        connection.release(self.shm[slot].as_mut().unwrap(), offset).unwrap();
        table.put(0, connection);
    }

    fn count(&self, offset: PointerOffset) -> u64 {
        self.publisher.backend().reference_count(offset)
    }
}

#[test]
fn publisher_needs_a_bucket_for_everything_that_can_be_held() {
    let config = static_config(3, 2, 4, false);
    assert_eq!(config.required_amount_of_samples_per_data_segment(5), Some(2 * (2 + 4) + 3 + 5 + 1));
    let huge = StaticConfig { max_subscribers: usize::MAX, ..config };
    assert_eq!(huge.required_amount_of_samples_per_data_segment(5), None);
}

#[test]
fn new_publisher_is_registered_and_idle() {
    let fixture = Fixture::new(static_config(0, 2, 2, false), local_config(2, UnableToDeliverStrategy::DiscardSample));
    assert_eq!(fixture.publisher.id(), PUBLISHER_ID);
    assert_eq!(fixture.publisher.unable_to_deliver_strategy(), UnableToDeliverStrategy::DiscardSample);
    assert_eq!(fixture.publisher.initial_max_slice_len(), 1);
    assert_eq!(fixture.publisher.backend().loan_counter(), 0);
    assert!(fixture.publisher.backend().is_active());
    assert_eq!(fixture.publisher.backend().number_of_slots(), 2);
    assert_eq!(fixture.publisher.backend().number_of_samples(), 2 * (2 + 2) + 0 + 2 + 1);
    assert_eq!(fixture.publisher.backend().max_number_of_segments(), 1);
    assert_eq!(fixture.publisher.sample_layout(1).unwrap().size(), 16);
    assert_eq!(fixture.publisher.sample_layout(1).unwrap().align(), 8);
}

#[test]
fn a_service_has_room_for_so_many_publishers() {
    let fixture = Fixture::new(static_config(0, 2, 2, false), local_config(2, UnableToDeliverStrategy::DiscardSample));
    let mut dynamic_config = fixture.dynamic_config;
    let mut shm = new_shared_memory(2);
    let second = Publisher::new(
        PUBLISHER_ID + 1,
        NODE_ID,
        fixture.config,
        message_type_details(),
        local_config(2, UnableToDeliverStrategy::DiscardSample),
        &mut shm,
        &vec![None, None],
        &mut dynamic_config,
    );
    assert_eq!(second.err(), Some(PublisherCreateError::ExceedsMaxSupportedPublishers));

    let mut first_shm = fixture.shm;
    fixture.publisher.release(&mut first_shm, &mut dynamic_config);
    let third = Publisher::new(
        PUBLISHER_ID + 2,
        NODE_ID,
        fixture.config,
        message_type_details(),
        local_config(2, UnableToDeliverStrategy::DiscardSample),
        &mut shm,
        &vec![None, None],
        &mut dynamic_config,
    );
    assert!(third.is_ok());
}

#[test]
fn a_publisher_without_payload_memory_cannot_be_created() {
    let mut shm = new_shared_memory(2);
    let mut dynamic_config = DynamicConfig::new(1);
    let empty = MessageTypeDetails::from_details(
        TypeDetail::new(TypeVariant::FixedSize, "Header".to_string(), 0, 1),
        TypeDetail::new(TypeVariant::FixedSize, "()".to_string(), 0, 1),
        TypeDetail::new(TypeVariant::FixedSize, "()".to_string(), 0, 1),
    );
    let result = Publisher::new(
        PUBLISHER_ID,
        NODE_ID,
        static_config(0, 2, 2, false),
        empty,
        local_config(2, UnableToDeliverStrategy::DiscardSample),
        &mut shm,
        &vec![None, None],
        &mut dynamic_config,
    );
    assert_eq!(result.err(), Some(PublisherCreateError::UnableToCreateDataSegment));
}

#[test]
fn loans_are_limited() {
    let mut fixture =
        Fixture::new(static_config(0, 2, 2, false), local_config(2, UnableToDeliverStrategy::DiscardSample));
    let first = fixture.loan();
    let second = fixture.loan();
    assert_ne!(first.offset, second.offset);
    assert_eq!(first.sample_size, 16);
    assert_eq!(fixture.count(first.offset), 1);
    assert_eq!(fixture.count(second.offset), 1);
    assert_eq!(fixture.publisher.backend().loan_counter(), 2);
    assert_eq!(
        fixture.publisher.loan_uninit(&mut fixture.shm).err(),
        Some(PublisherLoanError::ExceedsMaxLoanedSamples)
    );

    fixture.publisher.return_loaned_sample(&fixture.shm, first);
    assert_eq!(fixture.count(first.offset), 0);
    assert_eq!(fixture.publisher.backend().loan_counter(), 1);
    assert!(fixture.publisher.loan_uninit(&mut fixture.shm).is_ok());
}

#[test]
fn a_static_publisher_refuses_slices_beyond_its_greatest_length() {
    let mut fixture =
        Fixture::new(static_config(0, 2, 2, false), local_config(2, UnableToDeliverStrategy::DiscardSample));
    assert_eq!(
        fixture.publisher.loan_slice_uninit(&mut fixture.shm, 2).err(),
        Some(PublisherLoanError::ExceedsMaxLoanSize)
    );
    assert!(fixture.publisher.loan_slice_uninit(&mut fixture.shm, 1).is_ok());
}

#[test]
fn a_dynamic_publisher_grows_for_larger_slices() {
    let mut shm = new_shared_memory(2);
    let mut dynamic_config = DynamicConfig::new(1);
    let local = LocalPublisherConfig {
        allocation_strategy: AllocationStrategy::PowerOfTwo,
        ..local_config(2, UnableToDeliverStrategy::DiscardSample)
    };
    let mut publisher = Publisher::new(
        PUBLISHER_ID,
        NODE_ID,
        static_config(0, 2, 2, false),
        message_type_details(),
        local,
        &mut shm,
        &vec![None, None],
        &mut dynamic_config,
    )
    .unwrap();
    assert_eq!(publisher.backend().max_number_of_segments(), 255);

    let small = publisher.loan_slice_uninit(&mut shm, 1).unwrap();
    assert_eq!(small.offset.segment_id().value(), 0);
    assert_eq!(small.sample_size, 16);

    // 8 + 5 * 8 = 48 bytes, the next power of two is 64
    let large = publisher.loan_slice_uninit(&mut shm, 5).unwrap();
    assert_eq!(large.offset.segment_id().value(), 1);
    assert_eq!(large.sample_size, 64);
    assert_eq!(publisher.backend().reference_count(small.offset), 1);
    assert_eq!(publisher.backend().reference_count(large.offset), 1);

    publisher.return_loaned_sample(&shm, small);
    publisher.return_loaned_sample(&shm, large);
    // requests are served from the newest segment
    let again = publisher.loan_slice_uninit(&mut shm, 1).unwrap();
    assert_eq!(again.offset.segment_id().value(), 1);
}

#[test]
fn sending_without_subscribers_reaches_nobody() {
    let mut fixture =
        Fixture::new(static_config(0, 2, 2, false), local_config(2, UnableToDeliverStrategy::DiscardSample));
    let (loan, delivery) = fixture.publish();
    assert_eq!(delivery, Delivery::Done { recipients: 0 });
    assert_eq!(fixture.count(loan.offset), 0);
    assert_eq!(fixture.publisher.backend().loan_counter(), 0);
}

#[test]
fn every_subscriber_gets_the_bucket_the_publisher_wrote() {
    let mut fixture =
        Fixture::new(static_config(0, 2, 2, false), local_config(2, UnableToDeliverStrategy::DiscardSample));
    let mut first = fixture.join(0, 1, 2);
    let mut second = fixture.join(1, 2, 2);

    let (loan, delivery) = fixture.publish();
    assert_eq!(delivery, Delivery::Done { recipients: 2 });
    assert_eq!(fixture.publisher.backend().connected_subscriber(0), Some(1));
    assert_eq!(fixture.publisher.backend().connected_subscriber(1), Some(2));
    // held by two connections, no longer by the user
    assert_eq!(fixture.count(loan.offset), 2);

    let one = fixture.receive(&mut first, 0).unwrap();
    let two = fixture.receive(&mut second, 1).unwrap();
    assert_eq!(one.offset, loan.offset);
    assert_eq!(two.offset, loan.offset);
    assert_eq!(one.address, BASE_ADDRESS + loan.offset.offset());
    assert_eq!(two.address - BASE_ADDRESS, loan.offset.offset());

    // borrowed samples are still held
    assert_eq!(fixture.count(loan.offset), 2);
    fixture.release(&mut first, 0, one.offset);
    fixture.publisher.backend().reference_count(loan.offset);
    let next = fixture.loan();
    // the loan has reclaimed what was released
    assert_eq!(fixture.count(loan.offset), 1);
    fixture.release(&mut second, 1, two.offset);
    let another = fixture.loan();
    // nobody holds the bucket any more: it is free, or loaned anew
    assert_ne!(another.offset, next.offset);
    assert_eq!(fixture.count(loan.offset), if another.offset == loan.offset { 1 } else { 0 });
}

#[test]
fn a_subscriber_without_room_is_left_out() {
    let mut fixture =
        Fixture::new(static_config(0, 2, 3, false), local_config(2, UnableToDeliverStrategy::DiscardSample));
    let mut table = fixture.join(0, 1, 2);
    let (a, delivery) = fixture.publish();
    assert_eq!(delivery, Delivery::Done { recipients: 1 });
    let (b, delivery) = fixture.publish();
    assert_eq!(delivery, Delivery::Done { recipients: 1 });
    let (c, delivery) = fixture.publish();
    assert_eq!(delivery, Delivery::Done { recipients: 0 });
    assert_eq!(fixture.count(c.offset), 0);

    assert_eq!(fixture.receive(&mut table, 0).unwrap().offset, a.offset);
    assert_eq!(fixture.receive(&mut table, 0).unwrap().offset, b.offset);
    assert_eq!(fixture.receive(&mut table, 0), None);
}

#[test]
fn safe_overflow_frees_the_oldest_bucket() {
    let mut fixture =
        Fixture::new(static_config(0, 2, 2, true), local_config(2, UnableToDeliverStrategy::DiscardSample));
    let mut table = fixture.join(0, 1, 2);
    let (a, _) = fixture.publish();
    let (b, _) = fixture.publish();
    assert_eq!(fixture.count(a.offset), 1);
    let (c, delivery) = fixture.publish();
    assert_eq!(delivery, Delivery::Done { recipients: 1 });
    // `a` was given up for `c`, so its bucket is free and may be loaned again
    assert_eq!(fixture.count(b.offset), 1);
    assert_eq!(fixture.count(c.offset), 1);
    assert!(c.offset == a.offset || fixture.count(a.offset) == 0);

    assert_eq!(fixture.receive(&mut table, 0).unwrap().offset, b.offset);
    assert_eq!(fixture.receive(&mut table, 0).unwrap().offset, c.offset);
}

#[test]
fn a_blocking_publisher_waits_for_the_subscriber() {
    let mut fixture = Fixture::new(static_config(0, 1, 2, false), local_config(2, UnableToDeliverStrategy::Block));
    let mut first = fixture.join(0, 1, 1);
    let mut second = fixture.join(1, 2, 1);
    let (a, delivery) = fixture.publish();
    assert_eq!(delivery, Delivery::Done { recipients: 2 });
    assert_eq!(fixture.receive(&mut first, 0).unwrap().offset, a.offset);

    // the second subscriber has not made room
    let b = fixture.loan();
    let delivery = fixture.publisher.send(&mut fixture.shm, &fixture.registry, b).unwrap();
    assert_eq!(delivery, Delivery::Blocked { connection: 1, recipients: 1 });
    assert_eq!(fixture.publisher.backend().loan_counter(), 1);
    let delivery = fixture.publisher.resume_send(&mut fixture.shm, b, 1, 1).unwrap();
    assert_eq!(delivery, Delivery::Blocked { connection: 1, recipients: 1 });

    assert_eq!(fixture.receive(&mut second, 1).unwrap().offset, a.offset);
    let delivery = fixture.publisher.resume_send(&mut fixture.shm, b, 1, 1).unwrap();
    assert_eq!(delivery, Delivery::Done { recipients: 2 });
    assert_eq!(fixture.publisher.backend().loan_counter(), 0);
    assert_eq!(fixture.count(b.offset), 2);
    assert_eq!(fixture.receive(&mut second, 1).unwrap().offset, b.offset);
}

#[test]
fn late_subscriber_gets_the_history_that_fits_its_buffer() {
    let mut fixture =
        Fixture::new(static_config(3, 2, 4, false), local_config(2, UnableToDeliverStrategy::DiscardSample));
    let (a, _) = fixture.publish();
    let (b, _) = fixture.publish();
    let (c, _) = fixture.publish();
    assert_eq!(fixture.count(a.offset), 1);
    assert_eq!(fixture.count(b.offset), 1);
    assert_eq!(fixture.count(c.offset), 1);

    let mut table = fixture.join(0, 1, 2);
    assert_eq!(fixture.publisher.update_connections(&mut fixture.shm, &fixture.registry), Ok(()));
    // in the history and in the buffer of the subscriber
    assert_eq!(fixture.count(a.offset), 1);
    assert_eq!(fixture.count(b.offset), 2);
    assert_eq!(fixture.count(c.offset), 2);

    assert_eq!(fixture.receive(&mut table, 0).unwrap().offset, b.offset);
    assert_eq!(fixture.receive(&mut table, 0).unwrap().offset, c.offset);
    assert_eq!(fixture.receive(&mut table, 0), None);

    // what is sent after the subscriber joined comes behind the history
    let (d, delivery) = fixture.publish();
    assert_eq!(delivery, Delivery::Done { recipients: 1 });
    assert_eq!(fixture.receive(&mut table, 0).unwrap().offset, d.offset);
    // the history has given up `a` for `d`
    assert_ne!(d.offset, a.offset);
    assert_eq!(fixture.count(a.offset), 0);
    assert_eq!(fixture.count(d.offset), 2);
}

#[test]
fn history_shorter_than_the_buffer_is_replayed_in_full() {
    let mut fixture =
        Fixture::new(static_config(2, 4, 4, false), local_config(2, UnableToDeliverStrategy::DiscardSample));
    let (a, _) = fixture.publish();
    let (b, _) = fixture.publish();
    let (c, _) = fixture.publish();
    let mut table = fixture.join(0, 1, 4);
    assert_eq!(fixture.count(a.offset), 0);
    let (d, delivery) = fixture.publish();
    assert_eq!(delivery, Delivery::Done { recipients: 1 });
    for expected in [b, c, d] {
        assert_eq!(fixture.receive(&mut table, 0).unwrap().offset, expected.offset);
    }
    assert_eq!(fixture.receive(&mut table, 0), None);
}

#[test]
fn buckets_of_a_dead_receiver_go_back_to_the_publisher() {
    let mut fixture =
        Fixture::new(static_config(0, 4, 2, false), local_config(2, UnableToDeliverStrategy::DiscardSample));
    let table = fixture.join(0, 1, 4);
    let (a, _) = fixture.publish();
    let (b, _) = fixture.publish();
    assert_eq!(fixture.count(a.offset), 1);
    assert_eq!(fixture.count(b.offset), 1);

    // the subscriber dies; its node is found dead and cleaned up
    std::mem::forget(table);
    assert_eq!(Connection::remove_receiver(&mut fixture.shm[0]), Ok(()));
    fixture.registry[0] = None;

    let (c, delivery) = fixture.publish();
    assert_eq!(delivery, Delivery::Done { recipients: 0 });
    assert_eq!(fixture.publisher.backend().connected_subscriber(0), None);
    assert!(fixture.shm[0].is_none());
    assert_eq!(fixture.count(b.offset), 0);
    assert!(c.offset == a.offset || fixture.count(a.offset) == 0);
}

#[test]
fn a_new_subscriber_in_a_slot_gets_a_new_connection() {
    let mut fixture =
        Fixture::new(static_config(0, 4, 2, false), local_config(2, UnableToDeliverStrategy::DiscardSample));
    let mut first = fixture.join(0, 1, 4);
    let (a, _) = fixture.publish();
    assert_eq!(fixture.count(a.offset), 1);

    // another subscriber takes the slot
    first.remove(0, &mut fixture.shm[0]);
    fixture.registry[0] = subscriber(5, 4);
    let (b, delivery) = fixture.publish();
    assert_eq!(delivery, Delivery::Done { recipients: 1 });
    assert_eq!(fixture.publisher.backend().connected_subscriber(0), Some(5));
    assert_eq!(fixture.count(a.offset), 0);

    let mut second = PublisherConnections::new(1, 5, &fixture.config, 4);
    let details = fixture.details();
    assert_eq!(second.create(0, &details, &mut fixture.shm[0], Ok(BASE_ADDRESS)), Ok(()));
    assert_eq!(fixture.receive(&mut second, 0).unwrap().offset, b.offset);
    assert_eq!(fixture.receive(&mut second, 0), None);
}

#[test]
fn a_subscriber_with_other_settings_is_not_connected() {
    let mut fixture =
        Fixture::new(static_config(0, 4, 2, false), local_config(2, UnableToDeliverStrategy::DiscardSample));
    // the subscriber has created the connection with a buffer of 3
    let mut table = PublisherConnections::new(1, 1, &fixture.config, 3);
    let details = fixture.details();
    table.create(0, &details, &mut fixture.shm[0], Ok(BASE_ADDRESS)).unwrap();
    fixture.registry[0] = subscriber(1, 4);

    // without instructions the publisher goes on
    let (_, delivery) = fixture.publish();
    assert_eq!(delivery, Delivery::Done { recipients: 0 });
    assert_eq!(fixture.publisher.backend().connected_subscriber(0), None);
}

#[test]
fn a_failed_connection_stops_the_publisher_that_was_told_to_fail() {
    let local = LocalPublisherConfig {
        degration_callback: Some(DegrationAction::Fail),
        ..local_config(2, UnableToDeliverStrategy::DiscardSample)
    };
    let mut fixture = Fixture::new(static_config(0, 4, 2, false), local);
    let mut table = PublisherConnections::new(1, 1, &fixture.config, 3);
    let details = fixture.details();
    table.create(0, &details, &mut fixture.shm[0], Ok(BASE_ADDRESS)).unwrap();
    fixture.registry[0] = subscriber(1, 4);

    let loan = fixture.loan();
    let result = fixture.publisher.send(&mut fixture.shm, &fixture.registry, loan);
    assert_eq!(
        result,
        Err(PublisherSendError::ConnectionError(ConnectionFailure::FailedToEstablishConnection(
            ZeroCopyCreationError::IncompatibleBufferSize
        )))
    );
    assert_eq!(fixture.count(loan.offset), 0);
}

#[test]
fn the_view_of_a_static_data_segment_must_be_mapped() {
    let mut fixture =
        Fixture::new(static_config(0, 4, 2, false), local_config(2, UnableToDeliverStrategy::DiscardSample));
    let mut table = PublisherConnections::new(1, 1, &fixture.config, 4);
    let details = fixture.details();
    let result = table.create(0, &details, &mut fixture.shm[0], Err(SharedMemoryOpenError::DoesNotExist));
    assert_eq!(
        result,
        Err(ConnectionFailure::UnableToMapPublishersDataSegment(SharedMemoryOpenError::DoesNotExist))
    );
    // the receiver was the only port
    assert!(fixture.shm[0].is_none());
    assert!(table.get(0).is_none());
    assert_eq!(table.len(), 1);
    assert_eq!(table.capacity(), 1);
    assert_eq!(table.subscriber_id(), 1);
}

#[test]
fn a_subscriber_may_hold_only_so_many_samples() {
    let mut fixture =
        Fixture::new(static_config(0, 4, 1, false), local_config(2, UnableToDeliverStrategy::DiscardSample));
    let mut table = fixture.join(0, 1, 4);
    let (a, _) = fixture.publish();
    let (_b, _) = fixture.publish();
    assert_eq!(fixture.receive(&mut table, 0).unwrap().offset, a.offset);

    let mut connection = table.take(0).unwrap();
    assert_eq!(connection.publisher_id(), PUBLISHER_ID);
    assert_eq!(connection.borrow_counter(), 1);
    assert!(connection.has_data(fixture.shm[0].as_ref().unwrap()));
    assert_eq!(
        connection.receive(fixture.shm[0].as_mut().unwrap(), Ok(BASE_ADDRESS)),
        Err(SubscriberReceiveError::ExceedsMaxBorrowedSamples)
    );
}

#[test]
fn a_publisher_that_is_gone_refuses_to_send() {
    let mut shm = new_shared_memory(1);
    let mut backend = zero_copy_transport::publisher::PublisherBackend::new(
        PUBLISHER_ID,
        static_config(0, 2, 2, false),
        local_config(2, UnableToDeliverStrategy::DiscardSample),
        zero_copy_transport::shm_allocator::Layout::new(16, 8),
        1,
    )
    .unwrap();
    let loan = backend.allocate(&mut shm, zero_copy_transport::shm_allocator::Layout::new(16, 8)).unwrap();
    backend.deactivate();
    assert_eq!(
        backend.send_sample(&mut shm, &vec![None], loan.offset, loan.sample_size),
        Err(PublisherSendError::ConnectionBrokenSincePublisherNoLongerExists)
    );
    assert_eq!(backend.reference_count(loan.offset), 1);
}

#[test]
fn the_publisher_runs_out_of_memory_when_all_buckets_are_held() {
    // one subscriber is planned for, two connect
    let config = StaticConfig { max_subscribers: 1, ..static_config(0, 1, 1, false) };
    let mut fixture = Fixture::new(config, local_config(1, UnableToDeliverStrategy::DiscardSample));
    assert_eq!(fixture.publisher.backend().number_of_samples(), 4);
    let mut first = fixture.join(0, 1, 1);
    let mut second = fixture.join(1, 2, 1);
    for _ in 0..2 {
        let (_, delivery) = fixture.publish();
        assert_eq!(delivery, Delivery::Done { recipients: 2 });
        // each subscriber holds one sample and has one waiting
        if first.get(0).as_ref().unwrap().borrow_counter() == 0 {
            fixture.receive(&mut first, 0).unwrap();
            fixture.receive(&mut second, 1).unwrap();
        }
    }
    let (_, delivery) = fixture.publish();
    assert_eq!(delivery, Delivery::Done { recipients: 0 });
    let (_, _) = fixture.publish();
    assert!(fixture.publisher.backend().loan_counter() == 0);
}

#[test]
fn port_remove_errors_are_named_for_the_cleanup() {
    assert_eq!(handle_port_remove_error(Ok(())), Ok(()));
    assert_eq!(
        handle_port_remove_error(Err(ZeroCopyPortRemoveError::DoesNotExist)),
        Err(RemovePubSubPortFromAllConnectionsError::CleanupRaceDetected)
    );
    assert_eq!(
        handle_port_remove_error(Err(ZeroCopyPortRemoveError::InsufficientPermissions)),
        Err(RemovePubSubPortFromAllConnectionsError::InsufficientPermissions)
    );
    assert_eq!(
        handle_port_remove_error(Err(ZeroCopyPortRemoveError::VersionMismatch)),
        Err(RemovePubSubPortFromAllConnectionsError::VersionMismatch)
    );
    assert_eq!(
        handle_port_remove_error(Err(ZeroCopyPortRemoveError::InternalError)),
        Err(RemovePubSubPortFromAllConnectionsError::InternalError)
    );
}

#[test]
fn a_corrupted_connection_fails_only_on_request() {
    assert_eq!(on_corrupted_connection(None), Ok(()));
    assert_eq!(on_corrupted_connection(Some(DegrationAction::Ignore)), Ok(()));
    assert_eq!(on_corrupted_connection(Some(DegrationAction::Warn)), Ok(()));
    assert_eq!(on_corrupted_connection(Some(DegrationAction::Fail)), Err(PublisherSendError::ConnectionCorrupted));
    assert_eq!(
        PublisherSendError::from_loan_error(PublisherLoanError::OutOfMemory),
        PublisherSendError::LoanError(PublisherLoanError::OutOfMemory)
    );
}

#[test]
fn a_publisher_without_a_place_leaves_no_connection_behind() {
    let fixture = Fixture::new(static_config(0, 2, 2, false), local_config(2, UnableToDeliverStrategy::DiscardSample));
    let mut dynamic_config = fixture.dynamic_config;
    let mut shm = new_shared_memory(2);
    let registry = vec![subscriber(41, 2), None];
    let second = Publisher::new(
        PUBLISHER_ID + 1,
        NODE_ID,
        fixture.config,
        message_type_details(),
        local_config(2, UnableToDeliverStrategy::DiscardSample),
        &mut shm,
        &registry,
        &mut dynamic_config,
    );
    assert_eq!(second.err(), Some(PublisherCreateError::ExceedsMaxSupportedPublishers));
    assert!(shm[0].is_none());
    assert!(shm[1].is_none());
}

#[test]
fn a_subscriber_outlives_its_publisher() {
    let mut fixture =
        Fixture::new(static_config(0, 4, 2, false), local_config(2, UnableToDeliverStrategy::DiscardSample));
    let mut table = fixture.join(0, 1, 4);
    fixture.registry[0] = subscriber(1, 4);
    let (a, delivery) = fixture.publish();
    assert_eq!(delivery, Delivery::Done { recipients: 1 });

    let Fixture { publisher, mut shm, mut dynamic_config, .. } = fixture;
    publisher.release(&mut shm, &mut dynamic_config);

    // the block is still there for the receiver, with what was on its way
    assert!(shm[0].is_some());
    assert!(shm[1].is_none());
    let mut connection = table.take(0).unwrap();
    let sample = connection.receive(shm[0].as_mut().unwrap(), Ok(BASE_ADDRESS)).unwrap().unwrap();
    assert_eq!(sample.offset, a.offset);
    assert_eq!(connection.release(shm[0].as_mut().unwrap(), sample.offset), Ok(()));
    table.put(0, connection);

    // the last port to leave takes the block with it
    table.remove(0, &mut shm[0]);
    assert!(shm[0].is_none());
}

#[test]
fn a_subscriber_cannot_ask_for_channels_beyond_what_can_be_allocated() {
    let fixture = Fixture::new(static_config(0, 2, 2, false), local_config(2, UnableToDeliverStrategy::DiscardSample));
    let details = fixture.details();
    let mut table = PublisherConnections::new(1, 5, &fixture.config, usize::MAX / 2);
    let mut slot = None;
    assert_eq!(
        table.create(0, &details, &mut slot, Ok(BASE_ADDRESS)),
        Err(ConnectionFailure::FailedToEstablishConnection(ZeroCopyCreationError::InternalError))
    );
    assert!(slot.is_none());
    assert!(table.get(0).is_none());
}

#[test]
fn a_refused_loan_has_still_taken_back_what_came_back() {
    let mut fixture =
        Fixture::new(static_config(0, 4, 2, false), local_config(2, UnableToDeliverStrategy::DiscardSample));
    let mut table = fixture.join(0, 1, 4);
    let a = fixture.loan();
    let _b = fixture.loan();
    let delivery = fixture.publisher.send(&mut fixture.shm, &fixture.registry, a).unwrap();
    assert_eq!(delivery, Delivery::Done { recipients: 1 });
    let _c = fixture.loan();
    assert_eq!(fixture.publisher.backend().loan_counter(), 2);

    let sample = fixture.receive(&mut table, 0).unwrap();
    assert_eq!(sample.offset, a.offset);
    fixture.release(&mut table, 0, a.offset);
    // the bucket is on its way back and still counted
    assert_eq!(fixture.count(a.offset), 1);

    assert_eq!(
        fixture.publisher.loan_uninit(&mut fixture.shm).err(),
        Some(PublisherLoanError::ExceedsMaxLoanedSamples)
    );
    assert_eq!(fixture.publisher.backend().loan_counter(), 2);
    assert_eq!(fixture.count(a.offset), 0);
}

#[test]
fn a_connection_that_stays_is_left_alone_when_another_subscriber_joins() {
    let mut fixture =
        Fixture::new(static_config(0, 4, 2, false), local_config(2, UnableToDeliverStrategy::DiscardSample));
    let mut first = fixture.join(0, 1, 4);
    let (a, delivery) = fixture.publish();
    assert_eq!(delivery, Delivery::Done { recipients: 1 });
    let sample = fixture.receive(&mut first, 0).unwrap();
    assert_eq!(sample.offset, a.offset);
    fixture.release(&mut first, 0, a.offset);
    assert_eq!(fixture.count(a.offset), 1);

    // a second subscriber joins: the registry changes, the first slot does not
    let _second = fixture.join(1, 2, 4);
    assert_eq!(fixture.publisher.update_connections(&mut fixture.shm, &fixture.registry), Ok(()));
    assert_eq!(fixture.publisher.backend().connected_subscriber(0), Some(1));
    assert_eq!(fixture.publisher.backend().connected_subscriber(1), Some(2));
    // what the first subscriber has returned is still waiting to be taken back
    assert_eq!(fixture.count(a.offset), 1);

    // the next loan takes it back; its bucket may be the one that was freed
    let b = fixture.loan();
    assert_eq!(fixture.count(b.offset), 1);
    assert!(b.offset == a.offset || fixture.count(a.offset) == 0);
    assert!(fixture.shm[0].as_ref().unwrap().buffer_size() == 4);
}

#[test]
fn a_new_publisher_has_counted_nothing() {
    let mut fixture =
        Fixture::new(static_config(3, 2, 2, false), local_config(2, UnableToDeliverStrategy::DiscardSample));
    assert_eq!(fixture.publisher.backend().loan_counter(), 0);
    assert!(fixture.publisher.backend().is_active());
    let a = fixture.loan();
    // the first loan is the first holder of its bucket
    assert_eq!(fixture.count(a.offset), 1);
    assert_eq!(a.offset.segment_id().value(), 0);
}
