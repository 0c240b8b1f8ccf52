use iceoryx2_bb_container::semantic_string::SemanticString;
use iceoryx2_bb_elementary::allocator::AllocationError;
use iceoryx2_bb_elementary::CallbackProgression;
use zero_copy_transport::config::{Config, ConfigCreationError, ConfigFileLocation, FileOpenFailure};
use zero_copy_transport::data_segment::{
    DataSegment, DataSegmentType, DataSegmentView, MappedSegment, SharedMemoryCreateError, SharedMemoryOpenError,
};
use zero_copy_transport::dynamic_storage::{
    open_step, DynamicStorageCreateError, DynamicStorageOpenError, DynamicStorageOpenOrCreateError, InitState,
    OpenStep,
};
use zero_copy_transport::message_type_details::{align_to, MessageTypeDetails, TypeDetail, TypeVariant};
use zero_copy_transport::messaging_pattern::MessagingPattern;
use zero_copy_transport::pointer_offset::{PointerOffset, SegmentId, MAX_OFFSET};
use zero_copy_transport::port::{
    connections, remove_publisher_from_all_connections, remove_subscriber_from_all_connections, DynamicConfig,
    NamedConceptListError, NamedConnection,
};
use zero_copy_transport::publisher::{
    PublisherDetails, RemovePubSubPortFromAllConnectionsError, SegmentState, UnableToDeliverStrategy,
};
use zero_copy_transport::shm_allocator::{AllocationStrategy, Layout, ShmAllocationError};
use zero_copy_transport::used_chunk_list::UsedChunkList;
use zero_copy_transport::zero_copy_connection::{
    Builder, Connection, SharedManagementData, ZeroCopyCreationError, ZeroCopyPortRemoveError,
};

#[test]
fn pointer_offset_keeps_offset_and_segment_apart() {
    let ptr = PointerOffset::new(640);
    assert_eq!(ptr.offset(), 640);
    assert_eq!(ptr.segment_id(), SegmentId::new(0));
    assert_eq!(PointerOffset::from_value(ptr.as_value()), ptr);

    let mut ptr = PointerOffset::from_offset_and_segment_id(MAX_OFFSET as usize, SegmentId::new(255));
    assert_eq!(ptr.as_value(), u64::MAX);
    assert_eq!(ptr.offset() as u64, MAX_OFFSET);
    ptr.set_segment_id(SegmentId::new(3));
    assert_eq!(ptr.segment_id().value(), 3);
    assert_eq!(ptr.offset() as u64, MAX_OFFSET);
    assert_eq!(ptr.as_value(), (MAX_OFFSET << 8) | 3);
}

#[test]
fn used_chunk_list_is_a_set_of_indices() {
    let mut sut = UsedChunkList::new(8);
    assert_eq!(sut.capacity(), 8);
    assert!(sut.insert(3));
    assert!(!sut.insert(3));
    assert!(sut.insert(7));
    assert!(sut.insert(0));
    assert!(sut.contains(3));
    assert!(!sut.contains(4));
    assert!(!sut.contains(100));
    assert!(sut.remove(3));
    assert!(!sut.remove(3));
    assert!(!sut.remove(100));
    assert!(sut.insert(5));
    assert_eq!(sut.remove_all(), vec![0, 5, 7]);
    assert_eq!(sut.remove_all(), vec![]);
    assert!(!sut.contains(0));
}

#[test]
fn data_segment_type_follows_the_allocation_strategy() {
    assert_eq!(DataSegmentType::new_from_allocation_strategy(AllocationStrategy::Static), DataSegmentType::Static);
    assert_eq!(DataSegmentType::new_from_allocation_strategy(AllocationStrategy::BestFit), DataSegmentType::Dynamic);
    assert_eq!(
        DataSegmentType::new_from_allocation_strategy(AllocationStrategy::PowerOfTwo),
        DataSegmentType::Dynamic
    );
    assert_eq!(DataSegment::max_number_of_segments(DataSegmentType::Static), 1);
    assert_eq!(DataSegment::max_number_of_segments(DataSegmentType::Dynamic), 255);
}

#[test]
fn a_data_segment_needs_buckets_with_a_size() {
    let result = DataSegment::create(DataSegmentType::Static, 4, Layout::new(0, 1), AllocationStrategy::Static);
    assert_eq!(result.err(), Some(SharedMemoryCreateError::SizeIsZero));
    let result = DataSegment::create(DataSegmentType::Static, 0, Layout::new(8, 1), AllocationStrategy::Static);
    assert_eq!(result.err(), Some(SharedMemoryCreateError::SizeIsZero));
    let result =
        DataSegment::create(DataSegmentType::Static, usize::MAX, Layout::new(8, 1), AllocationStrategy::Static);
    assert_eq!(result.err(), Some(SharedMemoryCreateError::InternalError));
}

#[test]
fn a_static_data_segment_has_one_segment_for_good() {
    let mut sut =
        DataSegment::create(DataSegmentType::Static, 2, Layout::new(16, 8), AllocationStrategy::Static).unwrap();
    assert_eq!(sut.number_of_segments(), 1);
    assert_eq!(sut.bucket_size(SegmentId::new(0)), 16);
    assert_eq!(sut.allocate(Layout::new(17, 8)), Err(ShmAllocationError::ExceedsMaxSupportedAlignment));
    assert_eq!(sut.allocate(Layout::new(16, 16)), Err(ShmAllocationError::ExceedsMaxSupportedAlignment));

    let first = sut.allocate(Layout::new(16, 8)).unwrap();
    let second = sut.allocate(Layout::new(8, 1)).unwrap();
    assert_ne!(first, second);
    assert_eq!(first.offset() % 16, 0);
    assert_eq!(second.offset() % 16, 0);
    assert!(sut.is_allocated(first));
    assert_eq!(
        sut.allocate(Layout::new(16, 8)),
        Err(ShmAllocationError::AllocationError(AllocationError::OutOfMemory))
    );
    sut.deallocate_bucket(first);
    assert!(!sut.is_allocated(first));
    assert_eq!(sut.allocate(Layout::new(16, 8)), Ok(first));
}

#[test]
fn a_dynamic_data_segment_adds_segments_with_larger_buckets() {
    let mut best_fit =
        DataSegment::create(DataSegmentType::Dynamic, 2, Layout::new(16, 8), AllocationStrategy::BestFit).unwrap();
    let small = best_fit.allocate(Layout::new(16, 8)).unwrap();
    assert_eq!(small.segment_id().value(), 0);
    let large = best_fit.allocate(Layout::new(100, 8)).unwrap();
    assert_eq!(large.segment_id().value(), 1);
    assert_eq!(best_fit.bucket_size(SegmentId::new(1)), 100);
    assert_eq!(best_fit.number_of_segments(), 2);
    // a request that fits does not add a segment
    let next = best_fit.allocate(Layout::new(16, 8)).unwrap();
    assert_eq!(next.segment_id().value(), 1);
    assert_eq!(
        best_fit.allocate(Layout::new(16, 8)),
        Err(ShmAllocationError::AllocationError(AllocationError::OutOfMemory))
    );
    assert!(best_fit.is_allocated(small));
    best_fit.deallocate_bucket(small);
    assert!(!best_fit.is_allocated(small));

    let mut power_of_two =
        DataSegment::create(DataSegmentType::Dynamic, 2, Layout::new(16, 8), AllocationStrategy::PowerOfTwo)
            .unwrap();
    let large = power_of_two.allocate(Layout::new(100, 16)).unwrap();
    assert_eq!(large.segment_id().value(), 1);
    assert_eq!(power_of_two.bucket_size(SegmentId::new(1)), 128);
    let larger = power_of_two.allocate(Layout::new(129, 16)).unwrap();
    assert_eq!(larger.segment_id().value(), 2);
    assert_eq!(power_of_two.bucket_size(SegmentId::new(2)), 256);
}

#[test]
fn a_dynamic_data_segment_has_at_most_255_segments() {
    let mut sut =
        DataSegment::create(DataSegmentType::Dynamic, 1, Layout::new(1, 1), AllocationStrategy::BestFit).unwrap();
    for size in 2..=255 {
        let ptr = sut.allocate(Layout::new(size, 1)).unwrap();
        assert_eq!(ptr.segment_id().value() as usize, size - 1);
    }
    assert_eq!(sut.number_of_segments(), 255);
    assert_eq!(
        sut.allocate(Layout::new(256, 1)),
        Err(ShmAllocationError::AllocationError(AllocationError::OutOfMemory))
    );
    assert_eq!(
        DataSegment::create(DataSegmentType::Dynamic, 2, Layout::new(16, 8), AllocationStrategy::BestFit)
            .unwrap()
            .allocate(Layout::new(usize::MAX, 8)),
        Err(ShmAllocationError::AllocationError(AllocationError::InternalError))
    );
}

#[test]
fn the_view_of_a_static_data_segment_translates_by_adding_the_start() {
    assert_eq!(
        DataSegmentView::open(DataSegmentType::Static, Err(SharedMemoryOpenError::InsufficientPermissions)).err(),
        Some(SharedMemoryOpenError::InsufficientPermissions)
    );
    let mut view = DataSegmentView::open(DataSegmentType::Static, Ok(0x4000)).unwrap();
    let offset = PointerOffset::new(96);
    assert!(!view.needs_mapping(offset));
    assert_eq!(view.register_and_translate_offset(offset, Err(SharedMemoryOpenError::InternalError)), Ok(0x4000 + 96));
    view.unregister_offset(offset);
    assert_eq!(view.register_and_translate_offset(offset, Ok(0)), Ok(0x4000 + 96));
    let elsewhere = PointerOffset::from_offset_and_segment_id(96, SegmentId::new(1));
    assert_eq!(
        view.register_and_translate_offset(elsewhere, Ok(0)),
        Err(SharedMemoryOpenError::DoesNotExist)
    );
    let mut high = DataSegmentView::open(DataSegmentType::Static, Ok(usize::MAX)).unwrap();
    assert_eq!(high.register_and_translate_offset(offset, Ok(0)), Err(SharedMemoryOpenError::SizeDoesNotFit));
}

#[test]
fn the_view_of_a_dynamic_data_segment_maps_segments_when_needed() {
    let mut view =
        DataSegmentView::open(DataSegmentType::Dynamic, Err(SharedMemoryOpenError::InternalError)).unwrap();
    let first = PointerOffset::from_offset_and_segment_id(32, SegmentId::new(4));
    let second = PointerOffset::from_offset_and_segment_id(64, SegmentId::new(4));
    assert!(view.needs_mapping(first));
    assert_eq!(
        view.register_and_translate_offset(first, Err(SharedMemoryOpenError::DoesNotExist)),
        Err(SharedMemoryOpenError::DoesNotExist)
    );
    assert!(view.needs_mapping(first));
    assert_eq!(view.register_and_translate_offset(first, Ok(0x9000)), Ok(0x9000 + 32));
    assert!(!view.needs_mapping(second));
    // the segment stays where it is mapped
    assert_eq!(view.register_and_translate_offset(second, Ok(0x1000)), Ok(0x9000 + 64));
    view.unregister_offset(first);
    assert!(!view.needs_mapping(first));
    view.unregister_offset(second);
    assert!(view.needs_mapping(first));
    assert_eq!(view.register_and_translate_offset(first, Ok(0x1000)), Ok(0x1000 + 32));
    let _ = MappedSegment { payload_start_address: 0, samples_in_use: 0 };
}

#[test]
fn segment_state_counts_holders_per_bucket() {
    let mut sut = SegmentState::new(4);
    assert_eq!(sut.payload_size(), 0);
    sut.set_payload_size(32);
    assert_eq!(sut.payload_size(), 32);
    assert_eq!(sut.sample_index(96), 3);
    assert_eq!(sut.borrow_sample(96), 0);
    assert_eq!(sut.borrow_sample(96), 1);
    assert_eq!(sut.borrow_sample(32), 0);
    assert_eq!(sut.release_sample(96), 2);
    assert_eq!(sut.release_sample(96), 1);
    assert_eq!(sut.borrow_sample(96), 0);
}

#[test]
fn an_opener_waits_for_the_creator_until_the_timeout() {
    assert_eq!(open_step(InitState::NotCreated, 0, 10), OpenStep::Fail(DynamicStorageOpenError::DoesNotExist));
    assert_eq!(open_step(InitState::Initialized, 50, 10), OpenStep::Proceed);
    assert_eq!(open_step(InitState::CreatedNotInitialized, 9, 10), OpenStep::Wait);
    assert_eq!(
        open_step(InitState::CreatedNotInitialized, 10, 10),
        OpenStep::Fail(DynamicStorageOpenError::InitializationNotYetFinalized)
    );
    // without a timeout the opener fails at once
    assert_eq!(
        open_step(InitState::CreatedNotInitialized, 0, 0),
        OpenStep::Fail(DynamicStorageOpenError::InitializationNotYetFinalized)
    );
}

#[test]
fn storage_failures_are_named_for_the_connection() {
    use_storage_error(
        DynamicStorageOpenOrCreateError::DynamicStorageCreateError(DynamicStorageCreateError::InsufficientPermissions),
        ZeroCopyCreationError::InsufficientPermissions,
    );
    use_storage_error(
        DynamicStorageOpenOrCreateError::DynamicStorageOpenError(DynamicStorageOpenError::VersionMismatch),
        ZeroCopyCreationError::VersionMismatch,
    );
    use_storage_error(
        DynamicStorageOpenOrCreateError::DynamicStorageOpenError(
            DynamicStorageOpenError::InitializationNotYetFinalized,
        ),
        ZeroCopyCreationError::InitializationNotYetFinalized,
    );
    use_storage_error(
        DynamicStorageOpenOrCreateError::DynamicStorageOpenError(DynamicStorageOpenError::DoesNotExist),
        ZeroCopyCreationError::InternalError,
    );
    use_storage_error(
        DynamicStorageOpenOrCreateError::DynamicStorageCreateError(DynamicStorageCreateError::AlreadyExists),
        ZeroCopyCreationError::InternalError,
    );

    assert_eq!(Connection::open_storage(Ok(())), Ok(()));
    assert_eq!(
        Connection::open_storage(Err(DynamicStorageOpenError::VersionMismatch)),
        Err(ZeroCopyPortRemoveError::VersionMismatch)
    );
    assert_eq!(
        Connection::open_storage(Err(DynamicStorageOpenError::InitializationNotYetFinalized)),
        Err(ZeroCopyPortRemoveError::InsufficientPermissions)
    );
    assert_eq!(
        Connection::open_storage(Err(DynamicStorageOpenError::DoesNotExist)),
        Err(ZeroCopyPortRemoveError::DoesNotExist)
    );
    assert_eq!(
        Connection::open_storage(Err(DynamicStorageOpenError::InternalError)),
        Err(ZeroCopyPortRemoveError::InternalError)
    );
}

fn use_storage_error(error: DynamicStorageOpenOrCreateError, expected: ZeroCopyCreationError) {
    assert_eq!(Builder::storage_error(error), expected);
}

#[test]
fn samples_are_laid_out_header_first() {
    assert_eq!(align_to(0, 8), Some(0));
    assert_eq!(align_to(1, 8), Some(8));
    assert_eq!(align_to(8, 8), Some(8));
    assert_eq!(align_to(9, 0), Some(9));
    assert_eq!(align_to(usize::MAX, 8), None);

    let sut = MessageTypeDetails::from_details(
        TypeDetail::new(TypeVariant::FixedSize, "Header".to_string(), 20, 4),
        TypeDetail::new(TypeVariant::FixedSize, "UserHeader".to_string(), 3, 8),
        TypeDetail::new(TypeVariant::Dynamic, "u16".to_string(), 2, 2),
    );
    // header 0..20, user header 24..27, payload from 28
    let layout = sut.sample_layout(5).unwrap();
    assert_eq!(layout.size(), 28 + 5 * 2);
    assert_eq!(layout.align(), 8);
    assert_eq!(sut.sample_layout(usize::MAX), None);

    let stricter = MessageTypeDetails::from_details(
        sut.header.clone_detail(),
        sut.user_header.clone_detail(),
        TypeDetail::new(TypeVariant::Dynamic, "u16".to_string(), 2, 64),
    );
    assert!(sut.is_compatible_to(&stricter));
    assert!(!stricter.is_compatible_to(&sut));
    assert!(sut.header.same(&stricter.header));
    assert!(!sut.payload.same(&stricter.payload));
}

#[test]
fn messaging_patterns_have_their_numbers() {
    assert_eq!(MessagingPattern::PublishSubscribe.value(), 0);
    assert_eq!(MessagingPattern::Event.value(), 1);
    assert_eq!(MessagingPattern::RequestResponse.value(), 2);
}

#[test]
fn default_config_has_the_documented_values() {
    let sut = Config::default();
    assert_eq!(sut.global.root_path(), "/tmp/iceoryx2/");
    assert_eq!(sut.global.root_path_windows, "c:\\Temp\\iceoryx2\\");
    assert_eq!(sut.global.prefix, "iox2_");
    assert_eq!(sut.global.service.directory, "services");
    assert_eq!(sut.global.service.publisher_data_segment_suffix, ".publisher_data");
    assert_eq!(sut.global.service.static_config_storage_suffix, ".service");
    assert_eq!(sut.global.service.dynamic_config_storage_suffix, ".dynamic");
    assert_eq!(sut.global.service.creation_timeout_ms, 500);
    assert_eq!(sut.global.service.connection_suffix, ".connection");
    assert_eq!(sut.global.service.event_connection_suffix, ".event");
    assert_eq!(sut.global.node.directory, "nodes");
    assert_eq!(sut.global.node.monitor_suffix, ".node_monitor");
    assert_eq!(sut.global.node.static_config_suffix, ".details");
    assert_eq!(sut.global.node.service_tag_suffix, ".service_tag");
    assert!(sut.global.node.cleanup_dead_nodes_on_creation);
    assert!(sut.global.node.cleanup_dead_nodes_on_destruction);
    assert_eq!(sut.defaults.publish_subscribe.max_subscribers, 8);
    assert_eq!(sut.defaults.publish_subscribe.max_publishers, 2);
    assert_eq!(sut.defaults.publish_subscribe.max_nodes, 20);
    assert_eq!(sut.defaults.publish_subscribe.publisher_history_size, 0);
    assert_eq!(sut.defaults.publish_subscribe.subscriber_max_buffer_size, 2);
    assert_eq!(sut.defaults.publish_subscribe.subscriber_max_borrowed_samples, 2);
    assert_eq!(sut.defaults.publish_subscribe.publisher_max_loaned_samples, 2);
    assert!(sut.defaults.publish_subscribe.enable_safe_overflow);
    assert_eq!(sut.defaults.publish_subscribe.unable_to_deliver_strategy, UnableToDeliverStrategy::Block);
    assert_eq!(sut.defaults.publish_subscribe.subscriber_expired_connection_buffer, 128);
    assert_eq!(sut.defaults.event.max_listeners, 16);
    assert_eq!(sut.defaults.event.max_notifiers, 16);
    assert_eq!(sut.defaults.event.max_nodes, 36);
    assert_eq!(sut.defaults.event.event_id_max_value, 4294967295);
    assert_eq!(sut.defaults.event.deadline_ms, None);
    assert_eq!(sut.defaults.request_response.max_active_responses, 4);
    assert_eq!(sut.defaults.request_response.max_active_requests, 2);
    assert_eq!(sut.defaults.request_response.max_borrowed_responses, 4);
    assert_eq!(sut.defaults.request_response.max_borrowed_requests, 2);
    assert_eq!(sut.defaults.request_response.max_response_buffer_size, 2);
    assert_eq!(sut.defaults.request_response.max_request_buffer_size, 4);
    assert_eq!(sut.defaults.request_response.max_servers, 2);
    assert_eq!(sut.defaults.request_response.max_clients, 8);
    assert_eq!(sut.defaults.request_response.max_nodes, 20);

    let mut sut = sut;
    sut.global.set_root_path(&"/var/run/".to_string());
    assert_eq!(sut.global.root_path(), "/var/run/");
    assert_eq!(sut.global.root_path_windows, "c:\\Temp\\iceoryx2\\");
}

#[test]
fn config_files_are_looked_for_in_three_places() {
    assert_eq!(Config::default_config_file_name(), "iceoryx2.toml");
    assert_eq!(Config::relative_local_config_path(), "config");
    assert_eq!(Config::relative_config_path(), "iceoryx2");
    assert_eq!(Config::iterate_over_config_files(0), Some(ConfigFileLocation::ProjectLocal));
    assert_eq!(Config::iterate_over_config_files(1), Some(ConfigFileLocation::User));
    assert_eq!(Config::iterate_over_config_files(2), Some(ConfigFileLocation::Global));
    assert_eq!(Config::iterate_over_config_files(3), None);

    assert_eq!(
        Config::from_file(FileOpenFailure::InsufficientPermissions),
        ConfigCreationError::InsufficientPermissions
    );
    assert_eq!(Config::from_file(FileOpenFailure::FileDoesNotExist), ConfigCreationError::ConfigFileDoesNotExist);
    assert_eq!(Config::from_file(FileOpenFailure::Other), ConfigCreationError::UnableToOpenConfigFile);

    assert_eq!(Config::global_config(Ok(())), Some(CallbackProgression::Stop));
    assert_eq!(
        Config::global_config(Err(ConfigCreationError::ConfigFileDoesNotExist)),
        Some(CallbackProgression::Continue)
    );
    assert_eq!(Config::global_config(Err(ConfigCreationError::UnableToDeserializeContents)), None);
}

#[test]
fn the_registry_of_publishers_hands_out_free_slots() {
    let details = |id: u128| PublisherDetails {
        publisher_id: id,
        node_id: 1,
        number_of_samples: 4,
        max_slice_len: 1,
        data_segment_type: DataSegmentType::Static,
        max_number_of_segments: 1,
    };
    let mut sut = DynamicConfig::new(2);
    assert_eq!(sut.add_publisher_id(details(1)), Some(0));
    assert_eq!(sut.add_publisher_id(details(2)), Some(1));
    assert_eq!(sut.add_publisher_id(details(3)), None);
    sut.release_publisher_handle(0);
    sut.release_publisher_handle(17);
    assert_eq!(sut.add_publisher_id(details(3)), Some(0));
}

fn connection(publisher_id: u128, subscriber_id: u128, attach_sender: bool) -> NamedConnection {
    let name = iceoryx2_bb_container::semantic_string::SemanticString::new(b"name").unwrap();
    let mut block: Option<SharedManagementData> = None;
    let receiver = Builder::new(&name).create_receiver(&mut block).unwrap();
    std::mem::forget(receiver);
    if attach_sender {
        let sender = Builder::new(&name).create_sender(&mut block).unwrap();
        std::mem::forget(sender);
    }
    NamedConnection { publisher_id, subscriber_id, block }
}

#[test]
fn a_dead_publisher_is_removed_from_its_connections_only() {
    let mut list = vec![connection(1, 10, true), connection(2, 10, true), connection(1, 11, true)];
    assert_eq!(remove_publisher_from_all_connections(1, Ok(()), &mut list), Ok(()));
    let name = iceoryx2_bb_container::semantic_string::SemanticString::new(b"name").unwrap();
    // the sender is gone from the first and the third
    assert!(Builder::new(&name).create_sender(&mut list[0].block).is_ok());
    assert_eq!(
        Builder::new(&name).create_sender(&mut list[1].block).err(),
        Some(ZeroCopyCreationError::AnotherInstanceIsAlreadyConnected)
    );
    assert!(Builder::new(&name).create_sender(&mut list[2].block).is_ok());
}

#[test]
fn a_dead_subscriber_is_removed_from_its_connections_only() {
    let mut list = vec![connection(1, 10, true), connection(1, 11, false)];
    assert_eq!(remove_subscriber_from_all_connections(11, Ok(()), &mut list), Ok(()));
    // the receiver was the last port of the second connection
    assert!(list[0].block.is_some());
    assert!(list[1].block.is_none());
    assert_eq!(list[1].subscriber_id, 11);
}

#[test]
fn a_connection_that_vanished_points_to_a_race() {
    let mut list = vec![
        NamedConnection { publisher_id: 1, subscriber_id: 10, block: None },
        connection(1, 11, true),
        NamedConnection { publisher_id: 2, subscriber_id: 12, block: None },
    ];
    assert_eq!(
        remove_publisher_from_all_connections(1, Ok(()), &mut list),
        Err(RemovePubSubPortFromAllConnectionsError::CleanupRaceDetected)
    );
    // the other connection of the publisher was dealt with all the same
    let name = iceoryx2_bb_container::semantic_string::SemanticString::new(b"name").unwrap();
    assert!(Builder::new(&name).create_sender(&mut list[1].block).is_ok());
    assert_eq!(remove_subscriber_from_all_connections(99, Ok(()), &mut list), Ok(()));
}

#[test]
fn a_failed_listing_ends_the_cleanup() {
    let mut list = vec![connection(1, 10, true)];
    assert_eq!(
        remove_publisher_from_all_connections(1, Err(NamedConceptListError::InsufficientPermissions), &mut list),
        Err(RemovePubSubPortFromAllConnectionsError::InsufficientPermissions)
    );
    assert_eq!(
        remove_subscriber_from_all_connections(10, Err(NamedConceptListError::InternalError), &mut list),
        Err(RemovePubSubPortFromAllConnectionsError::InternalError)
    );
    assert_eq!(connections(Ok(())), Ok(()));
    let name = iceoryx2_bb_container::semantic_string::SemanticString::new(b"name").unwrap();
    assert_eq!(
        Builder::new(&name).create_sender(&mut list[0].block).err(),
        Some(ZeroCopyCreationError::AnotherInstanceIsAlreadyConnected)
    );
}

#[test]
fn a_number_is_written_in_decimal_digits() {
    assert_eq!(zero_copy_transport::naming_scheme::decimal(0), b"0".to_vec());
    assert_eq!(zero_copy_transport::naming_scheme::decimal(7), b"7".to_vec());
    assert_eq!(zero_copy_transport::naming_scheme::decimal(10), b"10".to_vec());
    assert_eq!(zero_copy_transport::naming_scheme::decimal(4096), b"4096".to_vec());
    assert_eq!(
        zero_copy_transport::naming_scheme::decimal(u128::MAX),
        b"340282366920938463463374607431768211455".to_vec()
    );
}

#[test]
fn a_connection_is_named_after_both_ports() {
    let name = zero_copy_transport::naming_scheme::connection_name(12, 345);
    assert_eq!(name.as_bytes(), b"12_345");
    let name = zero_copy_transport::naming_scheme::connection_name(0, u128::MAX);
    assert_eq!(name.as_bytes(), b"0_340282366920938463463374607431768211455");
    let name = zero_copy_transport::naming_scheme::connection_name(u128::MAX, u128::MAX);
    assert_eq!(name.as_bytes().len(), 79);
}

#[test]
fn a_builder_waits_only_as_long_as_it_was_told() {
    let name = iceoryx2_bb_system_types::file_name::FileName::new(b"patience").unwrap();
    let sut = zero_copy_transport::zero_copy_connection::Builder::new(&name);
    assert_eq!(sut.waiting_time(), None);
    let sut = sut.timeout(core::time::Duration::from_millis(25));
    assert_eq!(sut.waiting_time(), Some(core::time::Duration::from_millis(25)));
    let sut = sut.buffer_size(3);
    assert_eq!(sut.waiting_time(), Some(core::time::Duration::from_millis(25)));
}
