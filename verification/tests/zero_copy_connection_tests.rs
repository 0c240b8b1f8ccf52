use iceoryx2_bb_container::semantic_string::SemanticString;
use iceoryx2_bb_system_types::file_name::FileName;
use zero_copy_transport::zero_copy_traits::{ZeroCopyConnection, ZeroCopyConnectionBuilder};
use zero_copy_transport::pointer_offset::{PointerOffset, SegmentId};
use zero_copy_transport::zero_copy_connection::{
    cleanup_shared_memory, reserve_port_step, state_after_release, BlockingSend, Builder, Connection,
    SharedManagementData, State, ZeroCopyCreationError, ZeroCopyPortRemoveError, ZeroCopyReceiveError,
    ZeroCopyReclaimError, ZeroCopyReleaseError, ZeroCopySendError, DEFAULT_BUFFER_SIZE, DEFAULT_ENABLE_SAFE_OVERFLOW,
    DEFAULT_MAX_BORROWED_SAMPLES, DEFAULT_MAX_SUPPORTED_SHARED_MEMORY_SEGMENTS, STATE_MARKED_FOR_DESTRUCTION,
    STATE_RECEIVER, STATE_SENDER,
};

const SAMPLE_SIZE: usize = 64;
const NUMBER_OF_SAMPLES: usize = 16;

fn name() -> FileName {
    FileName::new(b"connection_under_test").unwrap()
}

fn builder(buffer_size: usize, overflow: bool, max_borrow: usize) -> Builder {
    Builder::new(&name())
        .buffer_size(buffer_size)
        .enable_safe_overflow(overflow)
        .receiver_max_borrowed_samples(max_borrow)
        .number_of_samples_per_segment(NUMBER_OF_SAMPLES)
}

fn sample(index: usize) -> PointerOffset {
    PointerOffset::new(index * SAMPLE_SIZE)
}

#[test]
fn defaults_are_as_documented() {
    assert_eq!(DEFAULT_BUFFER_SIZE, 4);
    assert_eq!(DEFAULT_ENABLE_SAFE_OVERFLOW, false);
    assert_eq!(DEFAULT_MAX_BORROWED_SAMPLES, 4);
    assert_eq!(DEFAULT_MAX_SUPPORTED_SHARED_MEMORY_SEGMENTS, 1);
    assert!(Connection::does_support_safe_overflow());
    assert!(Connection::has_configurable_buffer_size());
}

#[test]
fn state_values_are_the_bits_of_the_state_byte() {
    assert_eq!(State::Unattached.value(), 0b0000_0000);
    assert_eq!(State::Sender.value(), 0b0000_0001);
    assert_eq!(State::Receiver.value(), 0b0000_0010);
    assert_eq!(State::MarkedForDestruction.value(), 0b1000_0000);
}

#[test]
fn builder_raises_zero_limits_to_one() {
    let mut slot = None;
    let sender = Builder::new(&name())
        .buffer_size(0)
        .receiver_max_borrowed_samples(0)
        .max_supported_shared_memory_segments(0)
        .create_sender(&mut slot)
        .unwrap();
    let storage = slot.as_ref().unwrap();
    assert_eq!(sender.buffer_size(storage), 1);
    assert_eq!(sender.max_borrowed_samples(storage), 1);
    assert_eq!(sender.max_supported_shared_memory_segments(storage), 1);
}

#[test]
fn sender_and_receiver_share_one_connection() {
    let mut slot = None;
    let sender = builder(4, false, 2).create_sender(&mut slot).unwrap();
    assert!(!sender.is_connected(slot.as_ref().unwrap()));
    let receiver = builder(4, false, 2).create_receiver(&mut slot).unwrap();
    let storage = slot.as_ref().unwrap();
    assert!(sender.is_connected(storage));
    assert!(receiver.is_connected(storage));
    assert_eq!(receiver.buffer_size(storage), 4);
    assert_eq!(receiver.max_borrowed_samples(storage), 2);
    assert_eq!(receiver.has_enabled_safe_overflow(storage), false);
    assert_eq!(sender.has_enabled_safe_overflow(storage), false);
    assert_eq!(receiver.max_supported_shared_memory_segments(storage), 1);
    assert_eq!(receiver.borrow_counter(), 0);
    assert_eq!(sender.name(), &name());
    assert_eq!(receiver.name(), &name());
}

#[test]
fn second_sender_is_refused() {
    let mut slot = None;
    let _sender = builder(4, false, 2).create_sender(&mut slot).unwrap();
    let second = builder(4, false, 2).create_sender(&mut slot);
    assert_eq!(second.err(), Some(ZeroCopyCreationError::AnotherInstanceIsAlreadyConnected));
}

#[test]
fn second_receiver_is_refused() {
    let mut slot = None;
    let _receiver = builder(4, false, 2).create_receiver(&mut slot).unwrap();
    let second = builder(4, false, 2).create_receiver(&mut slot);
    assert_eq!(second.err(), Some(ZeroCopyCreationError::AnotherInstanceIsAlreadyConnected));
}

#[test]
fn opening_with_other_settings_names_the_first_difference() {
    let mut slot = None;
    let _sender = builder(4, false, 2).create_sender(&mut slot).unwrap();

    let result = builder(5, false, 2).create_receiver(&mut slot);
    assert_eq!(result.err(), Some(ZeroCopyCreationError::IncompatibleBufferSize));

    let result = builder(4, false, 3).create_receiver(&mut slot);
    assert_eq!(result.err(), Some(ZeroCopyCreationError::IncompatibleMaxBorrowedSampleSetting));

    let result = builder(4, true, 2).create_receiver(&mut slot);
    assert_eq!(result.err(), Some(ZeroCopyCreationError::IncompatibleOverflowSetting));

    let result = builder(4, false, 2).number_of_samples_per_segment(3).create_receiver(&mut slot);
    assert_eq!(result.err(), Some(ZeroCopyCreationError::IncompatibleNumberOfSamples));

    let result = builder(4, false, 2).max_supported_shared_memory_segments(3).create_receiver(&mut slot);
    assert_eq!(result.err(), Some(ZeroCopyCreationError::IncompatibleNumberOfSegments));

    let result = builder(4, false, 2).create_receiver(&mut slot);
    assert!(result.is_ok());
}

#[test]
fn fill_and_drain() {
    let mut slot = None;
    let sender = builder(4, false, 2).create_sender(&mut slot).unwrap();
    let mut receiver = builder(4, false, 2).create_receiver(&mut slot).unwrap();
    let storage = slot.as_mut().unwrap();
    let (a, b, c, d, e) = (sample(0), sample(1), sample(2), sample(3), sample(4));

    for ptr in [a, b, c, d] {
        assert_eq!(sender.try_send(storage, ptr, SAMPLE_SIZE), Ok(None));
    }
    assert_eq!(sender.try_send(storage, e, SAMPLE_SIZE), Err(ZeroCopySendError::ReceiveBufferFull));

    assert_eq!(receiver.receive(storage), Ok(Some(a)));
    assert_eq!(receiver.receive(storage), Ok(Some(b)));
    assert_eq!(receiver.release(storage, a), Ok(()));

    assert_eq!(sender.reclaim(storage), Ok(Some(a)));
    assert_eq!(sender.try_send(storage, e, SAMPLE_SIZE), Ok(None));
    assert_eq!(receiver.receive(storage), Ok(Some(c)));
    assert_eq!(sender.reclaim(storage), Ok(None));
}

#[test]
fn safe_overflow_hands_back_the_oldest() {
    let mut slot = None;
    let sender = builder(2, true, 2).create_sender(&mut slot).unwrap();
    let mut receiver = builder(2, true, 2).create_receiver(&mut slot).unwrap();
    let storage = slot.as_mut().unwrap();
    let (a, b, c) = (sample(0), sample(1), sample(2));

    assert_eq!(sender.try_send(storage, a, SAMPLE_SIZE), Ok(None));
    assert_eq!(sender.try_send(storage, b, SAMPLE_SIZE), Ok(None));
    assert_eq!(sender.try_send(storage, c, SAMPLE_SIZE), Ok(Some(a)));

    // the bucket of `a` is free again and can be sent anew
    assert_eq!(receiver.receive(storage), Ok(Some(b)));
    assert_eq!(receiver.receive(storage), Ok(Some(c)));
    assert_eq!(receiver.receive(storage), Err(ZeroCopyReceiveError::ReceiveWouldExceedMaxBorrowValue));
    assert_eq!(receiver.release(storage, b), Ok(()));
    assert_eq!(receiver.receive(storage), Ok(None));
    assert_eq!(sender.try_send(storage, a, SAMPLE_SIZE), Ok(None));
    assert_eq!(receiver.receive(storage), Ok(Some(a)));
}

#[test]
fn borrow_cap_turns_the_receiver_away() {
    let mut slot = None;
    let sender = builder(4, false, 1).create_sender(&mut slot).unwrap();
    let mut receiver = builder(4, false, 1).create_receiver(&mut slot).unwrap();
    let storage = slot.as_mut().unwrap();
    let (a, b) = (sample(0), sample(1));

    assert_eq!(sender.try_send(storage, a, SAMPLE_SIZE), Ok(None));
    assert_eq!(sender.try_send(storage, b, SAMPLE_SIZE), Ok(None));
    assert_eq!(receiver.receive(storage), Ok(Some(a)));
    assert_eq!(receiver.borrow_counter(), 1);
    assert_eq!(receiver.receive(storage), Err(ZeroCopyReceiveError::ReceiveWouldExceedMaxBorrowValue));
    assert_eq!(receiver.release(storage, a), Ok(()));
    assert_eq!(receiver.borrow_counter(), 0);
    assert_eq!(receiver.receive(storage), Ok(Some(b)));
}

#[test]
fn samples_are_received_in_the_order_they_were_sent() {
    let mut slot = None;
    let sender = builder(8, false, 8).create_sender(&mut slot).unwrap();
    let mut receiver = builder(8, false, 8).create_receiver(&mut slot).unwrap();
    let storage = slot.as_mut().unwrap();

    let order = [5usize, 3, 7, 0, 2, 6, 1, 4];
    for index in order {
        assert_eq!(sender.try_send(storage, sample(index), SAMPLE_SIZE), Ok(None));
    }
    assert!(receiver.has_data(storage));
    for index in order {
        assert_eq!(receiver.receive(storage), Ok(Some(sample(index))));
    }
    assert!(!receiver.has_data(storage));
    assert_eq!(receiver.release(storage, sample(5)), Ok(()));
    assert_eq!(receiver.receive(storage), Ok(None));
}

#[test]
fn released_samples_are_reclaimed_in_the_order_they_were_released() {
    let mut slot = None;
    let sender = builder(4, false, 4).create_sender(&mut slot).unwrap();
    let mut receiver = builder(4, false, 4).create_receiver(&mut slot).unwrap();
    let storage = slot.as_mut().unwrap();

    for index in 0..4 {
        assert_eq!(sender.try_send(storage, sample(index), SAMPLE_SIZE), Ok(None));
    }
    for index in 0..4 {
        assert_eq!(receiver.receive(storage), Ok(Some(sample(index))));
    }
    for index in [2usize, 0, 3, 1] {
        assert_eq!(receiver.release(storage, sample(index)), Ok(()));
    }
    for index in [2usize, 0, 3, 1] {
        assert_eq!(sender.reclaim(storage), Ok(Some(sample(index))));
    }
    assert_eq!(sender.reclaim(storage), Ok(None));
}

#[test]
fn reclaim_reports_an_address_that_is_not_in_flight() {
    let mut slot = None;
    let sender = builder(4, false, 4).create_sender(&mut slot).unwrap();
    let mut receiver = builder(4, false, 4).create_receiver(&mut slot).unwrap();
    let storage = slot.as_mut().unwrap();

    assert_eq!(sender.try_send(storage, sample(0), SAMPLE_SIZE), Ok(None));
    assert_eq!(receiver.receive(storage), Ok(Some(sample(0))));

    // a bucket that was never sent
    assert_eq!(receiver.release(storage, sample(9)), Ok(()));
    assert_eq!(sender.reclaim(storage), Err(ZeroCopyReclaimError::ReceiverReturnedCorruptedPointerOffset));
    assert_eq!(sender.reclaim(storage), Ok(None));
}

#[test]
fn reclaim_reports_a_misaligned_address_and_an_unknown_segment() {
    let mut slot = None;
    let sender = builder(4, false, 4).create_sender(&mut slot).unwrap();
    let mut receiver = builder(4, false, 4).create_receiver(&mut slot).unwrap();
    let storage = slot.as_mut().unwrap();

    assert_eq!(sender.try_send(storage, sample(0), SAMPLE_SIZE), Ok(None));
    assert_eq!(sender.try_send(storage, sample(1), SAMPLE_SIZE), Ok(None));
    assert_eq!(receiver.receive(storage), Ok(Some(sample(0))));
    assert_eq!(receiver.receive(storage), Ok(Some(sample(1))));

    assert_eq!(receiver.release(storage, PointerOffset::new(SAMPLE_SIZE + 1)), Ok(()));
    assert_eq!(sender.reclaim(storage), Err(ZeroCopyReclaimError::ReceiverReturnedCorruptedPointerOffset));

    let foreign = PointerOffset::from_offset_and_segment_id(0, SegmentId::new(7));
    assert_eq!(receiver.release(storage, foreign), Ok(()));
    assert_eq!(sender.reclaim(storage), Err(ZeroCopyReclaimError::ReceiverReturnedCorruptedPointerOffset));
}

#[test]
fn release_fails_when_the_completion_channel_is_full() {
    // capacity of the completion channel: 1 + 1 + 1
    let mut slot = None;
    let sender = builder(1, false, 1).create_sender(&mut slot).unwrap();
    let mut receiver = builder(1, false, 1).create_receiver(&mut slot).unwrap();
    let storage = slot.as_mut().unwrap();

    for index in 0..3 {
        assert_eq!(sender.try_send(storage, sample(index), SAMPLE_SIZE), Ok(None));
        assert_eq!(receiver.receive(storage), Ok(Some(sample(index))));
        assert_eq!(receiver.release(storage, sample(index)), Ok(()));
    }
    assert_eq!(sender.try_send(storage, sample(3), SAMPLE_SIZE), Ok(None));
    assert_eq!(receiver.receive(storage), Ok(Some(sample(3))));
    assert_eq!(receiver.release(storage, sample(3)), Err(ZeroCopyReleaseError::RetrieveBufferFull));
    assert_eq!(receiver.borrow_counter(), 1);
}

#[test]
fn blocking_send_waits_only_without_overflow() {
    let mut slot = None;
    let sender = builder(1, false, 1).create_sender(&mut slot).unwrap();
    let mut receiver = builder(1, false, 1).create_receiver(&mut slot).unwrap();
    let storage = slot.as_mut().unwrap();

    assert!(matches!(sender.blocking_send(storage, sample(0), SAMPLE_SIZE), BlockingSend::Done(Ok(None))));
    assert!(matches!(sender.blocking_send(storage, sample(1), SAMPLE_SIZE), BlockingSend::Wait));
    assert_eq!(receiver.receive(storage), Ok(Some(sample(0))));
    assert!(matches!(sender.blocking_send(storage, sample(1), SAMPLE_SIZE), BlockingSend::Done(Ok(None))));

    let mut slot = None;
    let sender = builder(1, true, 1).create_sender(&mut slot).unwrap();
    let storage = slot.as_mut().unwrap();
    assert!(matches!(sender.blocking_send(storage, sample(0), SAMPLE_SIZE), BlockingSend::Done(Ok(None))));
    match sender.blocking_send(storage, sample(1), SAMPLE_SIZE) {
        BlockingSend::Done(Ok(Some(evicted))) => assert_eq!(evicted, sample(0)),
        other => panic!("unexpected step {:?}", other),
    }
}

#[test]
fn acquire_used_offsets_hands_out_everything_in_flight() {
    let mut slot = None;
    let sender = builder(4, false, 4).max_supported_shared_memory_segments(3).create_sender(&mut slot).unwrap();
    let mut receiver =
        builder(4, false, 4).max_supported_shared_memory_segments(3).create_receiver(&mut slot).unwrap();
    let storage = slot.as_mut().unwrap();

    let in_segment_two = PointerOffset::from_offset_and_segment_id(3 * 128, SegmentId::new(2));
    assert_eq!(sender.try_send(storage, sample(4), SAMPLE_SIZE), Ok(None));
    assert_eq!(sender.try_send(storage, sample(1), SAMPLE_SIZE), Ok(None));
    assert_eq!(sender.try_send(storage, in_segment_two, 128), Ok(None));
    assert_eq!(receiver.receive(storage), Ok(Some(sample(4))));
    assert_eq!(receiver.release(storage, sample(4)), Ok(()));
    assert_eq!(receiver.receive(storage), Ok(Some(sample(1))));

    // in the channels, held by the receiver, or on the way back
    let offsets = sender.acquire_used_offsets(storage);
    assert_eq!(offsets, vec![sample(1), sample(4), in_segment_two]);
    assert_eq!(sender.acquire_used_offsets(storage), vec![]);
}

#[test]
fn dropping_both_ports_removes_the_connection() {
    for sender_first in [true, false] {
        let mut slot = None;
        let sender = builder(4, false, 2).create_sender(&mut slot).unwrap();
        let receiver = builder(4, false, 2).create_receiver(&mut slot).unwrap();
        if sender_first {
            sender.detach(&mut slot);
            assert!(slot.is_some());
            receiver.detach(&mut slot);
        } else {
            receiver.detach(&mut slot);
            assert!(slot.is_some());
            sender.detach(&mut slot);
        }
        assert!(slot.is_none());
    }
}

#[test]
fn a_port_can_attach_again_after_it_left() {
    let mut slot = None;
    let sender = builder(4, false, 2).create_sender(&mut slot).unwrap();
    let _receiver = builder(4, false, 2).create_receiver(&mut slot).unwrap();
    sender.detach(&mut slot);
    assert!(builder(4, false, 2).create_sender(&mut slot).is_ok());
}

#[test]
fn remove_sender_leaves_samples_for_the_receiver() {
    let mut slot = None;
    let sender = builder(4, false, 2).create_sender(&mut slot).unwrap();
    let mut receiver = builder(4, false, 2).create_receiver(&mut slot).unwrap();
    {
        let storage = slot.as_mut().unwrap();
        assert_eq!(sender.try_send(storage, sample(0), SAMPLE_SIZE), Ok(None));
        assert_eq!(sender.try_send(storage, sample(1), SAMPLE_SIZE), Ok(None));
    }
    // the sender dies without detaching
    std::mem::forget(sender);
    assert_eq!(Connection::remove_sender(&mut slot), Ok(()));

    let storage = slot.as_mut().unwrap();
    assert!(!receiver.is_connected(storage));
    assert_eq!(receiver.receive(storage), Ok(Some(sample(0))));
    assert_eq!(receiver.receive(storage), Ok(Some(sample(1))));
    assert_eq!(receiver.release(storage, sample(0)), Ok(()));
    assert_eq!(receiver.receive(storage), Ok(None));
    receiver.detach(&mut slot);
    assert!(slot.is_none());
}

#[test]
fn remove_receiver_of_the_last_port_removes_the_connection() {
    let mut slot = None;
    let receiver = builder(4, false, 2).create_receiver(&mut slot).unwrap();
    std::mem::forget(receiver);
    assert_eq!(Connection::remove_receiver(&mut slot), Ok(()));
    assert!(slot.is_none());
}

#[test]
fn removing_a_port_of_a_missing_connection_fails() {
    let mut slot: Option<SharedManagementData> = None;
    assert_eq!(Connection::remove_sender(&mut slot), Err(ZeroCopyPortRemoveError::DoesNotExist));
    assert_eq!(Connection::remove_receiver(&mut slot), Err(ZeroCopyPortRemoveError::DoesNotExist));
}

#[test]
fn state_transitions_follow_the_table() {
    let both = STATE_SENDER | STATE_RECEIVER;
    assert_eq!(reserve_port_step(0, STATE_SENDER), Ok(STATE_SENDER));
    assert_eq!(reserve_port_step(STATE_SENDER, STATE_RECEIVER), Ok(both));
    assert_eq!(reserve_port_step(both, STATE_SENDER), Err(ZeroCopyCreationError::AnotherInstanceIsAlreadyConnected));
    assert_eq!(
        reserve_port_step(STATE_MARKED_FOR_DESTRUCTION, STATE_SENDER),
        Err(ZeroCopyCreationError::InternalError)
    );
    assert_eq!(state_after_release(both, State::Sender), STATE_RECEIVER);
    assert_eq!(state_after_release(both, State::Receiver), STATE_SENDER);
    assert_eq!(state_after_release(STATE_SENDER, State::Sender), STATE_MARKED_FOR_DESTRUCTION);
    assert_eq!(state_after_release(STATE_RECEIVER, State::Receiver), STATE_MARKED_FOR_DESTRUCTION);
    assert_eq!(state_after_release(STATE_MARKED_FOR_DESTRUCTION, State::Sender), STATE_MARKED_FOR_DESTRUCTION);
}

#[test]
fn cleanup_tells_who_takes_the_storage() {
    let mut block = SharedManagementData::new(4, 7, false, 2, NUMBER_OF_SAMPLES, 1);
    let mut slot = Some(SharedManagementData::new(4, 7, false, 2, NUMBER_OF_SAMPLES, 1));
    let _sender = builder(4, false, 2).create_sender(&mut slot).unwrap();
    let _receiver = builder(4, false, 2).create_receiver(&mut slot).unwrap();
    let storage = slot.as_mut().unwrap();
    assert!(!cleanup_shared_memory(storage, State::Sender));
    assert!(cleanup_shared_memory(storage, State::Receiver));
    // marked for destruction: nothing changes any more
    assert!(!cleanup_shared_memory(storage, State::Receiver));
    assert_eq!(
        builder(4, false, 2).create_sender(&mut slot).err(),
        Some(ZeroCopyCreationError::InternalError)
    );
    // a port that was never attached has nothing to let go of
    assert!(!cleanup_shared_memory(&mut block, State::Sender));
}

#[test]
fn double_send_is_a_mistake_of_the_caller() {
    let mut slot = None;
    let sender = builder(4, false, 2).create_sender(&mut slot).unwrap();
    let mut receiver = builder(4, false, 2).create_receiver(&mut slot).unwrap();
    let storage = slot.as_mut().unwrap();

    assert!(storage.can_send(sample(0), SAMPLE_SIZE));
    assert_eq!(sender.try_send(storage, sample(0), SAMPLE_SIZE), Ok(None));
    // the same bucket again, without a reclaim in between
    assert!(!storage.can_send(sample(0), SAMPLE_SIZE));
    assert_eq!(receiver.receive(storage), Ok(Some(sample(0))));
    assert!(!storage.can_send(sample(0), SAMPLE_SIZE));
    assert_eq!(receiver.release(storage, sample(0)), Ok(()));
    assert!(!storage.can_send(sample(0), SAMPLE_SIZE));
    assert_eq!(sender.reclaim(storage), Ok(Some(sample(0))));
    assert!(storage.can_send(sample(0), SAMPLE_SIZE));

    // an address off the bucket boundary, a bucket beyond the segment, a
    // segment that does not exist, another sample size
    assert!(!storage.can_send(PointerOffset::new(1), SAMPLE_SIZE));
    assert!(!storage.can_send(sample(NUMBER_OF_SAMPLES), SAMPLE_SIZE));
    assert!(!storage.can_send(PointerOffset::from_offset_and_segment_id(0, SegmentId::new(1)), SAMPLE_SIZE));
    assert!(!storage.can_send(sample(0), 0));
    assert_eq!(sender.try_send(storage, sample(1), SAMPLE_SIZE), Ok(None));
    assert!(!storage.can_send(sample(2), 2 * SAMPLE_SIZE));
    assert_eq!(storage.buffer_size(), 4);
}

#[test]
fn the_connection_says_what_it_supports() {
    assert!(<Connection as ZeroCopyConnection>::does_support_safe_overflow());
    assert!(<Connection as ZeroCopyConnection>::has_configurable_buffer_size());
}

#[test]
fn a_builder_keeps_the_timeout_it_was_given_through_the_trait() {
    let builder = Builder::new(&name());
    assert_eq!(builder.waiting_time(), None);
    let builder = <Builder as ZeroCopyConnectionBuilder>::timeout(builder, core::time::Duration::from_millis(40));
    assert_eq!(builder.waiting_time(), Some(core::time::Duration::from_millis(40)));
}
