//! What every kind of zero-copy connection offers, whatever memory its
//! management block lives in.

use vstd::prelude::*;
use crate::pointer_offset::PointerOffset;
use crate::zero_copy_connection::{
    spec_after_detach, spec_slot_view, spec_slot_wf, BlockingSend, Builder, BuilderView, Connection, Receiver,
    STATE_RECEIVER, STATE_SENDER, Sender, SharedManagementData, ZeroCopyCreationError, ZeroCopyPortRemoveError,
    ZeroCopyReceiveError, ZeroCopyReclaimError, ZeroCopyReleaseError, ZeroCopySendError,
};
use core::time::Duration;

verus! {

/// What both ports of a connection tell about it.
pub trait ZeroCopyPortDetails {
    /// Capacity of the submission channel.
    fn buffer_size(&self, storage: &SharedManagementData) -> (size: usize)
        ensures
            size == storage@.buffer_size,
    ;

    fn has_enabled_safe_overflow(&self, storage: &SharedManagementData) -> (enabled: bool)
        ensures
            enabled == storage@.enable_safe_overflow,
    ;

    fn max_borrowed_samples(&self, storage: &SharedManagementData) -> (samples: usize)
        ensures
            samples == storage@.max_borrowed_samples,
    ;

    fn max_supported_shared_memory_segments(&self, storage: &SharedManagementData) -> (segments: u8)
        ensures
            segments == storage@.number_of_segments,
    ;

    /// Whether a sender and a receiver are both attached.
    fn is_connected(&self, storage: &SharedManagementData) -> (connected: bool)
        ensures
            connected == storage@.is_connected(),
    ;
}

/// The sending port of a connection.
pub trait ZeroCopySender: ZeroCopyPortDetails {
    /// Hands the bucket at `ptr` to the receiver.
    fn try_send(&self, storage: &mut SharedManagementData, ptr: PointerOffset, sample_size: usize) -> (result:
        Result<Option<PointerOffset>, ZeroCopySendError>)
        requires
            old(storage).wf(),
            !old(storage)@.spec_send_rejected() ==> old(storage)@.spec_can_send(ptr, sample_size as nat),
        ensures
            final(storage).wf(),
            (final(storage)@, result) == old(storage)@.spec_try_send(ptr, sample_size as nat),
    ;

    /// One step of a send that waits for room.
    fn blocking_send(&self, storage: &mut SharedManagementData, ptr: PointerOffset, sample_size: usize) -> (step:
        BlockingSend)
        requires
            old(storage).wf(),
            !old(storage)@.spec_send_rejected() ==> old(storage)@.spec_can_send(ptr, sample_size as nat),
        ensures
            final(storage).wf(),
            (final(storage)@, step) == old(storage)@.spec_blocking_send(ptr, sample_size as nat),
    ;

    /// Takes one address off the completion channel.
    fn reclaim(&self, storage: &mut SharedManagementData) -> (result: Result<
        Option<PointerOffset>,
        ZeroCopyReclaimError,
    >)
        requires
            old(storage).wf(),
        ensures
            final(storage).wf(),
            (final(storage)@, result) == old(storage)@.spec_reclaim(),
    ;

    /// Empties every used-chunk list and hands out the addresses of all
    /// buckets that were in flight.
    fn acquire_used_offsets(&self, storage: &mut SharedManagementData) -> (offsets: Vec<PointerOffset>)
        requires
            old(storage).wf(),
        ensures
            final(storage).wf(),
            final(storage)@ == old(storage)@.spec_drained(),
            offsets@.no_duplicates(),
            forall|ptr: PointerOffset| offsets@.contains(ptr) <==> old(storage)@.spec_locate(ptr.0).is_some(),
    ;
}

/// The receiving port of a connection.
pub trait ZeroCopyReceiver: ZeroCopyPortDetails {
    /// Number of samples received and not yet released.
    spec fn spec_borrowed(&self) -> nat;

    /// Whether the submission channel holds an address.
    fn has_data(&self, storage: &SharedManagementData) -> (has_data: bool)
        ensures
            has_data == (storage@.submission.len() > 0),
    ;

    /// Takes the oldest address off the submission channel.
    fn receive(&mut self, storage: &mut SharedManagementData) -> (result: Result<
        Option<PointerOffset>,
        ZeroCopyReceiveError,
    >)
        requires
            old(storage).wf(),
        ensures
            final(storage).wf(),
            (final(storage)@, final(self).spec_borrowed(), result) == old(storage)@.spec_receive(
                old(self).spec_borrowed(),
            ),
    ;

    /// Gives the bucket at `ptr` back to the sender.
    fn release(&mut self, storage: &mut SharedManagementData, ptr: PointerOffset) -> (result: Result<
        (),
        ZeroCopyReleaseError,
    >)
        requires
            old(storage).wf(),
            old(storage)@.completion.len() < old(storage)@.completion_capacity ==> old(self).spec_borrowed() > 0,
        ensures
            final(storage).wf(),
            (final(storage)@, final(self).spec_borrowed(), result) == old(storage)@.spec_release(
                old(self).spec_borrowed(),
                ptr,
            ),
    ;
}

/// Collects the settings of a connection and attaches ports to it.
pub trait ZeroCopyConnectionBuilder: Sized {
    type Sender: ZeroCopySender;

    type Receiver: ZeroCopyReceiver;

    /// The settings as plain values.
    spec fn spec_settings(&self) -> BuilderView;

    /// How long to wait for a concurrent creator of the connection; `None`
    /// where no time was given, which means not to wait.
    spec fn spec_waiting_time(&self) -> Option<Duration>;

    fn buffer_size(self, value: usize) -> (builder: Self)
        ensures
            builder.spec_settings() == (BuilderView {
                buffer_size: if value == 0 {
                    1nat
                } else {
                    value as nat
                },
                ..self.spec_settings()
            }),
    ;

    fn enable_safe_overflow(self, value: bool) -> (builder: Self)
        ensures
            builder.spec_settings() == (BuilderView { enable_safe_overflow: value, ..self.spec_settings() }),
    ;

    fn receiver_max_borrowed_samples(self, value: usize) -> (builder: Self)
        ensures
            builder.spec_settings() == (BuilderView {
                max_borrowed_samples: if value == 0 {
                    1nat
                } else {
                    value as nat
                },
                ..self.spec_settings()
            }),
    ;

    fn max_supported_shared_memory_segments(self, value: u8) -> (builder: Self)
        ensures
            builder.spec_settings() == (BuilderView {
                number_of_segments: if value == 0 {
                    1u8
                } else {
                    value
                },
                ..self.spec_settings()
            }),
    ;

    fn number_of_samples_per_segment(self, value: usize) -> (builder: Self)
        ensures
            builder.spec_settings() == (BuilderView {
                number_of_samples_per_segment: value as nat,
                ..self.spec_settings()
            }),
    ;

    /// Sets how long to wait for a concurrent creator of the connection,
    /// and leaves the other settings as they are.
    fn timeout(self, value: Duration) -> (builder: Self)
        ensures
            builder.spec_settings() == self.spec_settings(),
            builder.spec_waiting_time() == Some(value),
    ;

    fn create_sender(self, slot: &mut Option<SharedManagementData>) -> (result: Result<
        Self::Sender,
        ZeroCopyCreationError,
    >)
        requires
            spec_slot_wf(*old(slot)),
            old(slot).is_none() ==> self.spec_settings().fits(),
        ensures
            spec_slot_wf(*final(slot)),
            spec_slot_view(*final(slot)) == self.spec_settings().spec_create_port(
                spec_slot_view(*old(slot)),
                STATE_SENDER,
            ).0,
            match self.spec_settings().spec_create_port(spec_slot_view(*old(slot)), STATE_SENDER).1 {
                Ok(()) => result.is_ok(),
                Err(e) => result matches Err(error) && error == e,
            },
    ;

    fn create_receiver(self, slot: &mut Option<SharedManagementData>) -> (result: Result<
        Self::Receiver,
        ZeroCopyCreationError,
    >)
        requires
            spec_slot_wf(*old(slot)),
            old(slot).is_none() ==> self.spec_settings().fits(),
        ensures
            spec_slot_wf(*final(slot)),
            spec_slot_view(*final(slot)) == self.spec_settings().spec_create_port(
                spec_slot_view(*old(slot)),
                STATE_RECEIVER,
            ).0,
            match self.spec_settings().spec_create_port(spec_slot_view(*old(slot)), STATE_RECEIVER).1 {
                Ok(()) => result matches Ok(receiver) && receiver.spec_borrowed() == 0,
                Err(e) => result matches Err(error) && error == e,
            },
    ;
}

/// A kind of zero-copy connection.
pub trait ZeroCopyConnection {
    /// Removes the sender of a connection on behalf of a sender that has
    /// died.
    fn remove_sender(slot: &mut Option<SharedManagementData>) -> (result: Result<(), ZeroCopyPortRemoveError>)
        requires
            spec_slot_wf(*old(slot)),
        ensures
            spec_slot_wf(*final(slot)),
            spec_slot_view(*final(slot)) == spec_after_detach(spec_slot_view(*old(slot)), STATE_SENDER),
            result == match *old(slot) {
                None => Err::<(), ZeroCopyPortRemoveError>(ZeroCopyPortRemoveError::DoesNotExist),
                Some(_) => Ok(()),
            },
    ;

    /// Removes the receiver of a connection on behalf of a receiver that
    /// has died.
    fn remove_receiver(slot: &mut Option<SharedManagementData>) -> (result: Result<(), ZeroCopyPortRemoveError>)
        requires
            spec_slot_wf(*old(slot)),
        ensures
            spec_slot_wf(*final(slot)),
            spec_slot_view(*final(slot)) == spec_after_detach(spec_slot_view(*old(slot)), STATE_RECEIVER),
            result == match *old(slot) {
                None => Err::<(), ZeroCopyPortRemoveError>(ZeroCopyPortRemoveError::DoesNotExist),
                Some(_) => Ok(()),
            },
    ;

    /// Whether connections of this kind can overflow safely.
    spec fn spec_supports_safe_overflow() -> bool;

    /// Whether the buffer size of connections of this kind can be chosen.
    spec fn spec_has_configurable_buffer_size() -> bool;

    /// Whether connections of this kind can overflow safely.
    fn does_support_safe_overflow() -> (supported: bool)
        ensures
            supported == Self::spec_supports_safe_overflow(),
    ;

    /// Whether the buffer size of connections of this kind can be chosen.
    fn has_configurable_buffer_size() -> (configurable: bool)
        ensures
            configurable == Self::spec_has_configurable_buffer_size(),
    ;
}

impl ZeroCopyPortDetails for Sender {
    fn buffer_size(&self, storage: &SharedManagementData) -> (size: usize) {
        Sender::buffer_size(self, storage)
    }

    fn has_enabled_safe_overflow(&self, storage: &SharedManagementData) -> (enabled: bool) {
        Sender::has_enabled_safe_overflow(self, storage)
    }

    fn max_borrowed_samples(&self, storage: &SharedManagementData) -> (samples: usize) {
        Sender::max_borrowed_samples(self, storage)
    }

    fn max_supported_shared_memory_segments(&self, storage: &SharedManagementData) -> (segments: u8) {
        Sender::max_supported_shared_memory_segments(self, storage)
    }

    fn is_connected(&self, storage: &SharedManagementData) -> (connected: bool) {
        Sender::is_connected(self, storage)
    }
}

impl ZeroCopyPortDetails for Receiver {
    fn buffer_size(&self, storage: &SharedManagementData) -> (size: usize) {
        Receiver::buffer_size(self, storage)
    }

    fn has_enabled_safe_overflow(&self, storage: &SharedManagementData) -> (enabled: bool) {
        Receiver::has_enabled_safe_overflow(self, storage)
    }

    fn max_borrowed_samples(&self, storage: &SharedManagementData) -> (samples: usize) {
        Receiver::max_borrowed_samples(self, storage)
    }

    fn max_supported_shared_memory_segments(&self, storage: &SharedManagementData) -> (segments: u8) {
        Receiver::max_supported_shared_memory_segments(self, storage)
    }

    fn is_connected(&self, storage: &SharedManagementData) -> (connected: bool) {
        Receiver::is_connected(self, storage)
    }
}

impl ZeroCopySender for Sender {
    fn try_send(&self, storage: &mut SharedManagementData, ptr: PointerOffset, sample_size: usize) -> (result: Result<
        Option<PointerOffset>,
        ZeroCopySendError,
    >) {
        Sender::try_send(self, storage, ptr, sample_size)
    }

    fn blocking_send(&self, storage: &mut SharedManagementData, ptr: PointerOffset, sample_size: usize) -> (step:
        BlockingSend) {
        Sender::blocking_send(self, storage, ptr, sample_size)
    }

    fn reclaim(&self, storage: &mut SharedManagementData) -> (result: Result<
        Option<PointerOffset>,
        ZeroCopyReclaimError,
    >) {
        Sender::reclaim(self, storage)
    }

    fn acquire_used_offsets(&self, storage: &mut SharedManagementData) -> (offsets: Vec<PointerOffset>) {
        Sender::acquire_used_offsets(self, storage)
    }
}

impl ZeroCopyReceiver for Receiver {
    open spec fn spec_borrowed(&self) -> nat {
        self.spec_borrow_counter()
    }

    fn has_data(&self, storage: &SharedManagementData) -> (has_data: bool) {
        Receiver::has_data(self, storage)
    }

    fn receive(&mut self, storage: &mut SharedManagementData) -> (result: Result<
        Option<PointerOffset>,
        ZeroCopyReceiveError,
    >) {
        Receiver::receive(self, storage)
    }

    fn release(&mut self, storage: &mut SharedManagementData, ptr: PointerOffset) -> (result: Result<
        (),
        ZeroCopyReleaseError,
    >) {
        Receiver::release(self, storage, ptr)
    }
}

impl ZeroCopyConnectionBuilder for Builder {
    type Sender = Sender;

    type Receiver = Receiver;

    open spec fn spec_settings(&self) -> BuilderView {
        self@
    }

    open spec fn spec_waiting_time(&self) -> Option<Duration> {
        self.spec_timeout()
    }

    fn buffer_size(self, value: usize) -> (builder: Self) {
        Builder::buffer_size(self, value)
    }

    fn enable_safe_overflow(self, value: bool) -> (builder: Self) {
        Builder::enable_safe_overflow(self, value)
    }

    fn receiver_max_borrowed_samples(self, value: usize) -> (builder: Self) {
        Builder::receiver_max_borrowed_samples(self, value)
    }

    fn max_supported_shared_memory_segments(self, value: u8) -> (builder: Self) {
        Builder::max_supported_shared_memory_segments(self, value)
    }

    fn number_of_samples_per_segment(self, value: usize) -> (builder: Self) {
        Builder::number_of_samples_per_segment(self, value)
    }

    fn timeout(self, value: Duration) -> (builder: Self) {
        Builder::timeout(self, value)
    }

    fn create_sender(self, slot: &mut Option<SharedManagementData>) -> (result: Result<
        Self::Sender,
        ZeroCopyCreationError,
    >) {
        Builder::create_sender(self, slot)
    }

    fn create_receiver(self, slot: &mut Option<SharedManagementData>) -> (result: Result<
        Self::Receiver,
        ZeroCopyCreationError,
    >) {
        Builder::create_receiver(self, slot)
    }
}

impl ZeroCopyConnection for Connection {
    /// A connection over two index queues overflows safely: the
    /// submission channel hands back its oldest word.
    open spec fn spec_supports_safe_overflow() -> bool {
        true
    }

    /// The capacity of the submission channel is chosen when the
    /// connection is created.
    open spec fn spec_has_configurable_buffer_size() -> bool {
        true
    }

    fn remove_sender(slot: &mut Option<SharedManagementData>) -> (result: Result<(), ZeroCopyPortRemoveError>) {
        Connection::remove_sender(slot)
    }

    fn remove_receiver(slot: &mut Option<SharedManagementData>) -> (result: Result<(), ZeroCopyPortRemoveError>) {
        Connection::remove_receiver(slot)
    }

    fn does_support_safe_overflow() -> (supported: bool) {
        Connection::does_support_safe_overflow()
    }

    fn has_configurable_buffer_size() -> (configurable: bool) {
        Connection::has_configurable_buffer_size()
    }
}

} // verus!
