//! The mathematical content of a publisher and of the shared memory it
//! works on, and what the operations of the publisher make of them.

use vstd::prelude::*;
use crate::connection_laws::{
    lemma_locate_after_forget, lemma_locate_after_submit, lemma_reclaim_keeps_consistency, spec_in_flight,
    spec_protocol_consistent,
};
use crate::data_segment::{DataSegmentModel, DataSegmentType};
use crate::history::{History, MAX_HISTORY_SIZE, OffsetAndSize};
use crate::pointer_offset::{spec_offset_of, spec_pack, spec_segment_of, PointerOffset};
use crate::publisher::{
    ConnectionFailure, DegrationAction, DeliverStep, Delivery, MAX_SUBSCRIBER_SLOTS, PublisherSendError,
    SubscriberDetails, UnableToDeliverStrategy,
};
use crate::shm_allocator::{Layout, ShmAllocationError};
use crate::zero_copy_connection::{
    spec_slot_view, BuilderView, ConnectionView, STATE_SENDER, SharedManagementData, ZeroCopyCreationError,
    ZeroCopySendError,
};
use iceoryx2_bb_elementary::allocator::AllocationError;

verus! {

/// A product with a factor of at least one is not below the other factor,
/// and a product with zero is zero.
pub proof fn lemma_product_and_more(a: nat, b: nat)
    ensures
        a >= 1 ==> a * b >= b,
        a == 0 ==> a * b == 0,
{
    if a >= 1 {
        assert(a * b >= b) by (nonlinear_arith)
            requires
                a >= 1,
        ;
    } else {
        assert(a * b == 0) by (nonlinear_arith)
            requires
                a == 0,
        ;
    }
}

/// The address of the bucket `bucket` of the segment `segment`.
pub open spec fn spec_word(data: DataSegmentModel, segment: int, bucket: int) -> u64 {
    spec_pack((bucket * data.bucket_sizes[segment]) as u64, segment as u8)
}

/// The segment and the index of the bucket that the word `w` names, if it
/// names a bucket of the data segment.
pub open spec fn spec_bucket_of(data: DataSegmentModel, w: u64) -> Option<(int, int)> {
    let segment = spec_segment_of(w) as int;
    let offset = spec_offset_of(w) as int;
    if segment < data.bucket_sizes.len() && data.bucket_sizes[segment] > 0 && offset % (
    data.bucket_sizes[segment] as int) == 0 && offset / (data.bucket_sizes[segment] as int) < data.number_of_samples {
        Some((segment, offset / (data.bucket_sizes[segment] as int)))
    } else {
        None
    }
}

/// Whether the connection in a slot has the bucket that `w` names in
/// flight, as a number.
pub open spec fn spec_holds(slot: Option<ConnectionView>, w: u64) -> nat {
    match slot {
        Some(view) => if view.spec_locate(w).is_some() {
            1
        } else {
            0
        },
        None => 0,
    }
}

/// Number of connections that have the bucket that `w` names in flight.
pub open spec fn spec_holders(shm: Seq<Option<ConnectionView>>, w: u64) -> nat
    decreases shm.len(),
{
    if shm.len() == 0 {
        0
    } else {
        spec_holders(shm.drop_last(), w) + spec_holds(shm.last(), w)
    }
}

/// Number of entries of the history that hold the bucket that `w` names.
pub open spec fn spec_occurrences(history: Seq<OffsetAndSize>, w: u64) -> nat
    decreases history.len(),
{
    if history.len() == 0 {
        0
    } else {
        spec_occurrences(history.drop_last(), w) + if history.last().offset == w {
            1nat
        } else {
            0nat
        }
    }
}

/// Number of holders of the bucket that `w` names: the user, if the bucket
/// is on loan, the entries of the history, and the connections.
pub open spec fn spec_live(
    loaned: Set<u64>,
    history: Seq<OffsetAndSize>,
    shm: Seq<Option<ConnectionView>>,
    w: u64,
) -> nat {
    (if loaned.contains(w) {
        1nat
    } else {
        0nat
    }) + spec_occurrences(history, w) + spec_holders(shm, w)
}

/// The contents of the slots of the shared memory.
pub open spec fn spec_views(shm: Seq<Option<SharedManagementData>>) -> Seq<Option<ConnectionView>> {
    Seq::new(shm.len(), |i: int| crate::zero_copy_connection::spec_slot_view(shm[i]))
}

/// Replacing the content of one slot changes the number of holders by what
/// the slot held before and holds now.
pub proof fn lemma_holders_update(shm: Seq<Option<ConnectionView>>, i: int, slot: Option<ConnectionView>, w: u64)
    requires
        0 <= i < shm.len(),
    ensures
        spec_holders(shm.update(i, slot), w) + spec_holds(shm[i], w) == spec_holders(shm, w) + spec_holds(slot, w),
    decreases shm.len(),
{
    let updated = shm.update(i, slot);
    if i == shm.len() - 1 {
        assert(updated.drop_last() =~= shm.drop_last());
    } else {
        lemma_holders_update(shm.drop_last(), i, slot, w);
        assert(updated.drop_last() =~= shm.drop_last().update(i, slot));
    }
}

/// There are no more holders than slots, and none if no slot holds.
pub proof fn lemma_holders_bound(shm: Seq<Option<ConnectionView>>, w: u64)
    ensures
        spec_holders(shm, w) <= shm.len(),
        (forall|i: int| 0 <= i < shm.len() ==> spec_holds(#[trigger] shm[i], w) == 0) ==> spec_holders(shm, w) == 0,
        spec_holders(shm, w) == 0 ==> (forall|i: int| 0 <= i < shm.len() ==> spec_holds(#[trigger] shm[i], w) == 0),
    decreases shm.len(),
{
    if shm.len() > 0 {
        lemma_holders_bound(shm.drop_last(), w);
        assert forall|i: int| 0 <= i < shm.len() - 1 implies shm.drop_last()[i] == shm[i] by {}
        if forall|i: int| 0 <= i < shm.len() ==> spec_holds(#[trigger] shm[i], w) == 0 {
            assert forall|i: int| 0 <= i < shm.drop_last().len() implies spec_holds(#[trigger] shm.drop_last()[i], w)
                == 0 by {
                assert(shm.drop_last()[i] == shm[i]);
            }
        }
        if spec_holders(shm, w) == 0 {
            assert forall|i: int| 0 <= i < shm.len() implies spec_holds(#[trigger] shm[i], w) == 0 by {
                if i < shm.len() - 1 {
                    assert(shm.drop_last()[i] == shm[i]);
                }
            }
        }
    }
}

/// A new entry counts once for the bucket it holds.
pub proof fn lemma_occurrences_push(history: Seq<OffsetAndSize>, entry: OffsetAndSize, w: u64)
    ensures
        spec_occurrences(history.push(entry), w) == spec_occurrences(history, w) + if entry.offset == w {
            1nat
        } else {
            0nat
        },
{
    assert(history.push(entry).drop_last() =~= history);
}

/// Without its oldest entry a history counts that entry's bucket once
/// less.
pub proof fn lemma_occurrences_skip(history: Seq<OffsetAndSize>, w: u64)
    requires
        history.len() > 0,
    ensures
        spec_occurrences(history.skip(1), w) + (if history[0].offset == w {
            1nat
        } else {
            0nat
        }) == spec_occurrences(history, w),
    decreases history.len(),
{
    if history.len() == 1 {
        assert(history.skip(1) =~= Seq::<OffsetAndSize>::empty());
        assert(history.drop_last() =~= Seq::<OffsetAndSize>::empty());
    } else {
        lemma_occurrences_skip(history.drop_last(), w);
        assert(history.skip(1).drop_last() =~= history.drop_last().skip(1));
    }
}

/// A bucket occurs in a history no more often than the history is long,
/// and it occurs exactly if one of the entries holds it.
pub proof fn lemma_occurrences_bound(history: Seq<OffsetAndSize>, w: u64)
    ensures
        spec_occurrences(history, w) <= history.len(),
        spec_occurrences(history, w) > 0 <==> exists|k: int| 0 <= k < history.len() && (#[trigger] history[k]).offset == w,
    decreases history.len(),
{
    if history.len() > 0 {
        lemma_occurrences_bound(history.drop_last(), w);
        if spec_occurrences(history, w) > 0 {
            if history.last().offset == w {
                assert(history[history.len() - 1].offset == w);
            } else {
                let k = choose|k: int| 0 <= k < history.drop_last().len() && (#[trigger] history.drop_last()[k]).offset == w;
                assert(history[k].offset == w);
            }
        }
        if exists|k: int| 0 <= k < history.len() && (#[trigger] history[k]).offset == w {
            let k = choose|k: int| 0 <= k < history.len() && (#[trigger] history[k]).offset == w;
            if k < history.len() - 1 {
                assert(history.drop_last()[k].offset == w);
            }
        }
    }
}

/// The word of a bucket names that bucket, and a word that names a bucket
/// is the word of that bucket.
pub proof fn lemma_word_names_its_bucket(data: DataSegmentModel, segment: int, bucket: int, w: u64)
    requires
        data.well_formed(),
    ensures
        0 <= segment < data.bucket_sizes.len() && 0 <= bucket < data.number_of_samples ==> spec_bucket_of(
            data,
            spec_word(data, segment, bucket),
        ) == Some((segment, bucket)),
        spec_bucket_of(data, w) == Some((segment, bucket)) ==> w == spec_word(data, segment, bucket) && 0 <= segment
            < data.bucket_sizes.len() && 0 <= bucket < data.number_of_samples,
{
    if 0 <= segment < data.bucket_sizes.len() && 0 <= bucket < data.number_of_samples {
        let size = data.bucket_sizes[segment] as int;
        assert(bucket * size <= data.number_of_samples * size) by (nonlinear_arith)
            requires
                0 <= bucket < data.number_of_samples,
                size > 0,
        ;
        assert(bucket * size >= 0) by (nonlinear_arith)
            requires
                0 <= bucket,
                size > 0,
        ;
        crate::pointer_offset::lemma_pack_unpack((bucket * size) as u64, segment as u8);
        crate::zero_copy_connection::lemma_scaled_divides(bucket, size);
    }
    if spec_bucket_of(data, w) == Some((segment, bucket)) {
        let size = data.bucket_sizes[segment] as int;
        let offset = spec_offset_of(w) as int;
        vstd::arithmetic::div_mod::lemma_fundamental_div_mod(offset, size);
        assert(bucket * size == offset) by (nonlinear_arith)
            requires
                offset == size * (offset / size) + offset % size,
                offset % size == 0,
                bucket == offset / size,
        ;
        crate::pointer_offset::lemma_unpack_pack(w);
        vstd::arithmetic::div_mod::lemma_div_pos_is_pos(offset, size);
    }
}

/// The mathematical content of a publisher.
#[verifier::ext_equal]
pub struct PublisherModel {
    /// Per segment and bucket, the number of holders that was counted.
    pub counters: Seq<Seq<u64>>,
    /// Per segment, the size of its buckets, or zero while it is unknown.
    pub payload_sizes: Seq<nat>,
    pub data: DataSegmentModel,
    /// Per subscriber slot, the subscriber that the publisher is connected
    /// to.
    pub connected: Seq<Option<u128>>,
    /// The samples in the history, oldest first; empty without a history.
    pub history: Seq<OffsetAndSize>,
    /// Greatest number of samples in the history; zero without a history.
    pub history_size: nat,
    /// The words of the buckets that the user holds as loans.
    pub loaned: Set<u64>,
    pub loan_counter: nat,
    pub max_loaned_samples: nat,
    pub is_active: bool,
    pub number_of_samples: nat,
    pub max_number_of_segments: u8,
    pub subscriber_max_borrowed_samples: nat,
    pub enable_safe_overflow: bool,
    pub unable_to_deliver_strategy: UnableToDeliverStrategy,
    pub degration_action: Option<DegrationAction>,
    /// Per subscriber slot, what the registry said about it when the
    /// publisher last looked.
    pub subscribers: Seq<Option<SubscriberDetails>>,
    /// The id of the publisher.
    pub port_id: u128,
}

impl PublisherModel {
    /// The number of holders that was counted for the bucket that `w`
    /// names; zero if it names none.
    pub open spec fn spec_refcount(&self, w: u64) -> nat {
        match spec_bucket_of(self.data, w) {
            Some((segment, bucket)) => self.counters[segment][bucket] as nat,
            None => 0,
        }
    }

    /// The counters, the payload sizes and the data segment fit together,
    /// and what the history and the loans hold are buckets.
    pub open spec fn well_formed(&self) -> bool {
        &&& self.data.well_formed()
        &&& self.data.number_of_samples == self.number_of_samples
        &&& self.data.segment_type.spec_max_number_of_segments() == self.max_number_of_segments
        &&& self.counters.len() == self.max_number_of_segments
        &&& self.payload_sizes.len() == self.max_number_of_segments
        &&& forall|s: int| 0 <= s < self.counters.len() ==> (#[trigger] self.counters[s]).len() == self.number_of_samples
        &&& forall|s: int|
            0 <= s < self.payload_sizes.len() ==> (#[trigger] self.payload_sizes[s]) == 0 || (s
                < self.data.bucket_sizes.len() && self.payload_sizes[s] == self.data.bucket_sizes[s])
        &&& forall|s: int, b: int|
            self.data.bucket_sizes.len() <= s < self.counters.len() && 0 <= b < self.number_of_samples ==> (
            #[trigger] self.counters[s][b]) == 0
        &&& self.loaned.finite()
        &&& self.loan_counter == self.loaned.len()
        &&& self.connected.len() <= MAX_SUBSCRIBER_SLOTS
        &&& self.history.len() <= self.history_size <= MAX_HISTORY_SIZE
        &&& forall|k: int|
            0 <= k < self.history.len() ==> {
                &&& spec_bucket_of(self.data, (#[trigger] self.history[k]).offset).is_some()
                &&& self.history[k].size == self.data.bucket_sizes[spec_segment_of(self.history[k].offset) as int]
            }
        &&& forall|j: int, k: int|
            0 <= j < k < self.history.len() ==> (#[trigger] self.history[j]).offset != (#[trigger] self.history[k]).offset
    }

    /// The connection `view` was created with the settings of this
    /// publisher, and knows the segments by the sizes of their buckets.
    pub open spec fn spec_compatible(&self, view: ConnectionView) -> bool {
        &&& view.number_of_segments == self.max_number_of_segments
        &&& view.number_of_samples_per_segment == self.number_of_samples
        &&& forall|s: int|
            0 <= s < view.sample_sizes.len() ==> (#[trigger] view.sample_sizes[s]) == 0 || (s
                < self.data.bucket_sizes.len() && view.sample_sizes[s] == self.data.bucket_sizes[s])
    }

    /// What holds of a slot of the shared memory: a connected slot holds a
    /// compatible block; a block in a slot that is not connected has never
    /// been sent on; and what is on its way on a block is in step with its
    /// used-chunk lists.
    pub open spec fn spec_slot_ok(&self, connected: Option<u128>, slot: Option<SharedManagementData>) -> bool {
        match slot {
            None => connected.is_none(),
            Some(block) => {
                &&& block.wf()
                &&& spec_protocol_consistent(block@)
                &&& connected.is_some() ==> self.spec_compatible(block@)
                &&& connected.is_none() ==> forall|s: int|
                    0 <= s < block@.sample_sizes.len() ==> #[trigger] block@.sample_sizes[s] == 0
            },
        }
    }

    /// Reference-count balance: for every bucket, the number of holders
    /// that was counted is the number of its holders, and the bucket is
    /// handed out by the data segment exactly if it has a holder.
    pub open spec fn spec_balanced(&self, shm: Seq<Option<ConnectionView>>) -> bool {
        forall|w: u64|
            {
                &&& #[trigger] self.spec_refcount(w) == spec_live(self.loaned, self.history, shm, w)
                &&& self.data.spec_is_allocated(PointerOffset(w)) <==> self.spec_refcount(w) > 0
            }
    }

    /// The settings of the connection to the subscriber `details`.
    pub open spec fn spec_connection_settings(&self, details: SubscriberDetails) -> BuilderView {
        BuilderView {
            buffer_size: if details.buffer_size == 0 {
                1
            } else {
                details.buffer_size as nat
            },
            enable_safe_overflow: self.enable_safe_overflow,
            max_borrowed_samples: if self.subscriber_max_borrowed_samples == 0 {
                1
            } else {
                self.subscriber_max_borrowed_samples
            },
            number_of_samples_per_segment: self.number_of_samples,
            number_of_segments: if self.max_number_of_segments == 0 {
                1
            } else {
                self.max_number_of_segments
            },
        }
    }

    /// The samples of the history that a subscriber with a buffer of the
    /// given size is sent when it joins: as many of the most recent ones
    /// as fit into its buffer.
    pub open spec fn spec_history_tail(&self, buffer_size: nat) -> Seq<OffsetAndSize> {
        self.history.skip(
            if self.history.len() > buffer_size {
                self.history.len() - buffer_size
            } else {
                0
            },
        )
    }

    /// The publisher has no connection to tear down and no history to
    /// replay: reconciling its slots then neither counts nor frees a
    /// bucket.
    pub open spec fn spec_is_fresh(&self) -> bool {
        &&& self.history.len() == 0
        &&& forall|i: int| 0 <= i < self.connected.len() ==> (#[trigger] self.connected[i]).is_none()
    }

    /// No bucket has a holder and no segment has been used yet: there is
    /// a counter for every bucket of every segment that the data segment
    /// may come to have, every counter is zero, and no payload size is
    /// known.
    pub open spec fn spec_is_unused(&self) -> bool {
        &&& self.counters.len() == self.max_number_of_segments
        &&& self.payload_sizes.len() == self.max_number_of_segments
        &&& forall|s: int|
            0 <= s < self.counters.len() ==> (#[trigger] self.counters[s]) == Seq::new(
                self.number_of_samples,
                |b: int| 0u64,
            ) && self.payload_sizes[s] == 0
    }

    /// Every slot is settled with respect to the registry `registry`.
    pub open spec fn spec_all_settled(&self, registry: Seq<Option<SubscriberDetails>>) -> bool {
        forall|i: int| 0 <= i < self.connected.len() ==> spec_settled(#[trigger] registry[i], self.connected[i])
    }

    /// Both have the same counters, payload sizes and data segment.
    pub open spec fn spec_same_buckets(&self, other: PublisherModel) -> bool {
        &&& self.counters == other.counters
        &&& self.payload_sizes == other.payload_sizes
        &&& self.data == other.data
    }

    /// The bucket that `w` names is on loan and has no other holder: it
    /// was loaned and not sent yet.
    pub open spec fn spec_is_unsent_loan(&self, w: u64) -> bool {
        self.loaned.contains(w) && self.spec_refcount(w) == 1
    }
}

/// Whatever was loaned and not sent yet before is so afterwards.
pub open spec fn spec_loans_untouched(before: PublisherModel, after: PublisherModel) -> bool {
    forall|w: u64| #[trigger] before.spec_is_unsent_loan(w) ==> after.spec_is_unsent_loan(w)
}

/// A bucket that a connection has in flight is no loan that was not sent
/// yet.
pub proof fn lemma_held_is_no_unsent_loan(model: PublisherModel, views: Seq<Option<ConnectionView>>, index: int, w: u64)
    requires
        model.spec_balanced(views),
        0 <= index < views.len(),
        spec_holds(views[index], w) == 1,
    ensures
        !model.spec_is_unsent_loan(w),
{
    lemma_holders_update(views, index, None, w);
    assert(model.spec_refcount(w) == spec_live(model.loaned, model.history, views, w));
}

/// A bucket in the history is no loan that was not sent yet.
pub proof fn lemma_history_is_no_unsent_loan(model: PublisherModel, views: Seq<Option<ConnectionView>>, k: int)
    requires
        model.spec_balanced(views),
        0 <= k < model.history.len(),
    ensures
        !model.spec_is_unsent_loan(model.history[k].offset),
{
    let w = model.history[k].offset;
    lemma_occurrences_bound(model.history, w);
    assert(model.spec_refcount(w) == spec_live(model.loaned, model.history, views, w));
}

/// The content of a connection after the sender has reclaimed everything
/// that was on the completion channel.
pub open spec fn spec_reclaimed_all(view: ConnectionView) -> ConnectionView
    decreases view.completion.len(),
{
    if view.completion.len() == 0 {
        view
    } else {
        spec_reclaimed_all(view.spec_reclaim().0)
    }
}

/// After everything was reclaimed the completion channel is empty, so
/// reclaiming once more changes nothing.
pub proof fn lemma_reclaimed_all_is_final(view: ConnectionView)
    ensures
        spec_reclaimed_all(view).completion.len() == 0,
        spec_reclaimed_all(spec_reclaimed_all(view)) == spec_reclaimed_all(view),
    decreases view.completion.len(),
{
    if view.completion.len() > 0 {
        lemma_reclaimed_all_is_final(view.spec_reclaim().0);
    }
}

/// A bucket that a compatible connection has in flight is a bucket of the
/// data segment, under the same word.
pub proof fn lemma_flight_names_a_bucket(model: PublisherModel, view: ConnectionView, w: u64)
    requires
        model.well_formed(),
        view.well_formed(),
        model.spec_compatible(view),
        view.spec_locate(w).is_some(),
    ensures
        spec_bucket_of(model.data, w) == view.spec_locate(w),
{
    let (segment, index) = view.spec_locate(w).unwrap();
    assert(view.used[segment].contains(index));
    assert(view.sample_sizes[segment] > 0);
}

/// Why a data segment with the content `data` refuses a request of the
/// given layout with the error `e`. A static data segment refuses what
/// does not fit into a bucket. A data segment is out of memory when the
/// request fits and every bucket of the newest segment is handed out, or
/// when the request does not fit and no segment can be added. Adding a
/// segment fails if its buckets cannot be laid out.
pub open spec fn spec_refusal(data: DataSegmentModel, layout: Layout, e: ShmAllocationError) -> bool {
    match e {
        ShmAllocationError::ExceedsMaxSupportedAlignment => {
            &&& data.segment_type == DataSegmentType::Static
            &&& !data.spec_fits(layout)
        },
        ShmAllocationError::AllocationError(AllocationError::OutOfMemory) => {
            ||| data.spec_fits(layout) && data.spec_newest_is_full()
            ||| {
                &&& !data.spec_fits(layout)
                &&& data.segment_type == DataSegmentType::Dynamic
                &&& data.bucket_sizes.len() == data.segment_type.spec_max_number_of_segments()
            }
        },
        ShmAllocationError::AllocationError(AllocationError::InternalError) => {
            &&& !data.spec_fits(layout)
            &&& data.segment_type == DataSegmentType::Dynamic
            &&& data.bucket_sizes.len() < data.segment_type.spec_max_number_of_segments()
            &&& !data.spec_can_lay_out(data.spec_grown_layout(layout).0)
        },
        _ => false,
    }
}

/// The number of holders of a bucket is small enough to be counted.
pub proof fn lemma_live_is_countable(model: PublisherModel, shm: Seq<Option<ConnectionView>>, w: u64)
    requires
        model.well_formed(),
        shm.len() == model.connected.len(),
    ensures
        spec_live(model.loaned, model.history, shm, w) <= 1 + MAX_HISTORY_SIZE + MAX_SUBSCRIBER_SLOTS,
{
    lemma_holders_bound(shm, w);
    lemma_occurrences_bound(model.history, w);
}

/// A bucket of the data segment that a compatible connection does not have
/// in flight can be sent on it.
pub proof fn lemma_can_send(model: PublisherModel, view: ConnectionView, ptr: PointerOffset, sample_size: nat)
    requires
        model.well_formed(),
        view.well_formed(),
        model.spec_compatible(view),
        spec_bucket_of(model.data, ptr.0).is_some(),
        view.spec_locate(ptr.0).is_none(),
        sample_size == model.data.bucket_sizes[ptr.spec_segment_id() as int],
    ensures
        view.spec_can_send(ptr, sample_size),
        model.spec_compatible(view.spec_submitted(ptr, sample_size)),
{
    let segment = ptr.spec_segment_id() as int;
    if view.sample_sizes[segment] == 0 {
        assert(!view.used[segment].contains((ptr.spec_offset() / sample_size) as int));
    }
    let after = view.spec_submitted(ptr, sample_size);
    assert forall|s: int| 0 <= s < after.sample_sizes.len() implies (#[trigger] after.sample_sizes[s]) == 0 || (s
        < model.data.bucket_sizes.len() && after.sample_sizes[s] == model.data.bucket_sizes[s]) by {
        if s != segment {
            assert(after.sample_sizes[s] == view.sample_sizes[s]);
        }
    }
}

/// The step of delivering to a connection with the given content.
pub open spec fn spec_deliver_step(
    view: ConnectionView,
    strategy: UnableToDeliverStrategy,
    ptr: PointerOffset,
    sample_size: nat,
) -> DeliverStep {
    if view.spec_send_rejected() {
        match strategy {
            UnableToDeliverStrategy::Block => DeliverStep::Wait,
            UnableToDeliverStrategy::DiscardSample => DeliverStep::Skipped,
        }
    } else {
        DeliverStep::Delivered
    }
}

/// How a send that went through changes what a connection has in flight:
/// it has the sent bucket in flight in addition, and no longer the bucket
/// it gave up for it.
pub proof fn lemma_send_changes_holding(view: ConnectionView, ptr: PointerOffset, sample_size: nat, w: u64)
    requires
        view.well_formed(),
        spec_protocol_consistent(view),
        view.spec_can_send(ptr, sample_size),
        view.spec_try_send(ptr, sample_size).1.is_ok(),
    ensures
        view.spec_try_send(ptr, sample_size).0.spec_locate(w).is_some() == ((view.spec_locate(w).is_some() || w
            == ptr.0) && view.spec_try_send(ptr, sample_size).1 != Ok::<Option<PointerOffset>, ZeroCopySendError>(
            Some(PointerOffset(w)),
        )),
        view.spec_locate(ptr.0).is_none(),
        match view.spec_try_send(ptr, sample_size).1 {
            Ok(Some(evicted)) => evicted.0 == ptr.0 || view.spec_locate(evicted.0).is_some(),
            _ => true,
        },
{
    let submitted = view.spec_submitted(ptr, sample_size);
    lemma_locate_after_submit(view, ptr, sample_size, w);
    lemma_locate_after_submit(view, ptr, sample_size, ptr.0);
    match view.spec_try_send(ptr, sample_size).1 {
        Ok(Some(evicted)) => {
            lemma_locate_after_submit(view, ptr, sample_size, evicted.0);
            lemma_locate_after_forget(submitted, evicted.0, w);
        },
        _ => {},
    }
}

/// Reference counts stay balanced when one connection takes a bucket into
/// flight and lets go of another, provided the counters follow: first the
/// counter of the bucket that was gained goes up, then that of the bucket
/// that was lost goes down, and a bucket whose counter reaches zero goes
/// back to the data segment.
pub proof fn lemma_holder_change(
    before: PublisherModel,
    borrowed: PublisherModel,
    after: PublisherModel,
    views: Seq<Option<ConnectionView>>,
    index: int,
    view_after: ConnectionView,
    gained: Option<u64>,
    lost: Option<u64>,
)
    requires
        before.spec_balanced(views),
        0 <= index < views.len(),
        views[index].is_some(),
        forall|w: u64|
            (#[trigger] view_after.spec_locate(w)).is_some() == ((views[index].unwrap().spec_locate(w).is_some()
                || gained == Some(w)) && lost != Some(w)),
        gained.is_some() ==> views[index].unwrap().spec_locate(gained.unwrap()).is_none() && before.spec_refcount(
            gained.unwrap(),
        ) > 0,
        lost.is_some() ==> lost == gained || views[index].unwrap().spec_locate(lost.unwrap()).is_some(),
        forall|w: u64| #[trigger]
            borrowed.spec_refcount(w) == before.spec_refcount(w) + if gained == Some(w) {
                1nat
            } else {
                0nat
            },
        forall|w: u64| #[trigger]
            borrowed.data.spec_is_allocated(PointerOffset(w)) == before.data.spec_is_allocated(PointerOffset(w)),
        forall|w: u64| #[trigger]
            after.spec_refcount(w) + (if lost == Some(w) {
                1nat
            } else {
                0nat
            }) == borrowed.spec_refcount(w),
        forall|w: u64| #[trigger]
            after.data.spec_is_allocated(PointerOffset(w)) == (borrowed.data.spec_is_allocated(PointerOffset(w)) && !(
            lost == Some(w) && borrowed.spec_refcount(w) == 1)),
        after.loaned == before.loaned,
        after.history == before.history,
    ensures
        after.spec_balanced(views.update(index, Some(view_after))),
{
    let views_after = views.update(index, Some(view_after));
    assert forall|w: u64|
        {
            &&& #[trigger] after.spec_refcount(w) == spec_live(after.loaned, after.history, views_after, w)
            &&& after.data.spec_is_allocated(PointerOffset(w)) <==> after.spec_refcount(w) > 0
        } by {
        lemma_holders_update(views, index, Some(view_after), w);
        lemma_holders_bound(views, w);
        assert(before.spec_refcount(w) == spec_live(before.loaned, before.history, views, w));
        assert(before.data.spec_is_allocated(PointerOffset(w)) <==> before.spec_refcount(w) > 0);
        assert(borrowed.spec_refcount(w) == before.spec_refcount(w) + if gained == Some(w) {
            1nat
        } else {
            0nat
        });
        assert(after.spec_refcount(w) + (if lost == Some(w) {
            1nat
        } else {
            0nat
        }) == borrowed.spec_refcount(w));
        assert(borrowed.data.spec_is_allocated(PointerOffset(w)) == before.data.spec_is_allocated(PointerOffset(w)));
        assert(after.data.spec_is_allocated(PointerOffset(w)) == (borrowed.data.spec_is_allocated(PointerOffset(w))
            && !(lost == Some(w) && borrowed.spec_refcount(w) == 1)));
        assert(view_after.spec_locate(w).is_some() == ((views[index].unwrap().spec_locate(w).is_some() || gained
            == Some(w)) && lost != Some(w)));
        if views[index].unwrap().spec_locate(w).is_some() {
            assert(spec_holds(views[index], w) == 1);
        }
    }
}

/// The slots stay in order when a connected slot gets a block that is
/// well-formed, consistent and compatible, and the data segment keeps the
/// sizes of its buckets.
pub proof fn lemma_slots_stay_ok(
    before: PublisherModel,
    after: PublisherModel,
    shm_before: Seq<Option<SharedManagementData>>,
    shm_after: Seq<Option<SharedManagementData>>,
    index: int,
)
    requires
        forall|i: int| 0 <= i < shm_before.len() ==> before.spec_slot_ok(before.connected[i], #[trigger] shm_before[i]),
        shm_after.len() == shm_before.len(),
        0 <= index < shm_before.len(),
        forall|i: int| 0 <= i < shm_before.len() && i != index ==> shm_after[i] == shm_before[i],
        after.spec_slot_ok(after.connected[index], shm_after[index]),
        after.connected == before.connected,
        after.max_number_of_segments == before.max_number_of_segments,
        after.number_of_samples == before.number_of_samples,
        before.data.bucket_sizes.len() <= after.data.bucket_sizes.len(),
        forall|s: int| 0 <= s < before.data.bucket_sizes.len() ==> after.data.bucket_sizes[s] == before.data.bucket_sizes[s],
    ensures
        forall|i: int| 0 <= i < shm_after.len() ==> after.spec_slot_ok(after.connected[i], #[trigger] shm_after[i]),
{
    assert forall|i: int| 0 <= i < shm_after.len() implies after.spec_slot_ok(after.connected[i], #[trigger] shm_after[i]) by {
        if i != index {
            assert(before.spec_slot_ok(before.connected[i], shm_before[i]));
            match shm_after[i] {
                Some(block) => {
                    if after.connected[i].is_some() {
                        let view = block@;
                        assert forall|s: int| 0 <= s < view.sample_sizes.len() implies (#[trigger] view.sample_sizes[s]) == 0
                            || (s < after.data.bucket_sizes.len() && view.sample_sizes[s] == after.data.bucket_sizes[s]) by {}
                    }
                },
                None => {},
            }
        }
    }
}

/// Number of connected slots below `to` whose subscriber gets the sample.
pub open spec fn spec_recipients(
    views: Seq<Option<ConnectionView>>,
    connected: Seq<Option<u128>>,
    ptr: PointerOffset,
    sample_size: nat,
    from: int,
    to: int,
) -> nat
    decreases to - from,
{
    if to <= from {
        0
    } else {
        spec_recipients(views, connected, ptr, sample_size, from, to - 1) + if connected[to - 1].is_some() && views[to
            - 1].is_some() && views[to - 1].unwrap().spec_try_send(ptr, sample_size).1.is_ok() {
            1nat
        } else {
            0nat
        }
    }
}

/// There are no more recipients than slots.
pub proof fn lemma_recipients_bound(
    views: Seq<Option<ConnectionView>>,
    connected: Seq<Option<u128>>,
    ptr: PointerOffset,
    sample_size: nat,
    from: int,
    to: int,
)
    requires
        from <= to,
    ensures
        spec_recipients(views, connected, ptr, sample_size, from, to) <= to - from,
    decreases to - from,
{
    if to > from {
        lemma_recipients_bound(views, connected, ptr, sample_size, from, to - 1);
    }
}

/// What a delivery to the slots from `first` on has come to, starting from
/// the contents `views` and with `recipients` subscribers served before:
/// the publisher sends to the connected subscribers in the order of their
/// slots and stops at a subscriber without room if it was told to wait for
/// such subscribers. `delivery` counts the subscribers that have the
/// sample.
pub open spec fn spec_delivery_from(
    connected: Seq<Option<u128>>,
    strategy: UnableToDeliverStrategy,
    views: Seq<Option<ConnectionView>>,
    views_after: Seq<Option<ConnectionView>>,
    ptr: PointerOffset,
    sample_size: nat,
    first: int,
    recipients: nat,
    delivery: Delivery,
) -> bool {
    let stop = match delivery {
        Delivery::Done { recipients } => views.len() as int,
        Delivery::Blocked { connection, recipients } => connection as int,
    };
    let served = match delivery {
        Delivery::Done { recipients } => recipients,
        Delivery::Blocked { connection, recipients } => recipients,
    };
    &&& views_after.len() == views.len()
    &&& first <= stop <= views.len()
    &&& served == recipients + spec_recipients(views, connected, ptr, sample_size, first, stop)
    &&& forall|i: int|
        first <= i < stop ==> (#[trigger] views_after[i]) == if connected[i].is_some() && views[i].is_some() {
            Some(views[i].unwrap().spec_try_send(ptr, sample_size).0)
        } else {
            views[i]
        }
    &&& forall|i: int| 0 <= i < first || stop <= i < views.len() ==> (#[trigger] views_after[i]) == views[i]
    &&& delivery is Blocked ==> {
        &&& stop < views.len()
        &&& connected[stop].is_some()
        &&& strategy == UnableToDeliverStrategy::Block
        &&& views[stop].is_some()
        &&& views[stop].unwrap().spec_send_rejected()
    }
}

/// The contents of the slots after the publisher has reclaimed everything
/// from the connected ones.
pub open spec fn spec_all_reclaimed(views: Seq<Option<ConnectionView>>, connected: Seq<Option<u128>>) -> Seq<
    Option<ConnectionView>,
> {
    Seq::new(
        views.len(),
        |i: int|
            if connected[i].is_some() && views[i].is_some() {
                Some(spec_reclaimed_all(views[i].unwrap()))
            } else {
                views[i]
            },
    )
}

/// Reclaiming adds nothing to what a connection has in flight, and leaves
/// the submission channel and the settings alone.
pub proof fn lemma_reclaimed_all_holds_less(view: ConnectionView, w: u64)
    requires
        view.well_formed(),
        spec_protocol_consistent(view),
    ensures
        spec_reclaimed_all(view).spec_locate(w).is_some() ==> view.spec_locate(w).is_some(),
        spec_reclaimed_all(view).submission == view.submission,
        spec_reclaimed_all(view).completion.len() == 0,
        spec_reclaimed_all(view).well_formed(),
        spec_protocol_consistent(spec_reclaimed_all(view)),
    decreases view.completion.len(),
{
    if view.completion.len() > 0 {
        let next = view.spec_reclaim().0;
        lemma_reclaim_keeps_consistency(view);
        let popped = ConnectionView { completion: view.completion.skip(1), ..view };
        assert(popped.spec_locate(view.completion[0]) == view.spec_locate(view.completion[0]));
        if popped.spec_locate(view.completion[0]).is_some() {
            lemma_locate_after_forget(popped, view.completion[0], w);
            assert(popped.spec_locate(w) == view.spec_locate(w));
        }
        lemma_reclaimed_all_holds_less(next, w);
    }
}

/// On a balanced publisher the counter of a bucket is what the balance
/// says, whatever else is known.
pub proof fn lemma_balance_at(model: PublisherModel, views: Seq<Option<ConnectionView>>, w: u64)
    requires
        model.spec_balanced(views),
    ensures
        model.spec_refcount(w) == spec_live(model.loaned, model.history, views, w),
        model.data.spec_is_allocated(PointerOffset(w)) <==> model.spec_refcount(w) > 0,
{
}

/// Attaching a sender with the given settings to what is found in a slot:
/// what is found there afterwards, and whether the sender is attached. A
/// block that would have to be created is not created if its channels
/// cannot be allocated.
pub open spec fn spec_connect(settings: BuilderView, slot: Option<ConnectionView>) -> (
    Option<ConnectionView>,
    Result<(), ZeroCopyCreationError>,
) {
    if slot.is_none() && !settings.fits() {
        (slot, Err(ZeroCopyCreationError::InternalError))
    } else {
        settings.spec_create_port(slot, STATE_SENDER)
    }
}

/// The content of a connection after the samples `entries` were sent on
/// it, one after the other.
pub open spec fn spec_replayed(view: ConnectionView, entries: Seq<OffsetAndSize>) -> ConnectionView
    decreases entries.len(),
{
    if entries.len() == 0 {
        view
    } else {
        spec_replayed(
            view.spec_try_send(PointerOffset(entries[0].offset), entries[0].size as nat).0,
            entries.skip(1),
        )
    }
}

/// Which ports are attached to a connection has no bearing on what is on
/// its way.
pub proof fn lemma_state_is_irrelevant(a: ConnectionView, b: ConnectionView)
    requires
        a.well_formed(),
        spec_protocol_consistent(a),
        b == (ConnectionView { state: b.state, ..a }),
    ensures
        b.well_formed(),
        spec_protocol_consistent(b),
{
    assert forall|w: u64| #[trigger]
        spec_in_flight(b).count(w) == if b.spec_locate(w).is_some() {
            1nat
        } else {
            0nat
        } by {
        assert(spec_in_flight(a).count(w) == if a.spec_locate(w).is_some() {
            1nat
        } else {
            0nat
        });
        assert(b.spec_locate(w) == a.spec_locate(w));
    }
}

/// A block that has never been sent on has nothing in flight.
pub proof fn lemma_unsent_holds_nothing(view: ConnectionView, w: u64)
    requires
        forall|s: int| 0 <= s < view.sample_sizes.len() ==> #[trigger] view.sample_sizes[s] == 0,
    ensures
        view.spec_locate(w).is_none(),
{
}

/// A connection that has nothing in flight has nothing in its channels.
pub proof fn lemma_empty_flight_means_empty_channels(view: ConnectionView)
    requires
        spec_protocol_consistent(view),
        forall|w: u64| #[trigger] view.spec_locate(w).is_none(),
    ensures
        view.submission.len() == 0,
        view.completion.len() == 0,
{
    if view.submission.len() > 0 {
        let w = view.submission[0];
        view.submission.to_multiset_ensures();
        assert(view.submission.contains(w));
        assert(view.submission.to_multiset().count(w) > 0);
        assert(view.spec_locate(w).is_none());
        assert(spec_in_flight(view).count(w) == if view.spec_locate(w).is_some() {
            1nat
        } else {
            0nat
        });
        assert(false);
    }
    if view.completion.len() > 0 {
        let w = view.completion[0];
        view.completion.to_multiset_ensures();
        assert(view.completion.contains(w));
        assert(view.completion.to_multiset().count(w) > 0);
        assert(view.spec_locate(w).is_none());
        assert(spec_in_flight(view).count(w) == if view.spec_locate(w).is_some() {
            1nat
        } else {
            0nat
        });
        assert(false);
    }
}

/// What reconciling one slot with the registry makes of it: the subscriber
/// it is connected to and the content of the slot afterwards, and the
/// error of an attempt to connect that failed.
///
/// A slot that the registry has no subscriber for loses its connection. A
/// slot that is connected to the subscriber in the registry stays as it
/// is. Otherwise a connection to another subscriber is torn down and a
/// new one is made, on which the history is replayed.
pub open spec fn spec_reconciled_slot(
    model: PublisherModel,
    entry: Option<SubscriberDetails>,
    connected: Option<u128>,
    slot: Option<ConnectionView>,
) -> (Option<u128>, Option<ConnectionView>, Option<ZeroCopyCreationError>) {
    match entry {
        None => (
            None,
            if connected.is_some() {
                None
            } else {
                slot
            },
            None,
        ),
        Some(details) => if connected == Some(details.subscriber_id) {
            (connected, slot, None)
        } else {
            let base = if connected.is_some() {
                None
            } else {
                slot
            };
            let attempt = spec_connect(model.spec_connection_settings(details), base);
            match attempt.1 {
                Ok(()) => (
                    Some(details.subscriber_id),
                    Some(spec_replayed(attempt.0.unwrap(), model.spec_history_tail(attempt.0.unwrap().buffer_size))),
                    None,
                ),
                Err(e) => (None, attempt.0, Some(e)),
            }
        },
    }
}

/// A slot is settled when reconciling has nothing to do for it: it is
/// connected to the subscriber that the registry names for it, or it is
/// not connected and the registry names none.
pub open spec fn spec_settled(entry: Option<SubscriberDetails>, connected: Option<u128>) -> bool {
    match entry {
        None => connected.is_none(),
        Some(details) => connected == Some(details.subscriber_id),
    }
}

/// Whether a failed attempt to connect makes the publisher give up.
pub open spec fn spec_gives_up(action: Option<DegrationAction>, error: Option<ZeroCopyCreationError>) -> bool {
    error.is_some() && action == Some(DegrationAction::Fail)
}

/// What reconciling the slots with the registry has come to when the
/// slots below `stop` have been dealt with, starting from the contents
/// `views` and the connections `connected`.
pub open spec fn spec_populated(
    model: PublisherModel,
    views: Seq<Option<ConnectionView>>,
    connected_after: Seq<Option<u128>>,
    views_after: Seq<Option<ConnectionView>>,
    stop: int,
) -> bool {
    &&& connected_after.len() == model.connected.len()
    &&& views_after.len() == views.len()
    &&& forall|i: int|
        0 <= i < stop ==> {
            &&& (#[trigger] connected_after[i]) == spec_reconciled_slot(
                model,
                model.subscribers[i],
                model.connected[i],
                views[i],
            ).0
            &&& views_after[i] == spec_reconciled_slot(model, model.subscribers[i], model.connected[i], views[i]).1
        }
    &&& forall|i: int|
        stop <= i < views.len() ==> (#[trigger] connected_after[i]) == model.connected[i] && views_after[i] == views[i]
}

/// What reconciling the slots with the registry has come to, and with what
/// result, when it ended behind the slot `stop - 1`: no slot before that
/// one made the publisher give up, and that one did exactly if the result
/// is an error.
pub open spec fn spec_populate_outcome(
    model: PublisherModel,
    views: Seq<Option<ConnectionView>>,
    connected_after: Seq<Option<u128>>,
    views_after: Seq<Option<ConnectionView>>,
    stop: int,
    result: Result<(), ZeroCopyCreationError>,
) -> bool {
    &&& 0 <= stop <= views.len()
    &&& spec_populated(model, views, connected_after, views_after, stop)
    &&& forall|i: int|
        0 <= i < stop - 1 ==> !spec_gives_up(
            model.degration_action,
            #[trigger] spec_reconciled_slot(model, model.subscribers[i], model.connected[i], views[i]).2,
        )
    &&& match result {
        Ok(()) => stop == views.len() && (stop > 0 ==> !spec_gives_up(
            model.degration_action,
            spec_reconciled_slot(
                model,
                model.subscribers[stop - 1],
                model.connected[stop - 1],
                views[stop - 1],
            ).2,
        )),
        Err(e) => stop > 0 && model.degration_action == Some(DegrationAction::Fail) && spec_reconciled_slot(
            model,
            model.subscribers[stop - 1],
            model.connected[stop - 1],
            views[stop - 1],
        ).2 == Some(e),
    }
}

/// What looking at the registry has come to. If the registry says what it
/// said when the publisher last looked, nothing happens. Otherwise the
/// publisher reconciles its slots with the registry, starting from the
/// contents as they are: a slot that stays connected to its subscriber is
/// left alone.
pub open spec fn spec_update_outcome(
    model: PublisherModel,
    views: Seq<Option<ConnectionView>>,
    registry: Seq<Option<SubscriberDetails>>,
    connected_after: Seq<Option<u128>>,
    views_after: Seq<Option<ConnectionView>>,
    result: Result<(), ConnectionFailure>,
) -> bool {
    if registry == model.subscribers {
        &&& connected_after == model.connected
        &&& views_after == views
        &&& result.is_ok()
    } else {
        exists|stop: int| #[trigger]
            spec_populate_outcome(
                PublisherModel { subscribers: registry, ..model },
                views,
                connected_after,
                views_after,
                stop,
                spec_creation_result(result),
            ) && !(result matches Err(ConnectionFailure::UnableToMapPublishersDataSegment(_)))
    }
}

/// The result of reconciling the slots that a result of looking at the
/// registry stems from.
pub open spec fn spec_creation_result(result: Result<(), ConnectionFailure>) -> Result<(), ZeroCopyCreationError> {
    match result {
        Ok(()) => Ok(()),
        Err(ConnectionFailure::FailedToEstablishConnection(e)) => Err(e),
        Err(_) => Err(ZeroCopyCreationError::InternalError),
    }
}

/// What the delivery of a sample has come to, starting from the contents
/// `views`: the publisher takes back what the connected subscribers have
/// returned and then sends to them in the order of their slots. It stops
/// at a subscriber without room if it was told to wait for such
/// subscribers. `delivery` counts the subscribers that got the sample.
pub open spec fn spec_delivery_outcome(
    connected: Seq<Option<u128>>,
    strategy: UnableToDeliverStrategy,
    views: Seq<Option<ConnectionView>>,
    views_after: Seq<Option<ConnectionView>>,
    ptr: PointerOffset,
    sample_size: nat,
    delivery: Delivery,
) -> bool {
    let stop = match delivery {
        Delivery::Done { recipients } => views.len() as int,
        Delivery::Blocked { connection, recipients } => connection as int,
    };
    let served = match delivery {
        Delivery::Done { recipients } => recipients,
        Delivery::Blocked { connection, recipients } => recipients,
    };
    let reclaimed = spec_all_reclaimed(views, connected);
    &&& views_after.len() == views.len()
    &&& 0 <= stop <= views.len()
    &&& served == spec_recipients(reclaimed, connected, ptr, sample_size, 0, stop)
    &&& forall|i: int|
        0 <= i < stop ==> (#[trigger] views_after[i]) == if connected[i].is_some() && reclaimed[i].is_some() {
            Some(reclaimed[i].unwrap().spec_try_send(ptr, sample_size).0)
        } else {
            reclaimed[i]
        }
    &&& forall|i: int| stop <= i < views.len() ==> (#[trigger] views_after[i]) == reclaimed[i]
    &&& delivery is Blocked ==> {
        &&& stop < views.len()
        &&& connected[stop].is_some()
        &&& strategy == UnableToDeliverStrategy::Block
        &&& reclaimed[stop].is_some()
        &&& reclaimed[stop].unwrap().spec_send_rejected()
    }
}

/// What sending a sample by way of the contents `views_mid` has come to:
/// looking at the registry led to `views_mid` without an error, and the
/// delivery went on from there.
pub open spec fn spec_sent_via(
    model: PublisherModel,
    views: Seq<Option<ConnectionView>>,
    registry: Seq<Option<SubscriberDetails>>,
    connected_after: Seq<Option<u128>>,
    views_mid: Seq<Option<ConnectionView>>,
    views_after: Seq<Option<ConnectionView>>,
    ptr: PointerOffset,
    sample_size: nat,
    delivery: Delivery,
) -> bool {
    &&& spec_update_outcome(model, views, registry, connected_after, views_mid, Ok(()))
    &&& spec_delivery_outcome(
        connected_after,
        model.unable_to_deliver_strategy,
        views_mid,
        views_after,
        ptr,
        sample_size,
        delivery,
    )
}

/// What sending a sample has come to. A publisher that is no longer active
/// refuses. Otherwise the publisher looks at the registry; if that fails,
/// the sample is neither put into the history nor delivered. Otherwise the
/// sample goes into the history and is delivered.
pub open spec fn spec_send_outcome(
    model: PublisherModel,
    views: Seq<Option<ConnectionView>>,
    registry: Seq<Option<SubscriberDetails>>,
    ptr: PointerOffset,
    sample_size: nat,
    after: PublisherModel,
    views_after: Seq<Option<ConnectionView>>,
    result: Result<Delivery, PublisherSendError>,
) -> bool {
    if !model.is_active {
        &&& result == Err::<Delivery, PublisherSendError>(
            PublisherSendError::ConnectionBrokenSincePublisherNoLongerExists,
        )
        &&& after == model
        &&& views_after == views
    } else {
        match result {
            Err(PublisherSendError::ConnectionError(failure)) => {
                &&& spec_update_outcome(model, views, registry, after.connected, views_after, Err(failure))
                &&& after.history == model.history
            },
            Ok(delivery) => {
                &&& after.history == if model.history_size == 0 {
                    model.history
                } else {
                    History::spec_after_push(
                        model.history,
                        model.history_size,
                        OffsetAndSize { offset: ptr.0, size: sample_size as usize },
                    )
                }
                &&& exists|views_mid: Seq<Option<ConnectionView>>| #[trigger]
                    spec_sent_via(
                        model,
                        views,
                        registry,
                        after.connected,
                        views_mid,
                        views_after,
                        ptr,
                        sample_size,
                        delivery,
                    )
            },
            Err(_) => false,
        }
    }
}

/// A slot that no sender has sent on: it is empty, or it holds a
/// well-formed block whose segments have no sample size yet and on which
/// what is on its way is in step with the used-chunk lists.
pub open spec fn spec_pristine(slot: Option<SharedManagementData>) -> bool {
    match slot {
        None => true,
        Some(block) => {
            &&& block.wf()
            &&& spec_protocol_consistent(block@)
            &&& forall|s: int| 0 <= s < block@.sample_sizes.len() ==> #[trigger] block@.sample_sizes[s] == 0
        },
    }
}

/// Nothing has a holder when there are no loans, no history and no block
/// that was sent on.
pub proof fn lemma_nothing_is_live(shm: Seq<Option<SharedManagementData>>, w: u64)
    requires
        forall|i: int| 0 <= i < shm.len() ==> spec_pristine(#[trigger] shm[i]),
    ensures
        spec_live(Set::<u64>::empty(), Seq::<OffsetAndSize>::empty(), spec_views(shm), w) == 0,
{
    let views = spec_views(shm);
    lemma_holders_bound(views, w);
    assert forall|i: int| 0 <= i < views.len() implies spec_holds(#[trigger] views[i], w) == 0 by {
        assert(spec_pristine(shm[i]));
        if shm[i].is_some() {
            lemma_unsent_holds_nothing(shm[i].unwrap()@, w);
        }
    }
}

} // verus!
