//! What holds of a publisher and its connections across several
//! operations.

use vstd::prelude::*;
use crate::connection_laws::{
    lemma_fresh_connection_is_consistent, lemma_locate_after_submit, lemma_one_port_of_each_kind_attaches,
    lemma_send_keeps_consistency, spec_in_flight, spec_protocol_consistent,
};
use crate::history::OffsetAndSize;
use crate::pointer_offset::{spec_segment_of, PointerOffset};
use crate::publisher::SubscriberDetails;
use crate::publisher_model::{
    lemma_can_send, lemma_empty_flight_means_empty_channels, lemma_holders_bound, lemma_send_changes_holding,
    lemma_state_is_irrelevant, lemma_unsent_holds_nothing, spec_bucket_of, spec_connect, spec_holders, spec_holds,
    spec_live, spec_occurrences, spec_reconciled_slot, spec_replayed, PublisherModel,
};
use crate::zero_copy_connection::{ConnectionView, ZeroCopySendError, STATE_RECEIVER, STATE_SENDER};

verus! {

/// The words of the samples `entries`.
pub open spec fn spec_offsets(entries: Seq<OffsetAndSize>) -> Seq<u64> {
    Seq::new(entries.len(), |k: int| entries[k].offset)
}

/// Number of times the word `w` is on its way on the connections in the
/// slots: in a submission channel, held by a receiver, or in a completion
/// channel.
pub open spec fn spec_on_the_way(shm: Seq<Option<ConnectionView>>, w: u64) -> nat
    decreases shm.len(),
{
    if shm.len() == 0 {
        0
    } else {
        spec_on_the_way(shm.drop_last(), w) + match shm.last() {
            Some(view) => spec_in_flight(view).count(w),
            None => 0,
        }
    }
}

/// On connections whose channels are in step with their used-chunk lists,
/// the connections that have a bucket in flight are as many as the copies
/// of its address that are on their way.
pub proof fn lemma_holders_are_on_the_way(shm: Seq<Option<ConnectionView>>, w: u64)
    requires
        forall|i: int| 0 <= i < shm.len() && (#[trigger] shm[i]).is_some() ==> spec_protocol_consistent(shm[i].unwrap()),
    ensures
        spec_holders(shm, w) == spec_on_the_way(shm, w),
    decreases shm.len(),
{
    if shm.len() > 0 {
        assert forall|i: int| 0 <= i < shm.drop_last().len() && (#[trigger] shm.drop_last()[i]).is_some() implies spec_protocol_consistent(
            shm.drop_last()[i].unwrap(),
        ) by {
            assert(shm.drop_last()[i] == shm[i]);
        }
        lemma_holders_are_on_the_way(shm.drop_last(), w);
        match shm.last() {
            Some(view) => {
                assert(shm[shm.len() - 1].is_some());
                assert(spec_in_flight(view).count(w) == if view.spec_locate(w).is_some() {
                    1nat
                } else {
                    0nat
                });
            },
            None => {},
        }
    }
}

/// Reference-count balance: when the reference counts of a publisher
/// balance and the channels of its connections are in step with their
/// used-chunk lists, the count of every bucket is the number of its live
/// copies: one if the user holds it as a loan, one for each entry of the
/// history, and one for each time its address is in a submission channel,
/// held by a receiver or in a completion channel. A bucket without a live
/// copy has the count zero and is free.
pub proof fn lemma_reference_count_is_number_of_live_copies(
    model: PublisherModel,
    shm: Seq<Option<ConnectionView>>,
    w: u64,
)
    requires
        model.spec_balanced(shm),
        forall|i: int| 0 <= i < shm.len() && (#[trigger] shm[i]).is_some() ==> spec_protocol_consistent(shm[i].unwrap()),
    ensures
        model.spec_refcount(w) == (if model.loaned.contains(w) {
            1nat
        } else {
            0nat
        }) + crate::publisher_model::spec_occurrences(model.history, w) + spec_on_the_way(shm, w),
        model.spec_refcount(w) == 0 <==> !model.data.spec_is_allocated(PointerOffset(w)),
{
    lemma_holders_are_on_the_way(shm, w);
    assert(model.spec_refcount(w) == spec_live(model.loaned, model.history, shm, w));
}

/// Samples that are sent on a connection with room for all of them line up
/// behind what the submission channel held, in the order in which they
/// were sent.
pub proof fn lemma_replay_appends(model: PublisherModel, view: ConnectionView, entries: Seq<OffsetAndSize>)
    requires
        model.well_formed(),
        view.well_formed(),
        spec_protocol_consistent(view),
        model.spec_compatible(view),
        view.submission.len() + entries.len() <= view.buffer_size,
        forall|k: int|
            0 <= k < entries.len() ==> {
                &&& spec_bucket_of(model.data, (#[trigger] entries[k]).offset).is_some()
                &&& entries[k].size == model.data.bucket_sizes[spec_segment_of(entries[k].offset) as int]
                &&& view.spec_locate(entries[k].offset).is_none()
            },
        forall|j: int, k: int|
            0 <= j < k < entries.len() ==> (#[trigger] entries[j]).offset != (#[trigger] entries[k]).offset,
    ensures
        spec_replayed(view, entries).submission == view.submission + spec_offsets(entries),
        spec_replayed(view, entries).buffer_size == view.buffer_size,
    decreases entries.len(),
{
    if entries.len() == 0 {
        assert(view.submission + spec_offsets(entries) =~= view.submission);
    } else {
        let first = entries[0];
        let ptr = PointerOffset(first.offset);
        let rest = entries.skip(1);
        lemma_can_send(model, view, ptr, first.size as nat);
        lemma_send_keeps_consistency(view, ptr, first.size as nat);
        let next = view.spec_try_send(ptr, first.size as nat).0;
        assert(next == view.spec_submitted(ptr, first.size as nat));
        assert(next.submission == view.submission.push(first.offset));
        assert forall|k: int| 0 <= k < rest.len() implies {
            &&& spec_bucket_of(model.data, (#[trigger] rest[k]).offset).is_some()
            &&& rest[k].size == model.data.bucket_sizes[spec_segment_of(rest[k].offset) as int]
            &&& next.spec_locate(rest[k].offset).is_none()
        } by {
            assert(rest[k] == entries[k + 1]);
            lemma_locate_after_submit(view, ptr, first.size as nat, rest[k].offset);
        }
        assert forall|j: int, k: int| 0 <= j < k < rest.len() implies (#[trigger] rest[j]).offset != (
        #[trigger] rest[k]).offset by {
            assert(rest[j] == entries[j + 1]);
            assert(rest[k] == entries[k + 1]);
        }
        lemma_replay_appends(model, next, rest);
        assert(view.submission.push(first.offset) + spec_offsets(rest) =~= view.submission + spec_offsets(entries));
    }
}

/// History replay bound: a subscriber that joins late, on a connection
/// that nothing was sent on yet, finds in its submission channel the most
/// recent samples of the history, as many as the history holds and its
/// buffer has room for, in the order in which they were published. What
/// is sent afterwards comes behind them.
pub proof fn lemma_history_replay_bound(model: PublisherModel, view: ConnectionView)
    requires
        model.well_formed(),
        view.well_formed(),
        spec_protocol_consistent(view),
        model.spec_compatible(view),
        view.submission.len() == 0,
        forall|w: u64| #[trigger] view.spec_locate(w).is_none(),
    ensures
        ({
            let tail = model.spec_history_tail(view.buffer_size);
            let replayed = spec_replayed(view, tail);
            &&& tail.len() == if model.history.len() <= view.buffer_size {
                model.history.len()
            } else {
                view.buffer_size
            }
            &&& replayed.submission.len() == tail.len()
            &&& forall|k: int|
                0 <= k < tail.len() ==> #[trigger] replayed.submission[k] == model.history[model.history.len()
                    - tail.len() + k].offset
        }),
{
    let tail = model.spec_history_tail(view.buffer_size);
    let start = model.history.len() - tail.len();
    assert forall|k: int| 0 <= k < tail.len() implies {
        &&& spec_bucket_of(model.data, (#[trigger] tail[k]).offset).is_some()
        &&& tail[k].size == model.data.bucket_sizes[spec_segment_of(tail[k].offset) as int]
        &&& view.spec_locate(tail[k].offset).is_none()
    } by {
        assert(tail[k] == model.history[start + k]);
    }
    assert forall|j: int, k: int| 0 <= j < k < tail.len() implies (#[trigger] tail[j]).offset != (
    #[trigger] tail[k]).offset by {
        assert(tail[j] == model.history[start + j]);
        assert(tail[k] == model.history[start + k]);
    }
    lemma_replay_appends(model, view, tail);
    let replayed = spec_replayed(view, tail);
    assert(replayed.submission =~= spec_offsets(tail));
    assert forall|k: int| 0 <= k < tail.len() implies #[trigger] replayed.submission[k] == model.history[start
        + k].offset by {
        assert(tail[k] == model.history[start + k]);
    }
}

/// Safe overflow at the publisher. A sample that a full connection gives
/// up for a new one loses that connection as its holder, and the new
/// sample gains it. If nothing else holds the sample that was given up, no
/// loan, no entry of the history and no other connection, its count is
/// zero once the counts balance again, and its bucket is free for the
/// next loan. `model` and `views` are the publisher and its slots after
/// the delivery, `before` is the connection in the slot `i` before it.
pub proof fn lemma_evicted_sample_is_freed(
    model: PublisherModel,
    views: Seq<Option<ConnectionView>>,
    i: int,
    before: ConnectionView,
    ptr: PointerOffset,
    sample_size: nat,
    evicted: PointerOffset,
)
    requires
        model.spec_balanced(views),
        0 <= i < views.len(),
        before.well_formed(),
        spec_protocol_consistent(before),
        before.spec_can_send(ptr, sample_size),
        before.spec_try_send(ptr, sample_size).1 == Ok::<Option<PointerOffset>, ZeroCopySendError>(Some(evicted)),
        views[i] == Some(before.spec_try_send(ptr, sample_size).0),
        !model.loaned.contains(evicted.0),
        spec_occurrences(model.history, evicted.0) == 0,
        forall|j: int| 0 <= j < views.len() && j != i ==> spec_holds(#[trigger] views[j], evicted.0) == 0,
    ensures
        evicted == PointerOffset(before.submission[0]) || evicted == ptr,
        model.spec_refcount(evicted.0) == 0,
        !model.data.spec_is_allocated(evicted),
        evicted != ptr ==> model.spec_refcount(ptr.0) >= 1,
{
    lemma_send_changes_holding(before, ptr, sample_size, evicted.0);
    lemma_send_changes_holding(before, ptr, sample_size, ptr.0);
    assert(spec_holds(views[i], evicted.0) == 0);
    lemma_holders_bound(views, evicted.0);
    assert(model.spec_refcount(evicted.0) == spec_live(model.loaned, model.history, views, evicted.0));
    assert(model.data.spec_is_allocated(PointerOffset(evicted.0)) <==> model.spec_refcount(evicted.0) > 0);
    assert(model.spec_refcount(ptr.0) == spec_live(model.loaned, model.history, views, ptr.0));
    lemma_holders_bound(views, ptr.0);
    if evicted != ptr {
        assert(spec_holds(views[i], ptr.0) == 1);
    }
}

/// A connection to a slot that holds no block can be made whenever the
/// channels that the subscriber asks for can be allocated.
pub proof fn lemma_connection_to_an_empty_slot_can_be_made(model: PublisherModel, details: SubscriberDetails)
    requires
        model.spec_connection_settings(details).fits(),
    ensures
        spec_connect(model.spec_connection_settings(details), None).1.is_ok(),
{
    lemma_one_port_of_each_kind_attaches(model.spec_connection_settings(details), STATE_SENDER, STATE_RECEIVER);
}

/// A late subscriber gets the history. When the registry names a
/// subscriber for a slot that is not connected, and the connection to it
/// can be made, on no block or on a block that nothing was sent on yet,
/// reconciling the slot connects it, and the new connection holds in its
/// submission channel the most recent samples of the history: as many as
/// the history holds and the buffer of the subscriber has room for, in
/// the order in which they were published. The subscriber receives them
/// before anything that is sent after it has arrived.
pub proof fn lemma_late_subscriber_gets_the_history(
    model: PublisherModel,
    details: SubscriberDetails,
    slot: Option<ConnectionView>,
)
    requires
        model.well_formed(),
        slot matches Some(found) ==> {
            &&& found.well_formed()
            &&& spec_protocol_consistent(found)
            &&& forall|s: int| 0 <= s < found.sample_sizes.len() ==> #[trigger] found.sample_sizes[s] == 0
        },
        spec_connect(model.spec_connection_settings(details), slot).1.is_ok(),
    ensures
        ({
            let outcome = spec_reconciled_slot(model, Some(details), None, slot);
            let buffer = model.spec_connection_settings(details).buffer_size;
            let count = if model.history.len() <= buffer {
                model.history.len()
            } else {
                buffer
            };
            &&& outcome.0 == Some(details.subscriber_id)
            &&& outcome.2.is_none()
            &&& outcome.1.is_some()
            &&& outcome.1.unwrap().submission == Seq::new(
                count,
                |k: int| model.history[model.history.len() - count + k].offset,
            )
        }),
{
    let settings = model.spec_connection_settings(details);
    let attached = spec_connect(settings, slot).0.unwrap();
    let opened = settings.spec_create_or_open(slot).0.unwrap();
    lemma_fresh_connection_is_consistent(settings);
    assert(attached == (ConnectionView { state: attached.state, ..opened }));
    lemma_state_is_irrelevant(opened, attached);
    assert forall|w: u64| #[trigger] attached.spec_locate(w).is_none() by {
        lemma_unsent_holds_nothing(attached, w);
    }
    lemma_empty_flight_means_empty_channels(attached);
    lemma_history_replay_bound(model, attached);
    let tail = model.spec_history_tail(attached.buffer_size);
    let replayed = spec_replayed(attached, tail);
    assert(replayed.submission =~= Seq::new(
        tail.len(),
        |k: int| model.history[model.history.len() - tail.len() + k].offset,
    ));
}

} // verus!
