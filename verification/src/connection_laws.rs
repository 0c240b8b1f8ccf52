//! What holds of a connection across several operations.
//!
//! Every statement is about the mathematical content of a management block
//! and the transitions that the operations of the ports are specified by.

use vstd::prelude::*;
use vstd::multiset::Multiset;
use crate::channel::SubmissionChannel;
use crate::pointer_offset::{lemma_unpack_pack, spec_offset_of, spec_segment_of, PointerOffset};
use crate::zero_copy_connection::{
    spec_after_detach, spec_release_takes_ownership, spec_reserve_port, spec_state_after_release, BuilderView,
    ConnectionView, STATE_MARKED_FOR_DESTRUCTION, STATE_RECEIVER, STATE_SENDER, ZeroCopyCreationError,
    ZeroCopyReceiveError, ZeroCopySendError,
};

verus! {

/// The content after the addresses `ptrs` were sent one after the other.
pub open spec fn spec_send_all(view: ConnectionView, ptrs: Seq<PointerOffset>, sample_size: nat) -> ConnectionView
    decreases ptrs.len(),
{
    if ptrs.len() == 0 {
        view
    } else {
        spec_send_all(view.spec_try_send(ptrs[0], sample_size).0, ptrs.skip(1), sample_size)
    }
}

/// Every one of the sends of `ptrs` was accepted and none of them evicted
/// an older address.
pub open spec fn spec_all_accepted(view: ConnectionView, ptrs: Seq<PointerOffset>, sample_size: nat) -> bool
    decreases ptrs.len(),
{
    if ptrs.len() == 0 {
        true
    } else {
        &&& view.spec_try_send(ptrs[0], sample_size).1 == Ok::<Option<PointerOffset>, ZeroCopySendError>(None)
        &&& spec_all_accepted(view.spec_try_send(ptrs[0], sample_size).0, ptrs.skip(1), sample_size)
    }
}

/// The content after `count` receives in a row, by a receiver that held
/// `borrow_counter` samples before the first.
pub open spec fn spec_receive_all(view: ConnectionView, borrow_counter: nat, count: nat) -> ConnectionView
    decreases count,
{
    if count == 0 {
        view
    } else {
        spec_receive_all(
            view.spec_receive(borrow_counter).0,
            view.spec_receive(borrow_counter).1,
            (count - 1) as nat,
        )
    }
}

/// What `count` receives in a row hand out, by a receiver that held
/// `borrow_counter` samples before the first.
pub open spec fn spec_received(view: ConnectionView, borrow_counter: nat, count: nat) -> Seq<
    Result<Option<PointerOffset>, ZeroCopyReceiveError>,
>
    decreases count,
{
    if count == 0 {
        Seq::empty()
    } else {
        seq![view.spec_receive(borrow_counter).2] + spec_received(
            view.spec_receive(borrow_counter).0,
            view.spec_receive(borrow_counter).1,
            (count - 1) as nat,
        )
    }
}

/// The words of the addresses `ptrs`.
pub open spec fn spec_words(ptrs: Seq<PointerOffset>) -> Seq<u64> {
    Seq::new(ptrs.len(), |k: int| ptrs[k].0)
}

/// The words that are on their way: those in the submission channel, those
/// the receiver holds, and those in the completion channel.
pub open spec fn spec_in_flight(view: ConnectionView) -> Multiset<u64> {
    view.submission.to_multiset().add(view.borrowed).add(view.completion.to_multiset())
}

/// The words on their way are exactly the addresses of the buckets in the
/// used-chunk lists, each of them once.
pub open spec fn spec_protocol_consistent(view: ConnectionView) -> bool {
    forall|w: u64| #[trigger]
        spec_in_flight(view).count(w) == if view.spec_locate(w).is_some() {
            1nat
        } else {
            0nat
        }
}

/// Two words that stand for the same bucket are the same word.
pub proof fn lemma_locate_is_injective(view: ConnectionView, a: u64, b: u64)
    requires
        view.spec_locate(a).is_some(),
        view.spec_locate(a) == view.spec_locate(b),
    ensures
        a == b,
{
    let segment = spec_segment_of(a) as int;
    let size = view.sample_sizes[segment] as int;
    vstd::arithmetic::div_mod::lemma_fundamental_div_mod(spec_offset_of(a) as int, size);
    vstd::arithmetic::div_mod::lemma_fundamental_div_mod(spec_offset_of(b) as int, size);
    lemma_unpack_pack(a);
    lemma_unpack_pack(b);
}

/// What the words stand for once a send has recorded its bucket: what they
/// stood for before, and the sent address stands for the new bucket.
pub proof fn lemma_locate_after_submit(view: ConnectionView, ptr: PointerOffset, sample_size: nat, w: u64)
    requires
        view.well_formed(),
        view.spec_can_send(ptr, sample_size),
    ensures
        view.spec_submitted(ptr, sample_size).spec_locate(w).is_some() <==> (w == ptr.0 || view.spec_locate(
            w,
        ).is_some()),
        view.spec_locate(w).is_some() ==> view.spec_submitted(ptr, sample_size).spec_locate(w) == view.spec_locate(w),
        !view.spec_locate(ptr.0).is_some(),
        view.spec_submitted(ptr, sample_size).well_formed(),
{
    let after = view.spec_submitted(ptr, sample_size);
    let segment = ptr.spec_segment_id() as int;
    let index = (ptr.spec_offset() / sample_size) as int;
    vstd::arithmetic::div_mod::lemma_fundamental_div_mod(ptr.spec_offset() as int, sample_size as int);
    assert(index * sample_size == ptr.spec_offset()) by (nonlinear_arith)
        requires
            ptr.spec_offset() == sample_size * index + ptr.spec_offset() % sample_size,
            ptr.spec_offset() % sample_size == 0,
    ;
    lemma_unpack_pack(ptr.0);
    lemma_unpack_pack(w);
    if spec_segment_of(w) as int == segment && view.sample_sizes[segment] == 0 {
        assert(!view.used[segment].contains(spec_offset_of(w) as int / 1));
    }
    if after.spec_locate(w).is_some() && !view.spec_locate(w).is_some() {
        vstd::arithmetic::div_mod::lemma_fundamental_div_mod(spec_offset_of(w) as int, sample_size as int);
        assert(spec_segment_of(w) == segment);
        assert(spec_offset_of(w) as int / (sample_size as int) == index);
        assert(spec_offset_of(w) == index * sample_size) by (nonlinear_arith)
            requires
                spec_offset_of(w) == sample_size * (spec_offset_of(w) as int / (sample_size as int)) + spec_offset_of(
                    w,
                ) as int % (sample_size as int),
                spec_offset_of(w) as int % (sample_size as int) == 0,
                spec_offset_of(w) as int / (sample_size as int) == index,
        ;
    }
    assert forall|s: int, i: int| 0 <= s < after.used.len() && #[trigger] after.used[s].contains(i) implies {
        &&& 0 <= i < after.number_of_samples_per_segment
        &&& after.sample_sizes[s] > 0
        &&& i * after.sample_sizes[s] <= crate::pointer_offset::MAX_OFFSET
    } by {
        if s == segment && i != index {
            assert(view.used[s].contains(i));
        } else if s != segment {
            assert(view.used[s].contains(i));
        }
    }
}

/// What the words stand for once a bucket has left the used-chunk list:
/// what they stood for before, except for the address of that bucket,
/// which stands for nothing.
pub proof fn lemma_locate_after_forget(view: ConnectionView, gone: u64, w: u64)
    requires
        view.well_formed(),
        view.spec_locate(gone).is_some(),
    ensures
        view.spec_without(view.spec_locate(gone).unwrap().0, view.spec_locate(gone).unwrap().1).spec_locate(
            w,
        ).is_some() <==> (w != gone && view.spec_locate(w).is_some()),
        view.spec_without(view.spec_locate(gone).unwrap().0, view.spec_locate(gone).unwrap().1).well_formed(),
{
    let (segment, index) = view.spec_locate(gone).unwrap();
    let after = view.spec_without(segment, index);
    if view.spec_locate(w).is_some() && view.spec_locate(w) == view.spec_locate(gone) {
        lemma_locate_is_injective(view, w, gone);
    }
    assert forall|s: int, i: int| 0 <= s < after.used.len() && #[trigger] after.used[s].contains(i) implies {
        &&& 0 <= i < after.number_of_samples_per_segment
        &&& after.sample_sizes[s] > 0
        &&& i * after.sample_sizes[s] <= crate::pointer_offset::MAX_OFFSET
    } by {
        assert(view.used[s].contains(i));
    }
}

/// A connection that was just created has nothing on its way.
pub proof fn lemma_fresh_connection_is_consistent(settings: BuilderView)
    requires
        settings.well_formed(),
    ensures
        settings.spec_fresh().well_formed(),
        spec_protocol_consistent(settings.spec_fresh()),
{
    let fresh = settings.spec_fresh();
    assert(fresh.submission.to_multiset() =~= Multiset::<u64>::empty()) by {
        fresh.submission.to_multiset_ensures();
    }
    assert(fresh.completion.to_multiset() =~= Multiset::<u64>::empty()) by {
        fresh.completion.to_multiset_ensures();
    }
    assert forall|w: u64| #[trigger] spec_in_flight(fresh).count(w) == 0 by {}
}

/// Sending keeps the words on their way in step with the used-chunk lists,
/// and on such a connection a send never meets an address it cannot place.
pub proof fn lemma_send_keeps_consistency(view: ConnectionView, ptr: PointerOffset, sample_size: nat)
    requires
        view.well_formed(),
        spec_protocol_consistent(view),
        !view.spec_send_rejected() ==> view.spec_can_send(ptr, sample_size),
    ensures
        view.spec_try_send(ptr, sample_size).0.well_formed(),
        spec_protocol_consistent(view.spec_try_send(ptr, sample_size).0),
        view.spec_try_send(ptr, sample_size).1 != Err::<Option<PointerOffset>, ZeroCopySendError>(
            ZeroCopySendError::ConnectionCorrupted,
        ),
{
    if !view.spec_send_rejected() {
        let submitted = view.spec_submitted(ptr, sample_size);
        let pushed = view.submission.push(ptr.0);
        vstd::seq_lib::to_multiset_build(view.submission, ptr.0);
        lemma_locate_after_submit(view, ptr, sample_size, ptr.0);
        match SubmissionChannel::spec_evicted(view.submission, view.buffer_size, ptr.0) {
            None => {
                assert forall|w: u64| #[trigger]
                    spec_in_flight(submitted).count(w) == if submitted.spec_locate(w).is_some() {
                        1nat
                    } else {
                        0nat
                    } by {
                    lemma_locate_after_submit(view, ptr, sample_size, w);
                    assert(spec_in_flight(view).count(w) == if view.spec_locate(w).is_some() {
                        1nat
                    } else {
                        0nat
                    });
                }
            },
            Some(evicted) => {
                assert(evicted == pushed[0]);
                vstd::seq_lib::to_multiset_remove(pushed, 0);
                assert(pushed.remove(0) =~= pushed.skip(1));
                assert(pushed.to_multiset().count(evicted) > 0) by {
                    pushed.to_multiset_ensures();
                    assert(pushed.contains(evicted));
                }
                lemma_locate_after_submit(view, ptr, sample_size, evicted);
                assert(spec_in_flight(view).count(evicted) == if view.spec_locate(evicted).is_some() {
                    1nat
                } else {
                    0nat
                });
                assert(submitted.spec_locate(evicted).is_some());
                let (segment, index) = submitted.spec_locate(evicted).unwrap();
                let after = submitted.spec_without(segment, index);
                lemma_locate_after_forget(submitted, evicted, evicted);
                assert forall|w: u64| #[trigger]
                    spec_in_flight(after).count(w) == if after.spec_locate(w).is_some() {
                        1nat
                    } else {
                        0nat
                    } by {
                    lemma_locate_after_submit(view, ptr, sample_size, w);
                    lemma_locate_after_forget(submitted, evicted, w);
                    assert(spec_in_flight(view).count(w) == if view.spec_locate(w).is_some() {
                        1nat
                    } else {
                        0nat
                    });
                }
            },
        }
    }
}

/// Receiving keeps the words on their way in step with the used-chunk
/// lists.
pub proof fn lemma_receive_keeps_consistency(view: ConnectionView, borrow_counter: nat)
    requires
        view.well_formed(),
        spec_protocol_consistent(view),
    ensures
        view.spec_receive(borrow_counter).0.well_formed(),
        spec_protocol_consistent(view.spec_receive(borrow_counter).0),
{
    let after = view.spec_receive(borrow_counter).0;
    if borrow_counter < view.max_borrowed_samples && view.submission.len() > 0 {
        vstd::seq_lib::to_multiset_remove(view.submission, 0);
        assert(view.submission.remove(0) =~= view.submission.skip(1));
        assert(view.submission.to_multiset().count(view.submission[0]) > 0) by {
            view.submission.to_multiset_ensures();
            assert(view.submission.contains(view.submission[0]));
        }
        assert forall|w: u64| #[trigger]
            spec_in_flight(after).count(w) == if after.spec_locate(w).is_some() {
                1nat
            } else {
                0nat
            } by {
            assert(spec_in_flight(view).count(w) == if view.spec_locate(w).is_some() {
                1nat
            } else {
                0nat
            });
        }
    }
}

/// Releasing a sample that the receiver holds keeps the words on their
/// way in step with the used-chunk lists.
pub proof fn lemma_release_keeps_consistency(view: ConnectionView, borrow_counter: nat, ptr: PointerOffset)
    requires
        view.well_formed(),
        spec_protocol_consistent(view),
        view.borrowed.contains(ptr.0),
    ensures
        view.spec_release(borrow_counter, ptr).0.well_formed(),
        spec_protocol_consistent(view.spec_release(borrow_counter, ptr).0),
{
    let after = view.spec_release(borrow_counter, ptr).0;
    if view.completion.len() < view.completion_capacity {
        vstd::seq_lib::to_multiset_build(view.completion, ptr.0);
        assert forall|w: u64| #[trigger]
            spec_in_flight(after).count(w) == if after.spec_locate(w).is_some() {
                1nat
            } else {
                0nat
            } by {
            assert(spec_in_flight(view).count(w) == if view.spec_locate(w).is_some() {
                1nat
            } else {
                0nat
            });
        }
    }
}

/// Reclaiming keeps the words on their way in step with the used-chunk
/// lists, and on such a connection the sender never gets back an address
/// it cannot place.
pub proof fn lemma_reclaim_keeps_consistency(view: ConnectionView)
    requires
        view.well_formed(),
        spec_protocol_consistent(view),
    ensures
        view.spec_reclaim().0.well_formed(),
        spec_protocol_consistent(view.spec_reclaim().0),
        view.spec_reclaim().1.is_ok(),
{
    if view.completion.len() > 0 {
        let returned = view.completion[0];
        let popped = ConnectionView { completion: view.completion.skip(1), ..view };
        vstd::seq_lib::to_multiset_remove(view.completion, 0);
        assert(view.completion.remove(0) =~= view.completion.skip(1));
        assert(view.completion.to_multiset().count(returned) > 0) by {
            view.completion.to_multiset_ensures();
            assert(view.completion.contains(returned));
        }
        assert(spec_in_flight(view).count(returned) == if view.spec_locate(returned).is_some() {
            1nat
        } else {
            0nat
        });
        assert(popped.spec_locate(returned) == view.spec_locate(returned));
        assert(popped.well_formed());
        let (segment, index) = popped.spec_locate(returned).unwrap();
        let after = popped.spec_without(segment, index);
        lemma_locate_after_forget(popped, returned, returned);
        assert forall|w: u64| #[trigger]
            spec_in_flight(after).count(w) == if after.spec_locate(w).is_some() {
                1nat
            } else {
                0nat
            } by {
            lemma_locate_after_forget(popped, returned, w);
            assert(popped.spec_locate(w) == view.spec_locate(w));
            assert(spec_in_flight(view).count(w) == if view.spec_locate(w).is_some() {
                1nat
            } else {
                0nat
            });
        }
    }
}

/// A connection has room for one port of each kind: once a port of a kind
/// is attached, attaching another of the same kind with the same settings
/// fails because an instance is already connected.
pub proof fn lemma_second_port_is_refused(settings: BuilderView, slot: Option<ConnectionView>, bit: u8)
    requires
        bit == STATE_SENDER || bit == STATE_RECEIVER,
        settings.spec_create_port(slot, bit).1.is_ok(),
    ensures
        settings.spec_create_port(settings.spec_create_port(slot, bit).0, bit) == (
            settings.spec_create_port(slot, bit).0,
            Err::<(), ZeroCopyCreationError>(ZeroCopyCreationError::AnotherInstanceIsAlreadyConnected),
        ),
{
    let opened = settings.spec_create_or_open(slot);
    let attached = opened.0.unwrap().spec_reserved(bit).unwrap();
    let state = opened.0.unwrap().state;
    assert(((state | bit) & bit) != 0) by (bit_vector)
        requires
            bit == 1u8 || bit == 2u8,
    ;
    assert(settings.spec_incompatibility(opened.0.unwrap()).is_none());
    assert(settings.spec_incompatibility(attached).is_none());
}

/// A sender and a receiver can both attach to a connection that was just
/// created, in either order, and the connection is then connected.
pub proof fn lemma_one_port_of_each_kind_attaches(settings: BuilderView, first: u8, second: u8)
    requires
        (first == STATE_SENDER && second == STATE_RECEIVER) || (first == STATE_RECEIVER && second == STATE_SENDER),
    ensures
        settings.spec_create_port(None, first).1.is_ok(),
        settings.spec_create_port(settings.spec_create_port(None, first).0, second).1.is_ok(),
        settings.spec_create_port(settings.spec_create_port(None, first).0, second).0.unwrap().is_connected(),
{
    assert(0u8 & 1u8 == 0 && 0u8 & 2u8 == 0 && 0u8 & 0x80u8 == 0) by (bit_vector);
    assert((0u8 | 1u8) & 2u8 == 0 && (0u8 | 2u8) & 1u8 == 0) by (bit_vector);
    assert((0u8 | 1u8) & 0x80u8 == 0 && (0u8 | 2u8) & 0x80u8 == 0) by (bit_vector);
    assert((0u8 | 1u8) | 2u8 == 1u8 | 2u8 && (0u8 | 2u8) | 1u8 == 1u8 | 2u8) by (bit_vector);
    let fresh = settings.spec_fresh();
    assert(settings.spec_incompatibility(fresh).is_none());
    let attached = fresh.spec_reserved(first).unwrap();
    assert(settings.spec_incompatibility(attached).is_none());
}

/// Zero-copy identity on a connection: what crosses the connection is the
/// word of the address and nothing else. A sample that a connection with
/// an empty submission channel has accepted is what the receiver gets
/// next, under the very word that was sent: the same segment and the same
/// byte distance.
pub proof fn lemma_receive_hands_back_what_was_sent(
    view: ConnectionView,
    ptr: PointerOffset,
    sample_size: nat,
    borrow_counter: nat,
)
    requires
        view.well_formed(),
        view.submission.len() == 0,
        borrow_counter < view.max_borrowed_samples,
        view.spec_try_send(ptr, sample_size).1.is_ok(),
    ensures
        view.spec_try_send(ptr, sample_size).1 == Ok::<Option<PointerOffset>, ZeroCopySendError>(None),
        view.spec_try_send(ptr, sample_size).0.submission == seq![ptr.0],
        view.spec_try_send(ptr, sample_size).0.spec_receive(borrow_counter).2 == Ok::<
            Option<PointerOffset>,
            ZeroCopyReceiveError,
        >(Some(ptr)),
        view.spec_try_send(ptr, sample_size).0.spec_receive(borrow_counter).0.submission.len() == 0,
{
    let sent = view.spec_try_send(ptr, sample_size).0;
    assert(sent.submission =~= seq![ptr.0]);
    assert(PointerOffset(sent.submission[0]) == ptr);
}

/// Sends that are accepted without eviction line the addresses up behind
/// what the submission channel held, in the order in which they were sent,
/// and leave the completion channel alone.
pub proof fn lemma_accepted_sends_append(view: ConnectionView, ptrs: Seq<PointerOffset>, sample_size: nat)
    requires
        spec_all_accepted(view, ptrs, sample_size),
    ensures
        spec_send_all(view, ptrs, sample_size).submission == view.submission + spec_words(ptrs),
        spec_send_all(view, ptrs, sample_size).completion == view.completion,
        spec_send_all(view, ptrs, sample_size).max_borrowed_samples == view.max_borrowed_samples,
        spec_send_all(view, ptrs, sample_size).buffer_size == view.buffer_size,
        spec_send_all(view, ptrs, sample_size).enable_safe_overflow == view.enable_safe_overflow,
    decreases ptrs.len(),
{
    if ptrs.len() == 0 {
        assert(view.submission + spec_words(ptrs) =~= view.submission);
    } else {
        let next = view.spec_try_send(ptrs[0], sample_size).0;
        lemma_accepted_sends_append(next, ptrs.skip(1), sample_size);
        assert(next.submission == view.submission.push(ptrs[0].0));
        assert(view.submission.push(ptrs[0].0) + spec_words(ptrs.skip(1)) =~= view.submission + spec_words(ptrs));
    }
}

/// A receiver that may still borrow `count` samples takes the `count`
/// oldest addresses off the submission channel, oldest first.
pub proof fn lemma_receives_in_order(view: ConnectionView, borrow_counter: nat, count: nat)
    requires
        borrow_counter + count <= view.max_borrowed_samples,
        count <= view.submission.len(),
    ensures
        spec_received(view, borrow_counter, count) == Seq::new(
            count,
            |k: int| Ok::<Option<PointerOffset>, ZeroCopyReceiveError>(Some(PointerOffset(view.submission[k]))),
        ),
        spec_receive_all(view, borrow_counter, count).submission == view.submission.skip(count as int),
    decreases count,
{
    let expected = Seq::new(
        count,
        |k: int| Ok::<Option<PointerOffset>, ZeroCopyReceiveError>(Some(PointerOffset(view.submission[k]))),
    );
    if count == 0 {
        assert(spec_received(view, borrow_counter, count) =~= expected);
        assert(view.submission.skip(0) =~= view.submission);
    } else {
        let next = view.spec_receive(borrow_counter);
        lemma_receives_in_order(next.0, next.1, (count - 1) as nat);
        assert(spec_received(view, borrow_counter, count) =~= expected);
        assert(view.submission.skip(1).skip(count - 1) =~= view.submission.skip(count as int));
    }
}

/// Order within a connection: when the sender sends addresses into an
/// empty submission channel and all of them are accepted, a receiver that
/// may borrow that many samples receives exactly those addresses, in the
/// order in which they were sent.
pub proof fn lemma_ordering_within_a_connection(view: ConnectionView, ptrs: Seq<PointerOffset>, sample_size: nat)
    requires
        view.submission.len() == 0,
        spec_all_accepted(view, ptrs, sample_size),
        ptrs.len() <= view.max_borrowed_samples,
    ensures
        spec_received(spec_send_all(view, ptrs, sample_size), 0, ptrs.len()) == Seq::new(
            ptrs.len(),
            |k: int| Ok::<Option<PointerOffset>, ZeroCopyReceiveError>(Some(ptrs[k])),
        ),
{
    lemma_accepted_sends_append(view, ptrs, sample_size);
    let after = spec_send_all(view, ptrs, sample_size);
    assert(after.submission =~= spec_words(ptrs));
    lemma_receives_in_order(after, 0, ptrs.len());
    assert(spec_received(after, 0, ptrs.len()) =~= Seq::new(
        ptrs.len(),
        |k: int| Ok::<Option<PointerOffset>, ZeroCopyReceiveError>(Some(ptrs[k])),
    ));
}

/// Without safe overflow a send is accepted as long as the submission
/// channel has room, and grows the channel by one.
pub proof fn lemma_send_with_room_is_accepted(view: ConnectionView, ptr: PointerOffset, sample_size: nat)
    requires
        !view.enable_safe_overflow,
        view.submission.len() < view.buffer_size,
    ensures
        view.spec_try_send(ptr, sample_size).1 == Ok::<Option<PointerOffset>, ZeroCopySendError>(None),
        view.spec_try_send(ptr, sample_size).0.submission == view.submission.push(ptr.0),
{
}

/// No loss without safe overflow: when nothing is received in between,
/// exactly as many sends as the submission channel has room for are
/// accepted, and every further send is turned away because the receive
/// buffer is full, leaving the connection as it is.
pub proof fn lemma_no_loss_without_overflow(
    view: ConnectionView,
    ptrs: Seq<PointerOffset>,
    sample_size: nat,
    more: PointerOffset,
)
    requires
        !view.enable_safe_overflow,
        view.submission.len() + ptrs.len() == view.buffer_size,
    ensures
        spec_all_accepted(view, ptrs, sample_size),
        spec_send_all(view, ptrs, sample_size).submission == view.submission + spec_words(ptrs),
        spec_send_all(view, ptrs, sample_size).spec_try_send(more, sample_size) == (
            spec_send_all(view, ptrs, sample_size),
            Err::<Option<PointerOffset>, ZeroCopySendError>(ZeroCopySendError::ReceiveBufferFull),
        ),
    decreases ptrs.len(),
{
    if ptrs.len() == 0 {
        assert(view.submission + spec_words(ptrs) =~= view.submission);
    } else {
        let next = view.spec_try_send(ptrs[0], sample_size).0;
        lemma_send_with_room_is_accepted(view, ptrs[0], sample_size);
        lemma_no_loss_without_overflow(next, ptrs.skip(1), sample_size, more);
        assert(view.submission.push(ptrs[0].0) + spec_words(ptrs.skip(1)) =~= view.submission + spec_words(ptrs));
    }
}

/// Safe overflow replaces the oldest: when the submission channel is full
/// and what it holds is recorded as in flight, a send hands back the oldest
/// address in the channel and puts the new one behind the others, so that
/// the receiver finds the newer address in place of the oldest.
pub proof fn lemma_safe_overflow_replaces_oldest(view: ConnectionView, ptr: PointerOffset, sample_size: nat)
    requires
        view.well_formed(),
        spec_protocol_consistent(view),
        view.enable_safe_overflow,
        view.buffer_size >= 1,
        view.submission.len() == view.buffer_size,
        view.spec_can_send(ptr, sample_size),
    ensures
        view.spec_try_send(ptr, sample_size).1 == Ok::<Option<PointerOffset>, ZeroCopySendError>(
            Some(PointerOffset(view.submission[0])),
        ),
        view.spec_try_send(ptr, sample_size).0.submission == view.submission.skip(1).push(ptr.0),
        view.spec_try_send(ptr, sample_size).0.submission.len() == view.buffer_size,
{
    let oldest = view.submission[0];
    let submitted = view.spec_submitted(ptr, sample_size);
    assert(SubmissionChannel::spec_evicted(view.submission, view.buffer_size, ptr.0) == Some(oldest));
    assert(view.submission.to_multiset().count(oldest) > 0) by {
        view.submission.to_multiset_ensures();
        assert(view.submission.contains(oldest));
    }
    assert(spec_in_flight(view).count(oldest) == if view.spec_locate(oldest).is_some() {
        1nat
    } else {
        0nat
    });
    lemma_locate_after_submit(view, ptr, sample_size, oldest);
    assert(view.submission.push(ptr.0).skip(1) =~= view.submission.skip(1).push(ptr.0));
}

/// Borrow cap: a receiver that holds as many samples as it may is turned
/// away, and the connection stays as it is.
pub proof fn lemma_receive_beyond_the_cap_fails(view: ConnectionView, borrow_counter: nat)
    requires
        borrow_counter >= view.max_borrowed_samples,
    ensures
        view.spec_receive(borrow_counter) == (
            view,
            borrow_counter,
            Err::<Option<PointerOffset>, ZeroCopyReceiveError>(
                ZeroCopyReceiveError::ReceiveWouldExceedMaxBorrowValue,
            ),
        ),
{
}

/// Borrow cap: with room for `k` borrowed samples and at least `k`
/// addresses waiting, a receiver that holds nothing receives `k` times
/// with success, and its next receive without a release in between fails
/// because it would exceed the greatest number of borrowed samples.
pub proof fn lemma_borrow_cap(view: ConnectionView)
    requires
        view.max_borrowed_samples <= view.submission.len(),
    ensures
        spec_received(view, 0, view.max_borrowed_samples + 1).len() == view.max_borrowed_samples + 1,
        forall|k: int|
            0 <= k < view.max_borrowed_samples ==> (#[trigger] spec_received(
                view,
                0,
                view.max_borrowed_samples + 1,
            )[k]) == Ok::<Option<PointerOffset>, ZeroCopyReceiveError>(Some(PointerOffset(view.submission[k]))),
        spec_received(view, 0, view.max_borrowed_samples + 1)[view.max_borrowed_samples as int] == Err::<
            Option<PointerOffset>,
            ZeroCopyReceiveError,
        >(ZeroCopyReceiveError::ReceiveWouldExceedMaxBorrowValue),
{
    lemma_received_up_to_the_cap(view, 0, view.max_borrowed_samples);
}

/// What a receiver that may still borrow `room` samples gets from
/// `room + 1` receives in a row.
pub proof fn lemma_received_up_to_the_cap(view: ConnectionView, borrow_counter: nat, room: nat)
    requires
        borrow_counter + room == view.max_borrowed_samples,
        room <= view.submission.len(),
    ensures
        spec_received(view, borrow_counter, room + 1).len() == room + 1,
        forall|k: int|
            0 <= k < room ==> (#[trigger] spec_received(view, borrow_counter, room + 1)[k]) == Ok::<
                Option<PointerOffset>,
                ZeroCopyReceiveError,
            >(Some(PointerOffset(view.submission[k]))),
        spec_received(view, borrow_counter, room + 1)[room as int] == Err::<
            Option<PointerOffset>,
            ZeroCopyReceiveError,
        >(ZeroCopyReceiveError::ReceiveWouldExceedMaxBorrowValue),
    decreases room,
{
    let next = view.spec_receive(borrow_counter);
    if room == 0 {
        assert(spec_received(next.0, next.1, 0).len() == 0);
    } else {
        lemma_received_up_to_the_cap(next.0, next.1, (room - 1) as nat);
        let rest = spec_received(next.0, next.1, room);
        assert forall|k: int| 0 <= k < room implies (#[trigger] spec_received(view, borrow_counter, room + 1)[k])
            == Ok::<Option<PointerOffset>, ZeroCopyReceiveError>(Some(PointerOffset(view.submission[k]))) by {
            if k > 0 {
                assert(spec_received(view, borrow_counter, room + 1)[k] == rest[k - 1]);
                assert(next.0.submission[k - 1] == view.submission[k]);
            }
        }
        assert(spec_received(view, borrow_counter, room + 1)[room as int] == rest[room - 1]);
    }
}

/// Cleanup on drop: when the sender and the receiver of a connection
/// detach, in either order, nothing is left under the connection's name.
pub proof fn lemma_detaching_both_ports_leaves_nothing(view: ConnectionView)
    requires
        view.is_connected(),
    ensures
        spec_after_detach(spec_after_detach(Some(view), STATE_SENDER), STATE_RECEIVER).is_none(),
        spec_after_detach(spec_after_detach(Some(view), STATE_RECEIVER), STATE_SENDER).is_none(),
        spec_after_detach(Some(view), STATE_SENDER).is_some(),
        spec_after_detach(Some(view), STATE_RECEIVER).is_some(),
{
    assert((1u8 | 2u8) != 0x80u8 && (1u8 | 2u8) != 1u8 && (1u8 | 2u8) != 2u8) by (bit_vector);
    assert(((1u8 | 2u8) & !1u8) == 2u8 && ((1u8 | 2u8) & !2u8) == 1u8) by (bit_vector);
}

/// A connection that is marked for destruction stays so: no port can
/// attach to it, and letting go of a port does not change it.
pub proof fn lemma_marked_for_destruction_is_terminal(bit: u8)
    requires
        bit == STATE_SENDER || bit == STATE_RECEIVER,
    ensures
        spec_reserve_port(STATE_MARKED_FOR_DESTRUCTION, bit) == Err::<u8, ZeroCopyCreationError>(
            ZeroCopyCreationError::InternalError,
        ),
        spec_state_after_release(STATE_MARKED_FOR_DESTRUCTION, bit) == STATE_MARKED_FOR_DESTRUCTION,
        !spec_release_takes_ownership(STATE_MARKED_FOR_DESTRUCTION, bit),
{
    assert(0x80u8 & 1u8 == 0 && 0x80u8 & 2u8 == 0 && 0x80u8 & 0x80u8 != 0) by (bit_vector);
}

/// Dead-peer reclaim: removing the sender of a connected connection by
/// force leaves both channels and every used-chunk list as they were. The
/// receiver therefore still receives what was in flight, exactly as it
/// would have before, and finds the connection no longer connected.
pub proof fn lemma_removed_sender_leaves_samples_in_flight(view: ConnectionView, borrow_counter: nat, count: nat)
    requires
        view.is_connected(),
    ensures
        spec_after_detach(Some(view), STATE_SENDER) == Some(view.spec_released(STATE_SENDER)),
        view.spec_released(STATE_SENDER).submission == view.submission,
        view.spec_released(STATE_SENDER).completion == view.completion,
        view.spec_released(STATE_SENDER).used == view.used,
        !view.spec_released(STATE_SENDER).is_connected(),
        spec_received(view.spec_released(STATE_SENDER), borrow_counter, count) == spec_received(
            view,
            borrow_counter,
            count,
        ),
{
    assert((1u8 | 2u8) != 0x80u8 && (1u8 | 2u8) != 1u8) by (bit_vector);
    assert(((1u8 | 2u8) & !1u8) == 2u8 && 2u8 != (1u8 | 2u8)) by (bit_vector);
    lemma_receive_ignores_state(view, view.spec_released(STATE_SENDER), borrow_counter, count);
}

/// What a receiver gets depends on the submission channel and on its
/// borrow limit, not on which ports are attached.
pub proof fn lemma_receive_ignores_state(a: ConnectionView, b: ConnectionView, borrow_counter: nat, count: nat)
    requires
        a.submission == b.submission,
        a.max_borrowed_samples == b.max_borrowed_samples,
    ensures
        spec_received(a, borrow_counter, count) == spec_received(b, borrow_counter, count),
    decreases count,
{
    if count > 0 {
        lemma_receive_ignores_state(
            a.spec_receive(borrow_counter).0,
            b.spec_receive(borrow_counter).0,
            a.spec_receive(borrow_counter).1,
            (count - 1) as nat,
        );
    }
}

/// The receiver has taken no more off the submission channel than it may
/// hold, and everything that is in the channels or held by the receiver
/// would fit into the submission channel and the hands of the receiver.
pub open spec fn spec_has_room(view: ConnectionView, borrow_counter: nat) -> bool {
    &&& borrow_counter <= view.max_borrowed_samples
    &&& view.submission.len() <= view.buffer_size
    &&& view.completion.len() + view.submission.len() + borrow_counter <= view.buffer_size + view.max_borrowed_samples
}

/// On a connection whose completion channel is one larger than the
/// submission channel and the borrow limit together, a receiver that
/// holds a sample can always release it, as long as the connection has
/// room in the sense above.
pub proof fn lemma_release_cannot_fail(view: ConnectionView, borrow_counter: nat, ptr: PointerOffset)
    requires
        spec_has_room(view, borrow_counter),
        borrow_counter >= 1,
        view.completion_capacity == view.buffer_size + view.max_borrowed_samples + 1,
    ensures
        view.spec_release(borrow_counter, ptr).2.is_ok(),
        spec_has_room(view.spec_release(borrow_counter, ptr).0, view.spec_release(borrow_counter, ptr).1),
{
}

/// Receiving keeps the room of a connection, and the receiver never holds
/// more samples than it may.
pub proof fn lemma_receive_keeps_room(view: ConnectionView, borrow_counter: nat)
    requires
        spec_has_room(view, borrow_counter),
    ensures
        spec_has_room(view.spec_receive(borrow_counter).0, view.spec_receive(borrow_counter).1),
        view.spec_receive(borrow_counter).1 <= view.max_borrowed_samples,
{
}

/// Reclaiming keeps the room of a connection.
pub proof fn lemma_reclaim_keeps_room(view: ConnectionView, borrow_counter: nat)
    requires
        spec_has_room(view, borrow_counter),
    ensures
        spec_has_room(view.spec_reclaim().0, borrow_counter),
{
}

/// A sender that has reclaimed everything before it sends keeps the room
/// of a connection. A sender that keeps to this therefore never makes a
/// release fail.
pub proof fn lemma_send_after_reclaim_keeps_room(
    view: ConnectionView,
    borrow_counter: nat,
    ptr: PointerOffset,
    sample_size: nat,
)
    requires
        spec_has_room(view, borrow_counter),
        view.completion.len() == 0,
    ensures
        spec_has_room(view.spec_try_send(ptr, sample_size).0, borrow_counter),
{
    if !view.spec_send_rejected() {
        let submitted = view.spec_submitted(ptr, sample_size);
        if view.submission.len() >= view.buffer_size {
            assert(submitted.submission.len() == view.submission.len());
        } else {
            assert(submitted.submission.len() == view.submission.len() + 1);
        }
    }
}

} // verus!
